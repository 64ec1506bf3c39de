//! Character offsets versus UTF-8 byte offsets of a `String`.
//!
//! A `String` is viewed as the sequence of its characters (`s@`); its storage
//! is `encode_utf8(s@)`. The lemmas here relate the two, so that a character
//! position can be turned into the byte position that `String` methods expect.
use vstd::prelude::*;
use vstd::utf8::*;

verus! {

broadcast use vstd::utf8::encode_utf8_valid_utf8, vstd::utf8::encode_utf8_decode_utf8;

/// The byte offset at which the character at index `k` of `s` starts
/// (the length of the whole encoding when `k == s.len()`).
pub open spec fn byte_offset(s: Seq<char>, k: int) -> nat {
    encode_utf8(s.take(k)).len()
}

/// Encoding is a homomorphism from character sequences to byte sequences.
pub proof fn lemma_encode_concat(a: Seq<char>, b: Seq<char>)
    ensures
        encode_utf8(a + b) == encode_utf8(a) + encode_utf8(b),
    decreases a.len(),
{
    if a.len() == 0 {
        assert(a + b =~= b);
        assert(encode_utf8(a) + encode_utf8(b) =~= encode_utf8(b));
    } else {
        assert((a + b)[0] == a[0]);
        assert((a + b).drop_first() =~= a.drop_first() + b);
        lemma_encode_concat(a.drop_first(), b);
        assert(encode_utf8(a + b) =~= encode_utf8(a) + encode_utf8(b));
    }
}

/// Every character is encoded in one to four bytes.
pub proof fn lemma_scalar_width(c: char)
    ensures
        1 <= encode_scalar(c as u32).len() <= 4,
{
}

/// The end of the encoding of a prefix is a character boundary of the whole.
pub proof fn lemma_prefix_is_boundary(a: Seq<char>, b: Seq<char>)
    ensures
        is_char_boundary(encode_utf8(a + b), encode_utf8(a).len() as int),
    decreases a.len(),
{
    let bytes = encode_utf8(a + b);
    lemma_encode_concat(a, b);
    if a.len() > 0 {
        let rest = a.drop_first();
        assert((a + b)[0] == a[0]);
        assert((a + b).drop_first() =~= rest + b);
        encode_utf8_first_scalar(a + b);
        lemma_scalar_width(a[0]);
        assert(pop_first_scalar(bytes) =~= encode_utf8(rest + b));
        lemma_prefix_is_boundary(rest, b);
    }
}

/// Splitting the encoding at the byte offset of a character index splits the
/// characters at that index.
pub proof fn lemma_split_at_offset(s: Seq<char>, k: int)
    requires
        0 <= k <= s.len(),
    ensures
        encode_utf8(s).take(byte_offset(s, k) as int) == encode_utf8(s.take(k)),
        encode_utf8(s).skip(byte_offset(s, k) as int) == encode_utf8(s.skip(k)),
        is_char_boundary(encode_utf8(s), byte_offset(s, k) as int),
{
    assert(s =~= s.take(k) + s.skip(k));
    lemma_encode_concat(s.take(k), s.skip(k));
    lemma_prefix_is_boundary(s.take(k), s.skip(k));
    assert(encode_utf8(s).take(byte_offset(s, k) as int) =~= encode_utf8(s.take(k)));
    assert(encode_utf8(s).skip(byte_offset(s, k) as int) =~= encode_utf8(s.skip(k)));
}

/// A single character is encoded as its scalar.
pub proof fn lemma_encode_single(c: char)
    ensures
        encode_utf8(seq![c]) == encode_scalar(c as u32),
{
    reveal_with_fuel(encode_utf8, 2);
    assert(seq![c][0] == c);
    assert(seq![c].drop_first() =~= Seq::<char>::empty());
    assert(encode_utf8(seq![c]) =~= encode_scalar(c as u32));
}

/// Moving one character forward moves the byte offset by that character's
/// width, and no byte offset lies past the end of the encoding.
pub proof fn lemma_byte_offset_step(s: Seq<char>, k: int)
    requires
        0 <= k < s.len(),
    ensures
        byte_offset(s, k + 1) == byte_offset(s, k) + encode_scalar(s[k] as u32).len(),
        byte_offset(s, k + 1) <= encode_utf8(s).len(),
{
    assert(s.take(k + 1) =~= s.take(k) + seq![s[k]]);
    lemma_encode_concat(s.take(k), seq![s[k]]);
    lemma_encode_single(s[k]);
    lemma_split_at_offset(s, k + 1);
}

/// Number of bytes in the UTF-8 encoding of `c`.
pub fn utf8_width(c: char) -> (r: usize)
    ensures
        r == encode_scalar(c as u32).len(),
{
    let v = c as u32;
    if v <= 0x7F {
        1
    } else if v <= 0x7FF {
        2
    } else if v <= 0xFFFF {
        proof {
            char_is_scalar(c);
        }
        3
    } else {
        4
    }
}

/// Relies on `String::insert`: `c` is encoded into the storage at byte
/// position `idx`, which must be a character boundary (it panics otherwise).
#[verifier::external_body]
fn string_insert(s: &mut String, idx: usize, c: char)
    requires
        is_char_boundary(encode_utf8(old(s)@), idx as int),
    ensures
        encode_utf8(final(s)@) == encode_utf8(old(s)@).take(idx as int) + encode_scalar(c as u32)
            + encode_utf8(old(s)@).skip(idx as int),
{
    s.insert(idx, c)
}

/// Relies on `String::push`: `c` is appended at the end.
#[verifier::external_body]
pub(crate) fn string_push(s: &mut String, c: char)
    ensures
        final(s)@ == old(s)@.push(c),
{
    s.push(c)
}

/// Inserts `c` into `s` so that it becomes the character at index `k`, given
/// the byte offset `idx` of that index.
pub fn insert_char_at(s: &mut String, k: usize, idx: usize, c: char)
    requires
        k <= old(s)@.len(),
        idx == byte_offset(old(s)@, k as int),
    ensures
        final(s)@ == old(s)@.insert(k as int, c),
{
    let ghost before = s@;
    proof {
        lemma_split_at_offset(before, k as int);
    }
    string_insert(s, idx, c);
    proof {
        let target = before.insert(k as int, c);
        assert(target =~= before.take(k as int) + seq![c] + before.skip(k as int));
        lemma_encode_concat(before.take(k as int), seq![c]);
        lemma_encode_concat(before.take(k as int) + seq![c], before.skip(k as int));
        lemma_encode_single(c);
        assert(encode_utf8(s@) == encode_utf8(target));
        assert(decode_utf8(encode_utf8(s@)) == s@);
        assert(decode_utf8(encode_utf8(target)) == target);
    }
}

} // verus!
