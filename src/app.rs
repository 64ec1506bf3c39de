//! The modal input state machine that drives the editor.
use vstd::prelude::*;
use crate::editor::{Editor, EditorView};

verus! {

/// How key events are read: as commands, or as text.
#[derive(Debug, Clone, Copy, PartialEq, Eq, Structural)]
pub enum Mode {
    Normal,
    Insert,
}

impl Default for Mode {
    fn default() -> (r: Self)
        ensures
            r == Mode::Normal,
    {
        Mode::Normal
    }
}

impl Mode {
    /// The name shown in the banner.
    pub fn label(&self) -> (r: &'static str)
        ensures
            *self == Mode::Normal ==> r@ == "NORMAL"@,
            *self == Mode::Insert ==> r@ == "INSERT"@,
    {
        match self {
            Mode::Normal => "NORMAL",
            Mode::Insert => "INSERT",
        }
    }
}

/// The key of a key event.
#[derive(Debug, Clone, Copy, PartialEq, Eq, Structural)]
pub enum KeyCode {
    Char(char),
    Backspace,
    Esc,
    /// Any other named key.
    Other,
}

/// Whether a key went down, was held, or went up.
#[derive(Debug, Clone, Copy, PartialEq, Eq, Structural)]
pub enum KeyEventKind {
    Press,
    Repeat,
    Release,
}

#[derive(Debug, Clone, Copy, PartialEq, Eq, Structural)]
pub struct KeyEvent {
    pub code: KeyCode,
    pub kind: KeyEventKind,
}

/// What an [`App`] holds.
pub ghost struct AppView {
    pub editor: EditorView,
    pub exit: bool,
    pub mode: Mode,
}

impl AppView {
    pub open spec fn wf(self) -> bool {
        self.editor.wf()
    }

    /// The state after one key event.
    pub open spec fn step(self, e: KeyEvent) -> AppView {
        match self.mode {
            Mode::Normal => match e.code {
                KeyCode::Char(c) => if c == 'q' {
                    AppView { exit: true, ..self }
                } else if c == 'i' {
                    AppView { mode: Mode::Insert, ..self }
                } else {
                    self
                },
                _ => self,
            },
            Mode::Insert => if e.kind == KeyEventKind::Press {
                match e.code {
                    KeyCode::Esc => AppView { mode: Mode::Normal, ..self },
                    KeyCode::Char(c) => AppView { editor: self.editor.inserted(c), ..self },
                    KeyCode::Backspace => AppView { editor: self.editor.deleted(), ..self },
                    KeyCode::Other => self,
                }
            } else {
                self
            },
        }
    }

    /// The state after feeding `events` in order, up to and including the
    /// one that asks to exit.
    pub open spec fn run(self, events: Seq<KeyEvent>) -> AppView
        decreases events.len(),
    {
        if self.exit || events.len() == 0 {
            self
        } else {
            self.step(events[0]).run(events.drop_first())
        }
    }
}

/// In `Normal` mode a character or backspace key never changes the buffer.
/// In `Insert` mode a pressed character is inserted and a pressed backspace
/// deletes; a key that is held or released changes nothing.
pub proof fn lemma_mode_gating(a: AppView, e: KeyEvent)
    requires
        a.wf(),
        e.code is Char || e.code is Backspace,
    ensures
        a.mode == Mode::Normal ==> a.step(e).editor == a.editor,
        a.mode == Mode::Insert && e.kind != KeyEventKind::Press ==> a.step(e) == a,
        a.mode == Mode::Insert && e.kind == KeyEventKind::Press && e.code is Char ==> {
            &&& a.step(e).editor == a.editor.inserted(e.code->Char_0)
            &&& a.step(e).editor.content.len() == a.editor.content.len() + 1
        },
        a.mode == Mode::Insert && e.kind == KeyEventKind::Press && e.code is Backspace ==> {
            &&& a.step(e).editor == a.editor.deleted()
            &&& a.editor.cursor > 0 ==> a.step(e).editor.content.len() + 1
                == a.editor.content.len()
        },
{
}

/// Once exit has been asked for, no further event is handled; in `Normal`
/// mode the key `q` asks for it.
pub proof fn lemma_exit_stops_run(a: AppView, events: Seq<KeyEvent>)
    ensures
        a.exit ==> a.run(events) == a,
        a.mode == Mode::Normal ==> a.step(
            KeyEvent { code: KeyCode::Char('q'), kind: KeyEventKind::Press },
        ).exit,
{
}

/// The application state: the buffer, the mode, and whether to stop.
pub struct App {
    editor: Editor,
    exit: bool,
    mode: Mode,
}

impl View for App {
    type V = AppView;

    closed spec fn view(&self) -> AppView {
        AppView { editor: self.editor@, exit: self.exit, mode: self.mode }
    }
}

impl Default for App {
    fn default() -> (r: Self)
        ensures
            r@ == (AppView {
                editor: EditorView { content: Seq::empty(), cursor: 0 },
                exit: false,
                mode: Mode::Normal,
            }),
    {
        App::new()
    }
}

impl App {
    /// An empty buffer in `Normal` mode.
    pub fn new() -> (r: Self)
        ensures
            r@ == (AppView {
                editor: EditorView { content: Seq::empty(), cursor: 0 },
                exit: false,
                mode: Mode::Normal,
            }),
    {
        App { editor: Editor::new(), exit: false, mode: Mode::Normal }
    }

    pub fn editor(&self) -> (r: &Editor)
        ensures
            r@ == self@.editor,
    {
        &self.editor
    }

    pub fn mode(&self) -> (r: Mode)
        ensures
            r == self@.mode,
    {
        self.mode
    }

    /// Whether exit was asked for.
    pub fn exit_requested(&self) -> (r: bool)
        ensures
            r == self@.exit,
    {
        self.exit
    }

    fn exit(&mut self)
        ensures
            final(self)@ == (AppView { exit: true, ..old(self)@ }),
    {
        self.exit = true;
    }

    fn handle_input(&mut self, c: char)
        requires
            old(self)@.wf(),
        ensures
            final(self)@ == (AppView { editor: old(self)@.editor.inserted(c), ..old(self)@ }),
    {
        self.editor.compute(c);
    }

    fn handle_delete(&mut self)
        requires
            old(self)@.wf(),
        ensures
            final(self)@ == (AppView { editor: old(self)@.editor.deleted(), ..old(self)@ }),
    {
        self.editor.delete();
    }

    /// Forwards a text key to the buffer: a character is inserted, backspace
    /// deletes; other keys are ignored.
    fn handle_key_event(&mut self, key_event: KeyEvent)
        requires
            old(self)@.wf(),
        ensures
            final(self)@ == (match key_event.code {
                KeyCode::Char(c) => AppView { editor: old(self)@.editor.inserted(c), ..old(self)@ },
                KeyCode::Backspace => AppView { editor: old(self)@.editor.deleted(), ..old(self)@ },
                _ => old(self)@,
            }),
    {
        match key_event.code {
            KeyCode::Char(c) => {
                self.handle_input(c);
            },
            KeyCode::Backspace => {
                self.handle_delete();
            },
            _ => {},
        }
    }

    /// Interprets one key event in the current mode.
    pub fn handle_event(&mut self, key: KeyEvent)
        requires
            old(self)@.wf(),
        ensures
            final(self)@ == old(self)@.step(key),
            final(self)@.wf(),
    {
        match self.mode {
            Mode::Normal => match key.code {
                KeyCode::Char(c) => {
                    if c == 'q' {
                        self.exit();
                    } else if c == 'i' {
                        self.mode = Mode::Insert;
                    }
                },
                _ => {},
            },
            Mode::Insert => {
                if key.kind == KeyEventKind::Press {
                    match key.code {
                        KeyCode::Esc => {
                            self.mode = Mode::Normal;
                        },
                        _ => self.handle_key_event(key),
                    }
                }
            },
        }
    }

    /// Handles `events` in order until exit is asked for or they run out.
    pub fn run(&mut self, events: &Vec<KeyEvent>)
        requires
            old(self)@.wf(),
        ensures
            final(self)@ == old(self)@.run(events@),
            final(self)@.wf(),
    {
        let ghost start = self@;
        let mut i: usize = 0;
        assert(events@.skip(0) =~= events@);
        while !self.exit && i < events.len()
            invariant
                self@.wf(),
                i <= events.len(),
                self@.run(events@.skip(i as int)) == start.run(events@),
            decreases events.len() - i,
        {
            let key = events[i];
            proof {
                assert(events@.skip(i as int)[0] == key);
                assert(events@.skip(i as int).drop_first() =~= events@.skip(i + 1));
            }
            self.handle_event(key);
            i = i + 1;
        }
        proof {
            if !self.exit {
                assert(events@.skip(i as int) =~= Seq::<KeyEvent>::empty());
            }
        }
    }
}

} // verus!
