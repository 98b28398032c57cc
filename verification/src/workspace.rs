//! The workspace's state machine: the focus between the editor and the REPL,
//! the REPL's input line, command history and output log, the stack view, and
//! what each input event does. Drawing is the host's business: it reads the
//! state back and paints it.
use vstd::prelude::*;
use crate::editor::{
    bol_at, col_to_offset, format_spec, lemma_next_nl, lines_in, next_nl, push_span, push_str, Editor,
};
use crate::text::{chars_of, is_whitespace, is_ws, string_of};

verus! {

// Win32 virtual-key codes the shell reports.
pub const VK_BACK: u32 = 0x08;
pub const VK_TAB: u32 = 0x09;
pub const VK_RETURN: u32 = 0x0D;
pub const VK_END: u32 = 0x23;
pub const VK_HOME: u32 = 0x24;
pub const VK_LEFT: u32 = 0x25;
pub const VK_UP: u32 = 0x26;
pub const VK_RIGHT: u32 = 0x27;
pub const VK_DOWN: u32 = 0x28;
pub const VK_DELETE: u32 = 0x2E;
pub const MOD_SHIFT: u32 = 1;
pub const MOD_COMMAND: u32 = 8;

/// The most lines the REPL log keeps.
pub const LOG_CAP: usize = 2000;

#[derive(Clone, Copy, PartialEq, Eq, Debug, Structural)]
pub enum Focus {
    Editor,
    Repl,
}

/// What a log line shows: an echoed input, output, `ok`, an error, or a note.
#[derive(Clone, Copy, PartialEq, Eq, Debug, Structural)]
pub enum Kind {
    Input,
    Output,
    Okay,
    Failure,
    Note,
}

pub struct LogLine {
    pub text: String,
    pub kind: Kind,
}

/// What the host should do after `on_event`.
#[derive(Clone, Debug, PartialEq)]
pub enum Reaction {
    Nothing,
    /// REPL Enter — evaluate this line, then call `Workspace::record`.
    Submit(String),
    /// Editor ⌘-Enter — evaluate the whole editor buffer.
    EvalBuffer(String),
    /// ⌘-S — save the editor to its current path.
    Save,
    Close,
}

/// An input event, as the workspace reads it: a typed character, a key going
/// down (with its modifier bits), or the window closing.
#[derive(Clone, Copy, PartialEq, Eq, Debug, Structural)]
pub enum UiInput {
    Char { ch: char, modifiers: u32 },
    Key { virtual_key: u32, modifiers: u32 },
    Close,
}

/// What an event asks for.
#[derive(Clone, Copy, PartialEq, Eq, Debug, Structural)]
pub enum Action {
    Nothing,
    Close,
    ToggleFocus,
    // the REPL line
    Type(char),
    Submit,
    Erase,
    Older,
    Newer,
    // the editor
    Insert(char),
    EvalBuffer,
    Save,
    Format,
    Newline,
    Backspace,
    Delete,
    Left,
    Right,
    Up,
    Down,
    Home,
    End,
}

/// A control character (general category Cc), as `char::is_control` says.
pub open spec fn is_control(c: char) -> bool {
    (c as u32) <= 0x1f || (0x7f <= (c as u32) && (c as u32) <= 0x9f)
}

pub fn control_char(c: char) -> (r: bool)
    ensures
        r == is_control(c),
{
    let u = c as u32;
    u <= 0x1f || (0x7f <= u && u <= 0x9f)
}

/// A key in the REPL.
pub open spec fn repl_key(vk: u32) -> Action {
    if vk == VK_RETURN {
        Action::Submit
    } else if vk == VK_BACK {
        Action::Erase
    } else if vk == VK_UP {
        Action::Older
    } else if vk == VK_DOWN {
        Action::Newer
    } else {
        Action::Nothing
    }
}

/// A key in the editor. ⌘A/⌘C/⌘X/⌘V/⌘Z act on a selection, a clipboard and an
/// undo history, none of which this editor keeps: they do nothing.
pub open spec fn editor_key(vk: u32, mods: u32) -> Action {
    if mods & MOD_COMMAND != 0 {
        if vk == VK_RETURN {
            Action::EvalBuffer
        } else if vk == 0x53 {
            Action::Save
        } else if vk == 0x46 && mods & MOD_SHIFT != 0 {
            Action::Format
        } else {
            Action::Nothing
        }
    } else if vk == VK_RETURN {
        Action::Newline
    } else if vk == VK_BACK {
        Action::Backspace
    } else if vk == VK_DELETE {
        Action::Delete
    } else if vk == VK_LEFT {
        Action::Left
    } else if vk == VK_RIGHT {
        Action::Right
    } else if vk == VK_UP {
        Action::Up
    } else if vk == VK_DOWN {
        Action::Down
    } else if vk == VK_HOME {
        Action::Home
    } else if vk == VK_END {
        Action::End
    } else {
        Action::Nothing
    }
}

/// What event `ev` asks for with `focus` where it is: Tab (no modifier) swaps
/// the focus; everything else goes to the focused pane.
pub open spec fn route(focus: Focus, ev: UiInput) -> Action {
    match ev {
        UiInput::Close => Action::Close,
        UiInput::Key { virtual_key, modifiers } => if virtual_key == VK_TAB && modifiers == 0 {
            Action::ToggleFocus
        } else {
            match focus {
                Focus::Repl => repl_key(virtual_key),
                Focus::Editor => editor_key(virtual_key, modifiers),
            }
        },
        UiInput::Char { ch, modifiers } => match focus {
            Focus::Repl => if is_control(ch) {
                Action::Nothing
            } else {
                Action::Type(ch)
            },
            Focus::Editor => if modifiers & MOD_COMMAND == 0 && !is_control(ch) {
                Action::Insert(ch)
            } else {
                Action::Nothing
            },
        },
    }
}

pub fn route_event(focus: Focus, ev: UiInput) -> (a: Action)
    ensures
        a == route(focus, ev),
{
    match ev {
        UiInput::Close => Action::Close,
        UiInput::Key { virtual_key, modifiers } => {
            if virtual_key == VK_TAB && modifiers == 0 {
                return Action::ToggleFocus;
            }
            match focus {
                Focus::Repl => {
                    if virtual_key == VK_RETURN {
                        Action::Submit
                    } else if virtual_key == VK_BACK {
                        Action::Erase
                    } else if virtual_key == VK_UP {
                        Action::Older
                    } else if virtual_key == VK_DOWN {
                        Action::Newer
                    } else {
                        Action::Nothing
                    }
                },
                Focus::Editor => {
                    if modifiers & MOD_COMMAND != 0 {
                        if virtual_key == VK_RETURN {
                            Action::EvalBuffer
                        } else if virtual_key == 0x53 {
                            Action::Save
                        } else if virtual_key == 0x46 && modifiers & MOD_SHIFT != 0 {
                            Action::Format
                        } else {
                            Action::Nothing
                        }
                    } else if virtual_key == VK_RETURN {
                        Action::Newline
                    } else if virtual_key == VK_BACK {
                        Action::Backspace
                    } else if virtual_key == VK_DELETE {
                        Action::Delete
                    } else if virtual_key == VK_LEFT {
                        Action::Left
                    } else if virtual_key == VK_RIGHT {
                        Action::Right
                    } else if virtual_key == VK_UP {
                        Action::Up
                    } else if virtual_key == VK_DOWN {
                        Action::Down
                    } else if virtual_key == VK_HOME {
                        Action::Home
                    } else if virtual_key == VK_END {
                        Action::End
                    } else {
                        Action::Nothing
                    }
                },
            }
        },
        UiInput::Char { ch, modifiers } => match focus {
            Focus::Repl => if control_char(ch) {
                Action::Nothing
            } else {
                Action::Type(ch)
            },
            Focus::Editor => if modifiers & MOD_COMMAND == 0 && !control_char(ch) {
                Action::Insert(ch)
            } else {
                Action::Nothing
            },
        },
    }
}

/// Nothing but whitespace (what `trim().is_empty()` tests).
pub open spec fn blank(s: Seq<char>) -> bool {
    forall|i: int| 0 <= i < s.len() ==> is_ws(#[trigger] s[i])
}

fn is_blank(s: &Vec<char>) -> (r: bool)
    ensures
        r == blank(s@),
{
    let mut i: usize = 0;
    while i < s.len()
        invariant
            i <= s@.len(),
            forall|j: int| 0 <= j < i ==> is_ws(#[trigger] s@[j]),
        decreases s@.len() - i,
    {
        if !is_whitespace(s[i]) {
            return false;
        }
        i = i + 1;
    }
    true
}

// ── the editor's part ───────────────────────────────────────────────────────
/// The editor's text, view row, file and dirty flag are as they were.
pub open spec fn kept(e0: Editor, e1: Editor) -> bool {
    &&& e1.chars() == e0.chars()
    &&& e1.top_row() == e0.top_row()
    &&& e1.path_of() == e0.path_of()
    &&& e1.is_dirty() == e0.is_dirty()
}

/// `c` typed at the caret.
pub open spec fn typed(e0: Editor, e1: Editor, c: char) -> bool {
    if e0.chars().len() + 1 < usize::MAX {
        &&& e1.chars() == e0.chars().insert(e0.caret_at(), c)
        &&& e1.caret_at() == e0.caret_at() + 1
        &&& e1.goal_synced()
        &&& e1.top_row() == e0.top_row()
        &&& e1.path_of() == e0.path_of()
        &&& e1.is_dirty()
    } else {
        e1 == e0
    }
}

/// Where `end` puts the caret: the end of its line, before the newline.
pub open spec fn line_end(t: Seq<char>, k: int) -> int {
    let e = next_nl(t, bol_at(t, k));
    let end = if e < t.len() {
        e + 1
    } else {
        t.len() as int
    };
    if end > 0 && t[end - 1] == '\n' {
        end - 1
    } else {
        end
    }
}

/// The editor after action `a` (actions that are not the editor's leave it be).
pub open spec fn edited(a: Action, e0: Editor, e1: Editor) -> bool {
    match a {
        Action::Insert(c) => typed(e0, e1, c),
        Action::Newline => typed(e0, e1, '\n'),
        Action::Backspace => {
            &&& e0.caret_at() > 0 ==> {
                &&& e1.chars() == e0.chars().remove(e0.caret_at() - 1)
                &&& e1.caret_at() == e0.caret_at() - 1
                &&& e1.goal_synced()
                &&& e1.is_dirty()
            }
            &&& e0.caret_at() == 0 ==> {
                &&& kept(e0, e1)
                &&& e1.caret_at() == 0
                &&& e1.goal() == e0.goal()
            }
            &&& e1.top_row() == e0.top_row()
            &&& e1.path_of() == e0.path_of()
        },
        Action::Delete => {
            &&& e1.chars() == if e0.caret_at() < e0.chars().len() {
                e0.chars().remove(e0.caret_at())
            } else {
                e0.chars()
            }
            &&& e1.is_dirty() == (e0.is_dirty() || e0.caret_at() < e0.chars().len())
            &&& e1.caret_at() == e0.caret_at()
            &&& e1.goal() == e0.goal()
            &&& e1.top_row() == e0.top_row()
            &&& e1.path_of() == e0.path_of()
        },
        Action::Left => {
            &&& kept(e0, e1)
            &&& e1.caret_at() == if e0.caret_at() > 0 {
                e0.caret_at() - 1
            } else {
                0
            }
            &&& e1.goal_synced()
        },
        Action::Right => {
            &&& kept(e0, e1)
            &&& e1.caret_at() == if e0.caret_at() < e0.chars().len() {
                e0.caret_at() + 1
            } else {
                e0.caret_at()
            }
            &&& e1.goal_synced()
        },
        Action::Up => {
            &&& kept(e0, e1)
            &&& e1.caret_at() == if e0.cursor_of().0 > 0 {
                col_to_offset(e0.chars(), (e0.cursor_of().0 - 1) as nat, e0.goal() as nat)
            } else {
                e0.caret_at()
            }
            &&& e1.goal() == e0.goal()
        },
        Action::Down => {
            &&& kept(e0, e1)
            &&& e1.caret_at() == if e0.cursor_of().0 + 1 < lines_in(e0.chars()) {
                col_to_offset(e0.chars(), (e0.cursor_of().0 + 1) as nat, e0.goal() as nat)
            } else {
                e0.caret_at()
            }
            &&& e1.goal() == e0.goal()
        },
        Action::Home => {
            &&& kept(e0, e1)
            &&& e1.caret_at() == bol_at(e0.chars(), e0.caret_at())
            &&& e1.goal_synced()
        },
        Action::End => {
            &&& kept(e0, e1)
            &&& e1.caret_at() == line_end(e0.chars(), e0.caret_at())
            &&& e1.goal_synced()
        },
        Action::Format => if e0.chars().len() < i32::MAX && format_spec(e0.chars()).len() < usize::MAX {
            &&& e1.chars() == format_spec(e0.chars())
            &&& e1.caret_at() == if e0.caret_at() <= format_spec(e0.chars()).len() {
                e0.caret_at()
            } else {
                format_spec(e0.chars()).len() as int
            }
            &&& e1.is_dirty()
            &&& e1.goal() == e0.goal()
            &&& e1.top_row() == e0.top_row()
            &&& e1.path_of() == e0.path_of()
        } else {
            &&& kept(e0, e1)
            &&& e1.caret_at() == e0.caret_at()
            &&& e1.goal() == e0.goal()
        },
        _ => e1 == e0,
    }
}

// ── the REPL's part ─────────────────────────────────────────────────────────
/// A log line as text and kind.
pub open spec fn line_view(l: LogLine) -> (Seq<char>, Kind) {
    (l.text@, l.kind)
}

/// The history position and input line after recalling an older (or newer)
/// command: older stops at the first; newer past the last clears the line.
pub open spec fn recalled(cmds: Seq<Seq<char>>, pos: nat, input: Seq<char>, older: bool) -> (nat, Seq<char>) {
    if cmds.len() == 0 {
        (pos, input)
    } else if older {
        let p: nat = if pos == 0 {
            0
        } else {
            (pos - 1) as nat
        };
        (p, cmds[p as int])
    } else if pos + 1 >= cmds.len() {
        (cmds.len(), Seq::empty())
    } else {
        ((pos + 1) as nat, cmds[pos + 1int])
    }
}

pub struct Workspace {
    pub editor: Editor,
    pub focus: Focus,
    input: Vec<char>,
    log: Vec<LogLine>,
    cmds: Vec<String>,
    cmd_pos: usize,
    stack: Vec<i64>,
    compiling: bool,
}

impl Workspace {
    /// The editor pane.
    pub closed spec fn editor_of(&self) -> Editor {
        self.editor
    }

    /// Which pane has the focus.
    pub closed spec fn focus_of(&self) -> Focus {
        self.focus
    }

    /// The REPL's input line.
    pub closed spec fn input_of(&self) -> Seq<char> {
        self.input@
    }

    /// The output log, as text and kind per line.
    pub closed spec fn log_of(&self) -> Seq<(Seq<char>, Kind)> {
        self.log@.map_values(|l: LogLine| line_view(l))
    }

    /// The command history, oldest first.
    pub closed spec fn history_of(&self) -> Seq<Seq<char>> {
        self.cmds@.map_values(|c: String| c@)
    }

    /// Where history recall stands (one past the newest when not recalling).
    pub closed spec fn cmd_pos_of(&self) -> nat {
        self.cmd_pos as nat
    }

    /// The stack view, top first.
    pub closed spec fn stack_of(&self) -> Seq<i64> {
        self.stack@
    }

    /// Is a definition open (the prompt shows a continuation)?
    pub closed spec fn compiling_of(&self) -> bool {
        self.compiling
    }

    /// The editor is well formed, and recall stays within the history.
    pub closed spec fn wf(&self) -> bool {
        &&& self.editor.wf()
        &&& self.cmd_pos <= self.cmds@.len()
    }
}

/// The focus after action `a`.
pub open spec fn focus_after(a: Action, f: Focus) -> Focus {
    if a is ToggleFocus {
        match f {
            Focus::Editor => Focus::Repl,
            Focus::Repl => Focus::Editor,
        }
    } else {
        f
    }
}

/// The history, recall position and input line after action `a`.
pub open spec fn repl_after(a: Action, hist: Seq<Seq<char>>, pos: nat, input: Seq<char>) -> (
    Seq<Seq<char>>,
    nat,
    Seq<char>,
) {
    match a {
        Action::Type(c) => (hist, pos, input.push(c)),
        Action::Erase => (hist, pos, if input.len() > 0 {
            input.drop_last()
        } else {
            input
        }),
        Action::Submit => {
            let h = if blank(input) {
                hist
            } else {
                hist.push(input)
            };
            (h, h.len(), Seq::empty())
        },
        Action::Older => {
            let (p, i) = recalled(hist, pos, input, true);
            (hist, p, i)
        },
        Action::Newer => {
            let (p, i) = recalled(hist, pos, input, false);
            (hist, p, i)
        },
        _ => (hist, pos, input),
    }
}

/// The host's reaction to action `a`: the submitted line, the buffer to run,
/// a save, a close — or nothing.
pub open spec fn reacts(a: Action, input: Seq<char>, text: Seq<char>, r: Reaction) -> bool {
    match r {
        Reaction::Submit(s) => a is Submit && s@ == input,
        Reaction::EvalBuffer(s) => a is EvalBuffer && s@ == text,
        Reaction::Save => a is Save,
        Reaction::Close => a is Close,
        Reaction::Nothing => !(a is Submit || a is EvalBuffer || a is Save || a is Close),
    }
}

/// The note the log opens with.
pub open spec fn welcome() -> Seq<char> {
    "MF66 Workspace — Tab switches editor⇄REPL.  ⌘⏎ runs the buffer."@
}

/// The editor's first contents.
pub open spec fn sample() -> Seq<char> {
    "\\ Edit Forth here, then ⌘⏎ to run.\n: sq dup * ;\n: quad sq sq ;\n"@
}

impl Workspace {
    pub fn new() -> (w: Workspace)
        ensures
            w.wf(),
            w.focus_of() == Focus::Repl,
            w.editor_of().chars() == sample(),
            w.editor_of().caret_at() == 0,
            !w.editor_of().is_dirty(),
            w.editor_of().path_of() is None,
            w.input_of() == Seq::<char>::empty(),
            w.log_of() == seq![(welcome(), Kind::Note)],
            w.history_of() == Seq::<Seq<char>>::empty(),
            w.cmd_pos_of() == 0,
            w.stack_of() == Seq::<i64>::empty(),
            !w.compiling_of(),
    {
        let mut w = Workspace {
            editor: Editor::new(),
            focus: Focus::Repl,
            input: Vec::new(),
            log: Vec::new(),
            cmds: Vec::new(),
            cmd_pos: 0,
            stack: Vec::new(),
            compiling: false,
        };
        w.note("MF66 Workspace — Tab switches editor⇄REPL.  ⌘⏎ runs the buffer.");
        proof {
            reveal_strlit("\\ Edit Forth here, then ⌘⏎ to run.\n: sq dup * ;\n: quad sq sq ;\n");
        }
        w.editor.set_text("\\ Edit Forth here, then ⌘⏎ to run.\n: sq dup * ;\n: quad sq sq ;\n");
        assert(w.log_of() =~= seq![(welcome(), Kind::Note)]);
        assert(w.history_of() =~= Seq::<Seq<char>>::empty());
        w
    }

    fn note(&mut self, s: &str)
        ensures
            final(self).log@ == old(self).log@.push(LogLine { text: final(self).log@.last().text, kind: Kind::Note }),
            final(self).log@.last().text@ == s@,
            final(self).editor_of() == old(self).editor_of(),
            final(self).focus_of() == old(self).focus_of(),
            final(self).input@ == old(self).input@,
            final(self).cmds@ == old(self).cmds@,
            final(self).cmd_pos == old(self).cmd_pos,
            final(self).stack@ == old(self).stack@,
            final(self).compiling == old(self).compiling,
    {
        let cs = chars_of(s);
        let text = string_of(cs.as_slice(), 0, cs.len());
        assert(cs@.subrange(0, cs@.len() as int) =~= s@);
        self.log.push(LogLine { text, kind: Kind::Note });
    }

    pub fn input_text(&self) -> (s: String)
        ensures
            s@ == self.input_of(),
    {
        let s = string_of(self.input.as_slice(), 0, self.input.len());
        assert(self.input@.subrange(0, self.input@.len() as int) =~= self.input@);
        s
    }

    /// The stack view, top first.
    pub fn stack(&self) -> (v: &Vec<i64>)
        ensures
            v@ == self.stack_of(),
    {
        &self.stack
    }

    /// Is a definition open?
    pub fn compiling(&self) -> (b: bool)
        ensures
            b == self.compiling_of(),
    {
        self.compiling
    }

    /// The output log, oldest line first.
    pub fn log(&self) -> (l: &Vec<LogLine>)
        ensures
            l@.map_values(|x: LogLine| line_view(x)) == self.log_of(),
    {
        &self.log
    }

    /// Recall an older (or newer) command into the input line.
    fn recall(&mut self, older: bool)
        requires
            old(self).wf(),
        ensures
            final(self).wf(),
            (final(self).cmd_pos_of(), final(self).input_of()) == recalled(
                old(self).history_of(),
                old(self).cmd_pos_of(),
                old(self).input_of(),
                older,
            ),
            final(self).cmds@ == old(self).cmds@,
            final(self).log@ == old(self).log@,
            final(self).stack@ == old(self).stack@,
            final(self).compiling == old(self).compiling,
            final(self).editor_of() == old(self).editor_of(),
            final(self).focus_of() == old(self).focus_of(),
    {
        let n = self.cmds.len();
        if n == 0 {
            return ;
        }
        if older {
            let p = if self.cmd_pos == 0 {
                0
            } else {
                self.cmd_pos - 1
            };
            self.cmd_pos = p;
            self.input = chars_of(self.cmds[p].as_str());
        } else if self.cmd_pos >= n - 1 {
            self.cmd_pos = n;
            self.input = Vec::new();
        } else {
            self.cmd_pos = self.cmd_pos + 1;
            self.input = chars_of(self.cmds[self.cmd_pos].as_str());
        }
    }

    /// Handle one input event; what the host should do about it.
    pub fn on_event(&mut self, ev: UiInput) -> (r: Reaction)
        requires
            old(self).wf(),
        ensures
            final(self).wf(),
            final(self).focus_of() == focus_after(route(old(self).focus_of(), ev), old(self).focus_of()),
            edited(route(old(self).focus_of(), ev), old(self).editor_of(), final(self).editor_of()),
            (final(self).history_of(), final(self).cmd_pos_of(), final(self).input_of()) == repl_after(
                route(old(self).focus_of(), ev),
                old(self).history_of(),
                old(self).cmd_pos_of(),
                old(self).input_of(),
            ),
            final(self).log_of() == old(self).log_of(),
            final(self).stack_of() == old(self).stack_of(),
            final(self).compiling_of() == old(self).compiling_of(),
            reacts(route(old(self).focus_of(), ev), old(self).input_of(), old(self).editor_of().chars(), r),
    {
        let a = route_event(self.focus, ev);
        match a {
            Action::Close => Reaction::Close,
            Action::ToggleFocus => {
                self.focus = match self.focus {
                    Focus::Editor => Focus::Repl,
                    Focus::Repl => Focus::Editor,
                };
                Reaction::Nothing
            },
            Action::Type(c) => {
                self.input.push(c);
                Reaction::Nothing
            },
            Action::Erase => {
                if self.input.len() > 0 {
                    self.input.pop();
                }
                Reaction::Nothing
            },
            Action::Submit => {
                let mut taken: Vec<char> = Vec::new();
                std::mem::swap(&mut self.input, &mut taken);
                let line = string_of(taken.as_slice(), 0, taken.len());
                assert(taken@.subrange(0, taken@.len() as int) =~= taken@);
                let ghost h0 = self.cmds@;
                if !is_blank(&taken) {
                    self.cmds.push(line.clone());
                    assert(self.cmds@.map_values(|c: String| c@) =~= h0.map_values(|c: String| c@).push(
                        taken@,
                    ));
                }
                self.cmd_pos = self.cmds.len();
                Reaction::Submit(line)
            },
            Action::Older => {
                self.recall(true);
                Reaction::Nothing
            },
            Action::Newer => {
                self.recall(false);
                Reaction::Nothing
            },
            Action::Insert(c) => {
                if self.editor.char_count() < usize::MAX - 1 {
                    self.editor.insert_char(c);
                }
                Reaction::Nothing
            },
            Action::Newline => {
                if self.editor.char_count() < usize::MAX - 1 {
                    self.editor.newline();
                }
                Reaction::Nothing
            },
            Action::EvalBuffer => Reaction::EvalBuffer(self.editor.text()),
            Action::Save => Reaction::Save,
            Action::Format => {
                if self.editor.char_count() < 2147483647 {
                    self.editor.format();
                }
                Reaction::Nothing
            },
            Action::Backspace => {
                self.editor.backspace();
                Reaction::Nothing
            },
            Action::Delete => {
                self.editor.delete_forward();
                Reaction::Nothing
            },
            Action::Left => {
                self.editor.move_left();
                Reaction::Nothing
            },
            Action::Right => {
                self.editor.move_right();
                Reaction::Nothing
            },
            Action::Up => {
                self.editor.move_up();
                Reaction::Nothing
            },
            Action::Down => {
                self.editor.move_down();
                Reaction::Nothing
            },
            Action::Home => {
                self.editor.home();
                Reaction::Nothing
            },
            Action::End => {
                self.editor.end();
                Reaction::Nothing
            },
            Action::Nothing => Reaction::Nothing,
        }
    }
}

// ── the log ─────────────────────────────────────────────────────────────────
/// `s[i..]` cut at each newline (as `str::split('\n')` cuts: `n` newlines give
/// `n + 1` pieces).
pub open spec fn pieces_from(s: Seq<char>, i: int) -> Seq<Seq<char>>
    decreases s.len() - i,
    when 0 <= i <= s.len()
{
    let e = next_nl(s, i);
    proof {
        lemma_next_nl(s, i);
    }
    if e >= s.len() {
        seq![s.subrange(i, s.len() as int)]
    } else {
        seq![s.subrange(i, e)] + pieces_from(s, e + 1)
    }
}

/// The lines of `s`.
pub open spec fn split_lines(s: Seq<char>) -> Seq<Seq<char>> {
    pieces_from(s, 0)
}

/// The REPL prompt: a continuation mark while a definition is open.
pub open spec fn prompt(compiling: bool) -> Seq<char> {
    if compiling {
        "  … "@
    } else {
        "ok> "@
    }
}

/// An evaluated line as the log echoes it: its first line after the prompt,
/// the rest after a continuation mark.
pub open spec fn echo(line: Seq<char>, compiling: bool) -> Seq<(Seq<char>, Kind)> {
    let ps = split_lines(line);
    Seq::new(
        ps.len(),
        |i: int|
            (
                (if i == 0 {
                    prompt(compiling)
                } else {
                    "  … "@
                }) + ps[i],
                Kind::Input,
            ),
    )
}

/// The non-empty lines of an output, as output lines.
pub open spec fn shown(ps: Seq<Seq<char>>) -> Seq<(Seq<char>, Kind)>
    decreases ps.len(),
{
    if ps.len() == 0 {
        seq![]
    } else {
        shown(ps.drop_last()) + if ps.last().len() > 0 {
            seq![(ps.last(), Kind::Output)]
        } else {
            seq![]
        }
    }
}

/// The lines an evaluation's result adds: its output and `ok` (none while a
/// definition stays open), or the error.
pub open spec fn outcome(result: Result<String, String>, compiling: bool) -> Seq<(Seq<char>, Kind)> {
    match result {
        Ok(out) => shown(split_lines(out@)) + if compiling {
            seq![]
        } else {
            seq![("ok"@, Kind::Okay)]
        },
        Err(e) => seq![("✗ "@ + e@, Kind::Failure)],
    }
}

/// The log keeps its newest `LOG_CAP` lines.
pub open spec fn capped(l: Seq<(Seq<char>, Kind)>) -> Seq<(Seq<char>, Kind)> {
    if l.len() > LOG_CAP {
        l.subrange(l.len() - LOG_CAP, l.len() as int)
    } else {
        l
    }
}

/// The texts of the spans `sp` of `cs`.
pub open spec fn spans_view(cs: Seq<char>, sp: Seq<(usize, usize)>) -> Seq<Seq<char>> {
    sp.map_values(|p: (usize, usize)| cs.subrange(p.0 as int, p.1 as int))
}

fn nl_at(cs: &Vec<char>, i: usize) -> (e: usize)
    requires
        i <= cs@.len(),
    ensures
        e as int == next_nl(cs@, i as int),
        i <= e <= cs@.len(),
{
    let mut e = i;
    while e < cs.len() && cs[e] != '\n'
        invariant
            i <= e <= cs@.len(),
            next_nl(cs@, i as int) == next_nl(cs@, e as int),
        decreases cs@.len() - e,
    {
        e = e + 1;
    }
    e
}

/// Where the lines of `cs` lie.
fn line_spans(cs: &Vec<char>) -> (sp: Vec<(usize, usize)>)
    ensures
        spans_view(cs@, sp@) == split_lines(cs@),
        forall|k: int| 0 <= k < sp@.len() ==> (#[trigger] sp@[k]).0 <= sp@[k].1 <= cs@.len(),
{
    let mut sp: Vec<(usize, usize)> = Vec::new();
    let mut i: usize = 0;
    let mut done = false;
    while !done
        invariant
            i <= cs@.len(),
            forall|k: int| 0 <= k < sp@.len() ==> (#[trigger] sp@[k]).0 <= sp@[k].1 <= cs@.len(),
            done ==> spans_view(cs@, sp@) == split_lines(cs@),
            !done ==> spans_view(cs@, sp@) + pieces_from(cs@, i as int) == split_lines(cs@),
        decreases 2 * (cs@.len() - i) + if done {
            0int
        } else {
            1int
        },
    {
        let e = nl_at(cs, i);
        proof {
            lemma_next_nl(cs@, i as int);
        }
        let ghost before = sp@;
        sp.push((i, e));
        assert(spans_view(cs@, sp@) =~= spans_view(cs@, before).push(cs@.subrange(i as int, e as int)));
        if e >= cs.len() {
            assert(spans_view(cs@, sp@) =~= spans_view(cs@, before) + pieces_from(cs@, i as int));
            done = true;
        } else {
            assert(spans_view(cs@, sp@) + pieces_from(cs@, e as int + 1) =~= spans_view(cs@, before)
                + pieces_from(cs@, i as int));
            i = e + 1;
        }
    }
    sp
}

impl Workspace {
    /// Append a log line.
    fn push_line(&mut self, text: &Vec<char>, kind: Kind)
        ensures
            final(self).log_of() == old(self).log_of().push((text@, kind)),
            final(self).editor == old(self).editor,
            final(self).focus == old(self).focus,
            final(self).input@ == old(self).input@,
            final(self).cmds@ == old(self).cmds@,
            final(self).cmd_pos == old(self).cmd_pos,
            final(self).stack@ == old(self).stack@,
            final(self).compiling == old(self).compiling,
    {
        let t = string_of(text.as_slice(), 0, text.len());
        assert(text@.subrange(0, text@.len() as int) =~= text@);
        let ghost l0 = self.log@;
        self.log.push(LogLine { text: t, kind });
        assert(self.log@.map_values(|l: LogLine| line_view(l)) =~= l0.map_values(|l: LogLine| line_view(l)).push(
            (text@, kind),
        ));
    }

    /// Record an evaluation (a REPL line or the editor buffer) into the output
    /// log and the stack view.
    #[verifier::spinoff_prover]
    pub fn record(&mut self, line: String, result: Result<String, String>, stack: Vec<i64>, compiling: bool)
        requires
            old(self).wf(),
        ensures
            final(self).wf(),
            final(self).log_of() == capped(
                old(self).log_of() + echo(line@, old(self).compiling_of()) + outcome(result, compiling),
            ),
            final(self).stack_of() == stack@,
            final(self).compiling_of() == compiling,
            final(self).editor_of() == old(self).editor_of(),
            final(self).focus_of() == old(self).focus_of(),
            final(self).input_of() == old(self).input_of(),
            final(self).history_of() == old(self).history_of(),
            final(self).cmd_pos_of() == old(self).cmd_pos_of(),
    {
        let ghost base = self.log_of();
        let lc = chars_of(line.as_str());
        let spans = line_spans(&lc);
        let ghost ps = split_lines(lc@);
        let ghost ec = echo(line@, self.compiling);
        let mut k: usize = 0;
        while k < spans.len()
            invariant
                self.wf(),
                lc@ == line@,
                ps == split_lines(lc@),
                spans_view(lc@, spans@) == ps,
                forall|j: int| 0 <= j < spans@.len() ==> (#[trigger] spans@[j]).0 <= spans@[j].1 <= lc@.len(),
                k <= spans@.len(),
                ec == echo(line@, old(self).compiling_of()),
                self.log_of() == base + ec.take(k as int),
                base == old(self).log_of(),
                self.editor == old(self).editor,
                self.focus == old(self).focus,
                self.input@ == old(self).input@,
                self.cmds@ == old(self).cmds@,
                self.cmd_pos == old(self).cmd_pos,
                self.stack@ == old(self).stack@,
                self.compiling == old(self).compiling,
            decreases spans@.len() - k,
        {
            let mut t: Vec<char> = Vec::new();
            if k == 0 && !self.compiling {
                push_str(&mut t, "ok> ");
            } else {
                push_str(&mut t, "  … ");
            }
            let (a, b) = spans[k];
            push_span(&mut t, lc.as_slice(), a, b);
            assert(ps[k as int] == lc@.subrange(a as int, b as int));
            assert(t@ == ec[k as int].0);
            self.push_line(&t, Kind::Input);
            assert(ec.take(k as int + 1) =~= ec.take(k as int).push(ec[k as int]));
            k = k + 1;
        }
        assert(ec.take(k as int) =~= ec);
        let ghost mid = self.log_of();
        match result {
            Ok(out) => {
                let oc = chars_of(out.as_str());
                let osp = line_spans(&oc);
                let ghost ops = split_lines(oc@);
                let mut j: usize = 0;
                while j < osp.len()
                    invariant
                        self.wf(),
                        ops == split_lines(oc@),
                        spans_view(oc@, osp@) == ops,
                        forall|q: int| 0 <= q < osp@.len() ==> (#[trigger] osp@[q]).0 <= osp@[q].1 <= oc@.len(),
                        j <= osp@.len(),
                        self.log_of() == mid + shown(ops.take(j as int)),
                        self.editor == old(self).editor,
                        self.focus == old(self).focus,
                        self.input@ == old(self).input@,
                        self.cmds@ == old(self).cmds@,
                        self.cmd_pos == old(self).cmd_pos,
                        self.stack@ == old(self).stack@,
                        self.compiling == old(self).compiling,
                    decreases osp@.len() - j,
                {
                    let (a, b) = osp[j];
                    proof {
                        assert(ops.take(j as int + 1).drop_last() =~= ops.take(j as int));
                        assert(ops[j as int] == oc@.subrange(a as int, b as int));
                    }
                    if a < b {
                        let mut t: Vec<char> = Vec::new();
                        push_span(&mut t, oc.as_slice(), a, b);
                        self.push_line(&t, Kind::Output);
                    }
                    j = j + 1;
                }
                assert(ops.take(j as int) =~= ops);
                assert(self.log_of() == mid + shown(split_lines(out@)));
                if !compiling {
                    let mut t: Vec<char> = Vec::new();
                    push_str(&mut t, "ok");
                    self.push_line(&t, Kind::Okay);
                }
                assert(self.log_of() =~= mid + outcome(Ok::<String, String>(out), compiling));
            },
            Err(e) => {
                let mut t: Vec<char> = Vec::new();
                push_str(&mut t, "✗ ");
                let ec2 = chars_of(e.as_str());
                push_span(&mut t, ec2.as_slice(), 0, ec2.len());
                assert(ec2@.subrange(0, ec2@.len() as int) =~= e@);
                self.push_line(&t, Kind::Failure);
                assert(self.log_of() =~= mid + outcome(Err::<String, String>(e), compiling));
            },
        }
        assert(self.log_of() =~= old(self).log_of() + echo(line@, old(self).compiling_of()) + outcome(
            result,
            compiling,
        ));
        self.stack = stack;
        self.compiling = compiling;
        let ghost whole = self.log@;
        if self.log.len() > LOG_CAP {
            let n = self.log.len();
            let tail = self.log.split_off(n - LOG_CAP);
            self.log = tail;
            assert(self.log@.map_values(|l: LogLine| line_view(l)) =~= whole.map_values(
                |l: LogLine| line_view(l),
            ).subrange(n - LOG_CAP, n as int));
        }
        assert(self.log_of() == capped(
            old(self).log_of() + echo(line@, old(self).compiling_of()) + outcome(result, compiling),
        ));
    }

    /// A plain-text snapshot of the visible state — for agent observation.
    pub fn screen_text(&self) -> (s: String)
        requires
            self.wf(),
        ensures
            s@ == screen(self.editor_of().chars(), self.log_of(), self.compiling_of(), self.input_of()),
    {
        let mut out: Vec<char> = Vec::new();
        push_str(&mut out, "── editor ──\n");
        let et = self.editor.text();
        let ec = chars_of(et.as_str());
        push_span(&mut out, ec.as_slice(), 0, ec.len());
        assert(ec@.subrange(0, ec@.len() as int) =~= ec@);
        push_str(&mut out, "\n── repl ──\n");
        let ghost head = out@;
        let mut k: usize = 0;
        while k < self.log.len()
            invariant
                k <= self.log@.len(),
                out@ == head + log_text(self.log_of().take(k as int)),
            decreases self.log@.len() - k,
        {
            let lt = chars_of(self.log[k].text.as_str());
            push_span(&mut out, lt.as_slice(), 0, lt.len());
            assert(lt@.subrange(0, lt@.len() as int) =~= lt@);
            out.push('\n');
            proof {
                assert(self.log_of().take(k as int + 1).drop_last() =~= self.log_of().take(k as int));
                assert(self.log_of()[k as int].0 == lt@);
            }
            k = k + 1;
        }
        assert(self.log_of().take(k as int) =~= self.log_of());
        if self.compiling {
            push_str(&mut out, "  … ");
        } else {
            push_str(&mut out, "ok> ");
        }
        push_span(&mut out, self.input.as_slice(), 0, self.input.len());
        assert(self.input@.subrange(0, self.input@.len() as int) =~= self.input@);
        string_of(out.as_slice(), 0, out.len())
    }
}

/// The log's lines, each ending in a newline.
pub open spec fn log_text(l: Seq<(Seq<char>, Kind)>) -> Seq<char>
    decreases l.len(),
{
    if l.len() == 0 {
        seq![]
    } else {
        log_text(l.drop_last()) + l.last().0 + seq!['\n']
    }
}

/// The text snapshot: the editor's text, the log, and the prompt with the input.
pub open spec fn screen(text: Seq<char>, log: Seq<(Seq<char>, Kind)>, compiling: bool, input: Seq<char>) -> Seq<char> {
    "── editor ──\n"@ + text + "\n── repl ──\n"@ + log_text(log) + prompt(compiling) + input
}

} // verus!
