//! Reading a line, from a terminal key by key or from a stream of bytes.
use vstd::prelude::*;
use vstd::string::*;
use vstd::utf8::*;

use crate::edit_line::{redrawn, EditLine, EditView, MAX_LINE};
use crate::error::Error;
use crate::history::{CommandHistory, HistoryView};
use crate::secret::SecretBytes;
use crate::text::utf8_text;

verus! {

// ---------------------------------------------------------------------------------------------
// Escape sequences
// ---------------------------------------------------------------------------------------------
/// The longest escape sequence that is read.
pub const MAX_SEQUENCE: usize = 16;

/// An escape sequence that is being read.
pub struct EscapeView {
    pub introduced: bool,
    pub sequence: Seq<u8>,
}

/// The key of a sequence: an arrow, or `X` for Delete.
pub open spec fn key_of(sequence: Seq<u8>) -> Option<u8> {
    if sequence.len() == 1 && 0x41 <= sequence[0] <= 0x44 {
        Some(sequence[0])
    } else if sequence == seq![0x33u8, 0x7eu8] {
        Some(0x58u8)
    } else {
        None
    }
}

impl EscapeView {
    /// Nothing but the escape was read.
    pub open spec fn start() -> EscapeView {
        EscapeView { introduced: false, sequence: Seq::empty() }
    }

    /// After a byte, or where none came: the sequence so far, and the key where it is over.
    pub open spec fn after(self, byte: Option<u8>) -> (EscapeView, Option<Option<u8>>) {
        if !self.introduced {
            if byte == Some(0x5bu8) || byte == Some(0x4fu8) {
                (EscapeView { introduced: true, sequence: Seq::empty() }, None)
            } else {
                (self, Some(None))
            }
        } else {
            match byte {
                None => (self, Some(None)),
                Some(b) => {
                    let sequence = self.sequence.push(b);
                    let longer = EscapeView { introduced: true, sequence };
                    if 0x40 <= b <= 0x7e {
                        (longer, Some(key_of(sequence)))
                    } else if sequence.len() >= MAX_SEQUENCE {
                        (longer, Some(None))
                    } else {
                        (longer, None)
                    }
                },
            }
        }
    }

    /// The key in some bytes behind an escape, and how many of them belong to the sequence.
    pub open spec fn run(self, bytes: Seq<u8>) -> (Option<u8>, nat)
        decreases bytes.len(),
    {
        if bytes.len() == 0 {
            (self.after(None).1->Some_0, 0)
        } else {
            match self.after(Some(bytes[0])) {
                (_, Some(key)) => (key, 1),
                (next, None) => {
                    let (key, n) = next.run(bytes.skip(1));
                    (key, n + 1)
                },
            }
        }
    }
}

/// An escape sequence that is being read.
pub struct EscapeDecoder {
    introduced: bool,
    sequence: Vec<u8>,
}

impl View for EscapeDecoder {
    type V = EscapeView;

    closed spec fn view(&self) -> EscapeView {
        EscapeView { introduced: self.introduced, sequence: self.sequence@ }
    }
}

impl EscapeDecoder {
    /// Nothing but the escape was read.
    pub fn new() -> (decoder: Self)
        ensures
            decoder@ == EscapeView::start(),
    {
        let decoder = EscapeDecoder { introduced: false, sequence: Vec::new() };
        assert(decoder@.sequence =~= Seq::empty());
        decoder
    }

    /// Takes a byte, or that none came, and gives the key where the sequence is over.
    pub fn feed(&mut self, byte: Option<u8>) -> (key: Option<Option<u8>>)
        ensures
            (final(self)@, key) == old(self)@.after(byte),
    {
        if !self.introduced {
            return match byte {
                Some(b) => {
                    if b == 0x5b || b == 0x4f {
                        self.introduced = true;
                        self.sequence = Vec::new();
                        assert(self@.sequence =~= Seq::empty());
                        None
                    } else {
                        Some(None)
                    }
                },
                None => Some(None),
            };
        }
        let b: u8 = match byte {
            Some(b) => b,
            None => return Some(None),
        };
        self.sequence.push(b);
        let n: usize = self.sequence.len();
        if 0x40 <= b && b <= 0x7e {
            proof {
                if self.sequence@ == seq![0x33u8, 0x7eu8] {
                    assert(self.sequence@[0] == 0x33 && self.sequence@[1] == 0x7e);
                }
                if n == 2 && self.sequence@[0] == 0x33 && self.sequence@[1] == 0x7e {
                    assert(self.sequence@ =~= seq![0x33u8, 0x7eu8]);
                }
            }
            if n == 1 && 0x41 <= b && b <= 0x44 {
                Some(Some(b))
            } else if n == 2 && self.sequence[0] == 0x33 && b == 0x7e {
                Some(Some(0x58))
            } else {
                Some(None)
            }
        } else if n >= MAX_SEQUENCE {
            Some(None)
        } else {
            None
        }
    }
}

/// Reads the key in some bytes behind an escape, and how many of them belong to the sequence.
pub fn escape_key(bytes: &[u8]) -> (key: (Option<u8>, usize))
    ensures
        (key.0, key.1 as nat) == EscapeView::start().run(bytes@),
        key.1 <= bytes@.len(),
{
    let mut decoder = EscapeDecoder::new();
    let mut i: usize = 0;
    assert(bytes@.skip(0) =~= bytes@);
    while i < bytes.len()
        invariant
            i <= bytes@.len(),
            ({
                let (k, n) = decoder@.run(bytes@.skip(i as int));
                EscapeView::start().run(bytes@) == (k, n + i as nat)
            }),
        decreases bytes@.len() - i,
    {
        let ghost rest = bytes@.skip(i as int);
        assert(rest[0] == bytes@[i as int]);
        assert(rest.skip(1) =~= bytes@.skip(i + 1));
        let found = decoder.feed(Some(bytes[i]));
        i += 1;
        if let Some(key) = found {
            return (key, i);
        }
    }
    assert(bytes@.skip(i as int) =~= Seq::empty());
    match decoder.feed(None) {
        Some(key) => (key, i),
        None => (None, i),
    }
}

// ---------------------------------------------------------------------------------------------
// Characters
// ---------------------------------------------------------------------------------------------
/// How many bytes a typed character has that begins with a byte.
pub open spec fn typed_width(first: u8) -> Option<nat> {
    if 0x20 <= first <= 0x7e {
        Some(1)
    } else if 0xc2 <= first <= 0xdf {
        Some(2)
    } else if 0xe0 <= first <= 0xef {
        Some(3)
    } else if 0xf0 <= first <= 0xf4 {
        Some(4)
    } else {
        None
    }
}

/// How many bytes a typed character has that begins with a byte.
pub fn character_len(first: u8) -> (len: Option<usize>)
    ensures
        match typed_width(first) {
            Some(n) => len == Some(n as usize),
            None => len is None,
        },
{
    if 0x20 <= first && first <= 0x7e {
        Some(1)
    } else if 0xc2 <= first && first <= 0xdf {
        Some(2)
    } else if 0xe0 <= first && first <= 0xef {
        Some(3)
    } else if 0xf0 <= first && first <= 0xf4 {
        Some(4)
    } else {
        None
    }
}

/// The bytes of a typed character can be put into a line.
pub open spec fn insertable(line: EditView, bytes: Seq<u8>) -> bool {
    valid_utf8(bytes) && line.has_room(decode_utf8(bytes))
}

/// Puts the bytes of a typed character into a line, if they are a text and it fits.
pub fn insert_character(line: &mut EditLine, bytes: &[u8]) -> (done: bool)
    requires
        old(line).wf(),
    ensures
        final(line).wf(),
        done == insertable(old(line)@, bytes@),
        final(line)@ == if done {
            old(line)@.with(decode_utf8(bytes@))
        } else {
            old(line)@
        },
{
    match utf8_text(bytes) {
        Ok(text) => {
            proof {
                encode_utf8_decode_utf8(text@);
            }
            line.insert(text)
        },
        Err(_) => false,
    }
}

// ---------------------------------------------------------------------------------------------
// The editor
// ---------------------------------------------------------------------------------------------
/// What is being read.
pub enum EditStageView {
    Key,
    Escape(EscapeView),
    Character { bytes: Seq<u8>, len: nat },
}

/// What came from the terminal.
#[derive(Clone, Copy, Debug, PartialEq, Eq)]
pub enum Input {
    Byte(u8),
    /// Nothing came in time.
    Nothing,
    /// The terminal was closed.
    End,
}

/// What to do next.
pub enum EditNextView {
    Read,
    ReadSoon,
    Line(Seq<char>),
    Closed,
    Fail(Seq<char>),
}

/// A line that is being edited behind a prompt, with the history.
pub struct EditorView {
    pub prompt: Seq<char>,
    pub line: EditView,
    pub history: HistoryView,
    pub stage: EditStageView,
}

/// A step of the editor: what follows, what to write, and what to do next.
pub struct EditStepView {
    pub editor: EditorView,
    pub output: Seq<u8>,
    pub next: EditNextView,
}

impl EditorView {
    /// The next key is read.
    pub open spec fn idle(self, line: EditView, history: HistoryView, output: Seq<u8>) -> EditStepView {
        EditStepView {
            editor: EditorView { line, history, stage: EditStageView::Key, ..self },
            output,
            next: EditNextView::Read,
        }
    }

    /// The line has changed and is shown again.
    pub open spec fn shown(self, line: EditView, history: HistoryView) -> EditStepView {
        self.idle(line, history, redrawn(self.prompt, line))
    }

    /// The bell is rung.
    pub open spec fn bell(self) -> EditStepView {
        self.idle(self.line, self.history, seq![7u8])
    }

    /// The editing is over.
    pub open spec fn over(self, output: Seq<u8>, next: EditNextView) -> EditStepView {
        EditStepView {
            editor: EditorView { stage: EditStageView::Key, ..self },
            output,
            next,
        }
    }

    /// More bytes are read, if they come soon.
    pub open spec fn more(self, stage: EditStageView) -> EditStepView {
        EditStepView {
            editor: EditorView { stage, ..self },
            output: Seq::empty(),
            next: EditNextView::ReadSoon,
        }
    }

    /// The bytes of a character are complete.
    pub open spec fn typed(self, bytes: Seq<u8>) -> EditStepView {
        if insertable(self.line, bytes) {
            self.shown(self.line.with(decode_utf8(bytes)), self.history)
        } else {
            self.bell()
        }
    }

    /// A byte was read where a key begins.
    pub open spec fn key(self, byte: u8) -> EditStepView {
        if byte == 4 && self.line.text().len() == 0 {
            self.over(seq![13u8, 10u8], EditNextView::Closed)
        } else if byte == 13 || byte == 10 {
            self.over(seq![13u8, 10u8], EditNextView::Line(self.line.text()))
        } else if byte == 3 {
            self.over(seq![0x5eu8, 0x43u8, 13u8, 10u8], EditNextView::Line(Seq::empty()))
        } else if byte == 8 || byte == 127 {
            self.shown(self.line.erased(), self.history)
        } else if byte == 27 {
            self.more(EditStageView::Escape(EscapeView::start()))
        } else if byte >= 32 {
            match typed_width(byte) {
                None => self.bell(),
                Some(len) => if len == 1 {
                    self.typed(seq![byte])
                } else {
                    self.more(EditStageView::Character { bytes: seq![byte], len })
                },
            }
        } else {
            self.idle(self.line, self.history, Seq::empty())
        }
    }

    /// A key of an escape sequence was pressed.
    pub open spec fn pressed(self, key: Option<u8>) -> EditStepView {
        if key == Some(0x41u8) {
            let line = match self.history.older_text() {
                Some(text) => EditView::replaced(text),
                None => self.line,
            };
            self.shown(line, self.history.older(self.line.text()))
        } else if key == Some(0x42u8) {
            let line = match self.history.newer_text() {
                Some(text) => EditView::replaced(text),
                None => self.line,
            };
            self.shown(line, self.history.newer())
        } else if key == Some(0x43u8) {
            self.shown(self.line.right(), self.history)
        } else if key == Some(0x44u8) {
            self.shown(self.line.left(), self.history)
        } else if key == Some(0x58u8) {
            self.shown(self.line.deleted(), self.history)
        } else {
            self.shown(self.line, self.history)
        }
    }

    /// A character was broken off: the bell is rung, and a byte that came begins another key.
    pub open spec fn broken_off(self, byte: Option<u8>) -> EditStepView {
        match byte {
            None => self.bell(),
            Some(b) => {
                let step = EditorView { stage: EditStageView::Key, ..self }.key(b);
                EditStepView { output: seq![7u8] + step.output, ..step }
            },
        }
    }

    /// What follows when something came from the terminal.
    pub open spec fn after(self, input: Input) -> EditStepView {
        let byte = match input {
            Input::Byte(b) => Some(b),
            _ => None,
        };
        match self.stage {
            EditStageView::Key => match input {
                Input::Byte(b) => self.key(b),
                _ => if self.line.text().len() == 0 {
                    self.over(seq![13u8, 10u8], EditNextView::Closed)
                } else {
                    self.over(Seq::empty(), EditNextView::Fail(Error::TerminalClosed.text()))
                },
            },
            EditStageView::Escape(decoder) => match decoder.after(byte) {
                (next, None) => self.more(EditStageView::Escape(next)),
                (_, Some(key)) => self.pressed(key),
            },
            EditStageView::Character { bytes, len } => match byte {
                Some(b) => if 0x80 <= b <= 0xbf {
                    let longer = bytes.push(b);
                    if longer.len() >= len {
                        self.typed(longer)
                    } else {
                        self.more(EditStageView::Character { bytes: longer, len })
                    }
                } else {
                    self.broken_off(Some(b))
                },
                None => self.broken_off(None),
            },
        }
    }
}

/// What is being read.
pub enum EditStage {
    Key,
    Escape(EscapeDecoder),
    Character { bytes: SecretBytes, len: usize },
}

impl View for EditStage {
    type V = EditStageView;

    open spec fn view(&self) -> EditStageView {
        match self {
            EditStage::Key => EditStageView::Key,
            EditStage::Escape(decoder) => EditStageView::Escape(decoder@),
            EditStage::Character { bytes, len } => EditStageView::Character {
                bytes: bytes@,
                len: *len as nat,
            },
        }
    }
}

/// What to do next: read a byte, read a byte that comes soon, or stop with a line, at the end of
/// the input, or because the terminal was closed in the middle of a line.
pub enum EditNext {
    Read,
    ReadSoon,
    Line(String),
    Closed,
    Fail(Error),
}

impl View for EditNext {
    type V = EditNextView;

    open spec fn view(&self) -> EditNextView {
        match self {
            EditNext::Read => EditNextView::Read,
            EditNext::ReadSoon => EditNextView::ReadSoon,
            EditNext::Line(text) => EditNextView::Line(text@),
            EditNext::Closed => EditNextView::Closed,
            EditNext::Fail(error) => EditNextView::Fail(error.text()),
        }
    }
}

/// What to write, and what to do next.
pub struct EditAction {
    pub output: SecretBytes,
    pub next: EditNext,
}

/// A line that is being edited behind a prompt.
pub struct Editor {
    prompt: String,
    line: EditLine,
    stage: EditStage,
}

fn no_output() -> (bytes: SecretBytes)
    ensures
        bytes@ == Seq::<u8>::empty(),
{
    SecretBytes::new(Vec::new())
}

fn line_end() -> (bytes: SecretBytes)
    ensures
        bytes@ == seq![13u8, 10u8],
{
    let mut bytes = no_output();
    bytes.push(13);
    bytes.push(10);
    assert(bytes@ =~= seq![13u8, 10u8]);
    bytes
}

impl Editor {
    /// The editor with a history.
    pub closed spec fn view(&self, history: HistoryView) -> EditorView {
        EditorView { prompt: self.prompt@, line: self.line@, history, stage: self.stage@ }
    }

    /// The history of the view is the one that was handed in.
    pub proof fn lemma_history(&self, history: HistoryView)
        ensures
            self.view(history).history == history,
    {
    }

    /// The line is a text with a cursor between two characters.
    pub closed spec fn wf(&self) -> bool {
        self.line.wf()
    }

    /// Begins an empty line.
    pub fn new(prompt: &str, history: &mut CommandHistory) -> (editor: Self)
        requires
            old(history)@.wf(),
        ensures
            editor.wf(),
            final(history)@.wf(),
            final(history)@ == (HistoryView {
                entries: old(history)@.entries,
                position: None,
                draft: Seq::empty(),
            }),
            editor.view(final(history)@) == (EditorView {
                prompt: prompt@,
                line: EditView { before: Seq::empty(), after: Seq::empty() },
                history: HistoryView {
                    entries: old(history)@.entries,
                    position: None,
                    draft: Seq::empty(),
                },
                stage: EditStageView::Key,
            }),
    {
        history.begin_line();
        Editor { prompt: prompt.to_owned(), line: EditLine::new(), stage: EditStage::Key }
    }

    fn shown(&mut self, Ghost(h): Ghost<HistoryView>) -> (action: EditAction)
        requires
            old(self).wf(),
        ensures
            final(self).wf(),
            old(self).view(h).shown(old(self).view(h).line, h) == (EditStepView {
                    editor: final(self).view(h),
                    output: action.output@,
                    next: action.next@,
                }),
    {
        self.stage = EditStage::Key;
        EditAction { output: self.line.redraw(self.prompt.as_str()), next: EditNext::Read }
    }

    fn bell(&mut self, Ghost(h): Ghost<HistoryView>) -> (action: EditAction)
        requires
            old(self).wf(),
        ensures
            final(self).wf(),
            old(self).view(h).bell() == (EditStepView {
                    editor: final(self).view(h),
                    output: action.output@,
                    next: action.next@,
                }),
    {
        self.stage = EditStage::Key;
        let mut output = no_output();
        output.push(7);
        assert(output@ =~= seq![7u8]);
        EditAction { output, next: EditNext::Read }
    }

    fn typed(&mut self, bytes: &[u8], Ghost(h): Ghost<HistoryView>) -> (action: EditAction)
        requires
            old(self).wf(),
        ensures
            final(self).wf(),
            old(self).view(h).typed(bytes@) == (EditStepView {
                    editor: final(self).view(h),
                    output: action.output@,
                    next: action.next@,
                }),
    {
        if insert_character(&mut self.line, bytes) {
            self.shown(Ghost(h))
        } else {
            self.bell(Ghost(h))
        }
    }

    fn key(&mut self, byte: u8, Ghost(h): Ghost<HistoryView>) -> (action: EditAction)
        requires
            old(self).wf(),
            old(self).stage is Key,
        ensures
            final(self).wf(),
            old(self).view(h).key(byte) == (EditStepView {
                    editor: final(self).view(h),
                    output: action.output@,
                    next: action.next@,
                }),
    {
        if byte == 4 && self.line.len() == 0 {
            return EditAction { output: line_end(), next: EditNext::Closed };
        }
        if byte == 13 || byte == 10 {
            let text = self.line.text().to_owned();
            return EditAction { output: line_end(), next: EditNext::Line(text) };
        }
        if byte == 3 {
            let mut output = no_output();
            output.push(0x5e);
            output.push(0x43);
            output.push(13);
            output.push(10);
            assert(output@ =~= seq![0x5eu8, 0x43u8, 13u8, 10u8]);
            let empty = String::new();
            assert(empty@ =~= Seq::empty());
            return EditAction { output, next: EditNext::Line(empty) };
        }
        if byte == 8 || byte == 127 {
            self.line.backspace();
            return self.shown(Ghost(h));
        }
        if byte == 27 {
            self.stage = EditStage::Escape(EscapeDecoder::new());
            return EditAction { output: no_output(), next: EditNext::ReadSoon };
        }
        if byte >= 32 {
            let mut bytes = no_output();
            bytes.push(byte);
            assert(bytes@ =~= seq![byte]);
            return match character_len(byte) {
                None => self.bell(Ghost(h)),
                Some(len) => {
                    if len == 1 {
                        self.typed(bytes.as_slice(), Ghost(h))
                    } else {
                        self.stage = EditStage::Character { bytes, len };
                        EditAction { output: no_output(), next: EditNext::ReadSoon }
                    }
                },
            };
        }
        EditAction { output: no_output(), next: EditNext::Read }
    }

    fn pressed(&mut self, history: &mut CommandHistory, key: Option<u8>) -> (action: EditAction)
        requires
            old(self).wf(),
            old(history)@.wf(),
        ensures
            final(self).wf(),
            final(history)@.wf(),
            old(self).view(old(history)@).pressed(key) == (EditStepView {
                editor: final(self).view(final(history)@),
                output: action.output@,
                next: action.next@,
            }),
    {
        match key {
            Some(0x41) => {
                if let Some(text) = history.older(self.line.text()) {
                    self.line.replace(text);
                }
            },
            Some(0x42) => {
                if let Some(text) = history.newer() {
                    self.line.replace(text);
                }
            },
            Some(0x43) => {
                self.line.right();
            },
            Some(0x44) => {
                self.line.left();
            },
            Some(0x58) => {
                self.line.delete();
            },
            _ => {},
        }
        self.shown(Ghost(history@))
    }

    fn broken_off(&mut self, byte: Option<u8>, Ghost(h): Ghost<HistoryView>) -> (action: EditAction)
        requires
            old(self).wf(),
        ensures
            final(self).wf(),
            old(self).view(h).broken_off(byte) == (EditStepView {
                    editor: final(self).view(h),
                    output: action.output@,
                    next: action.next@,
                }),
    {
        match byte {
            None => self.bell(Ghost(h)),
            Some(b) => {
                self.stage = EditStage::Key;
                let action = self.key(b, Ghost(h));
                let mut output = no_output();
                output.push(7);
                output.extend_from_slice(action.output.as_slice());
                assert(output@ =~= seq![7u8] + action.output@);
                EditAction { output, next: action.next }
            },
        }
    }

    /// Takes what came from the terminal and tells what to write and what to do next.
    pub fn read_tty_line(&mut self, history: &mut CommandHistory, input: Input) -> (action: EditAction)
        requires
            old(self).wf(),
            old(history)@.wf(),
        ensures
            final(self).wf(),
            final(history)@.wf(),
            final(history)@ == old(self).view(old(history)@).after(input).editor.history,
            old(self).view(old(history)@).after(input) == (EditStepView {
                editor: final(self).view(final(history)@),
                output: action.output@,
                next: action.next@,
            }),
    {
        let byte: Option<u8> = match input {
            Input::Byte(b) => Some(b),
            _ => None,
        };
        let ghost h = history@;
        let mut stage = EditStage::Key;
        std::mem::swap(&mut self.stage, &mut stage);
        match stage {
            EditStage::Key => match input {
                Input::Byte(b) => {
                    self.key(b, Ghost(h))
                },
                _ => {
                    if self.line.len() == 0 {
                        EditAction { output: line_end(), next: EditNext::Closed }
                    } else {
                        EditAction {
                            output: no_output(),
                            next: EditNext::Fail(Error::TerminalClosed),
                        }
                    }
                },
            },
            EditStage::Escape(decoder) => {
                let mut decoder = decoder;
                match decoder.feed(byte) {
                    None => {
                        self.stage = EditStage::Escape(decoder);
                        EditAction { output: no_output(), next: EditNext::ReadSoon }
                    },
                    Some(key) => self.pressed(history, key),
                }
            },
            EditStage::Character { bytes, len } => match byte {
                Some(b) => {
                    if 0x80 <= b && b <= 0xbf {
                        let mut bytes = bytes;
                        bytes.push(b);
                        if bytes.len() >= len {
                            self.typed(bytes.as_slice(), Ghost(h))
                        } else {
                            self.stage = EditStage::Character { bytes, len };
                            EditAction { output: no_output(), next: EditNext::ReadSoon }
                        }
                    } else {
                        self.broken_off(Some(b), Ghost(h))
                    }
                },
                None => self.broken_off(None, Ghost(h)),
            },
        }
    }
}

// ---------------------------------------------------------------------------------------------
// Streams
// ---------------------------------------------------------------------------------------------
/// The first line end in some bytes, counted in, or all of them.
pub open spec fn line_part(bytes: Seq<u8>) -> nat
    decreases bytes.len(),
{
    if bytes.len() == 0 {
        0
    } else if bytes[0] == 10 {
        1
    } else {
        1 + line_part(bytes.skip(1))
    }
}

/// A line that is read from a stream, in parts of any size. One that is too long is read to its end
/// and not kept.
pub struct BoundedLine {
    bytes: SecretBytes,
    seen: bool,
    oversized: bool,
    read: Ghost<Seq<u8>>,
}

impl View for BoundedLine {
    type V = Seq<u8>;

    /// What was read of the line.
    closed spec fn view(&self) -> Seq<u8> {
        self.read@
    }
}

/// The line that some bytes are: none at the end of the input, or what is wrong with it.
pub open spec fn line_of(bytes: Seq<u8>) -> Result<Option<Seq<char>>, Error> {
    if bytes.len() == 0 {
        Ok(None)
    } else if bytes.len() > MAX_LINE {
        Err(Error::LineTooLong)
    } else if !valid_utf8(bytes) {
        Err(Error::LineNotUtf8)
    } else {
        Ok(Some(decode_utf8(bytes)))
    }
}

impl BoundedLine {
    /// What is kept is what was read, unless that is too long.
    pub closed spec fn wf(&self) -> bool {
        &&& self.seen == (self.read@.len() > 0)
        &&& self.oversized == (self.read@.len() > MAX_LINE)
        &&& !self.oversized ==> self.bytes@ == self.read@
        &&& self.bytes@.len() <= MAX_LINE
    }

    /// Nothing was read.
    pub fn new() -> (line: Self)
        ensures
            line.wf(),
            line@ == Seq::<u8>::empty(),
    {
        BoundedLine {
            bytes: SecretBytes::new(Vec::with_capacity(128)),
            seen: false,
            oversized: false,
            read: Ghost(Seq::empty()),
        }
    }

    /// Takes bytes that have come, up to the end of the line: how many belong to it, and whether it
    /// is complete.
    pub fn feed(&mut self, available: &[u8]) -> (part: (usize, bool))
        requires
            old(self).wf(),
            available@.len() > 0,
        ensures
            final(self).wf(),
            part.0 == line_part(available@),
            1 <= part.0 <= available@.len(),
            part.1 == (available@[part.0 - 1] == 10),
            final(self)@ == old(self)@ + available@.take(part.0 as int),
    {
        let mut end: usize = 0;
        assert(available@.skip(0) =~= available@);
        while end < available.len() && available[end] != 10
            invariant
                end <= available@.len(),
                line_part(available@) == end + line_part(available@.skip(end as int)),
                forall|k: int| 0 <= k < end ==> available@[k] != 10,
            decreases available@.len() - end,
        {
            assert(available@.skip(end as int)[0] == available@[end as int]);
            assert(available@.skip(end as int).skip(1) =~= available@.skip(end + 1));
            end += 1;
        }
        let complete: bool = end < available.len();
        if complete {
            assert(available@.skip(end as int)[0] == 10);
            end += 1;
        } else {
            assert(available@.skip(end as int) =~= Seq::empty());
        }
        let part = &available[0..end];
        assert(part@ =~= available@.take(end as int));
        if !self.oversized {
            if end <= MAX_LINE && self.bytes.len() <= MAX_LINE - end {
                self.bytes.extend_from_slice(part);
            } else {
                self.oversized = true;
            }
        }
        self.seen = true;
        self.read = Ghost(self.read@ + part@);
        (end, complete)
    }

    /// The line, once it is complete or the input has ended.
    pub fn finish(self) -> (line: Result<Option<String>, Error>)
        requires
            self.wf(),
        ensures
            match line_of(self@) {
                Ok(Some(text)) => line matches Ok(Some(t)) && t@ == text,
                Ok(None) => line matches Ok(None),
                Err(error) => line == Err::<Option<String>, Error>(error),
            },
    {
        if !self.seen {
            return Ok(None);
        }
        if self.oversized {
            return Err(Error::LineTooLong);
        }
        match utf8_text(self.bytes.as_slice()) {
            Ok(text) => {
                proof {
                    encode_utf8_decode_utf8(text@);
                }
                Ok(Some(text.to_owned()))
            },
            Err(_) => Err(Error::LineNotUtf8),
        }
    }
}

// ---------------------------------------------------------------------------------------------
// Laws
// ---------------------------------------------------------------------------------------------
/// An escape sequence is bounded: no more than its introduction and as many bytes as the longest
/// sequence has are taken.
pub proof fn escape_sequences_are_bounded(bytes: Seq<u8>)
    ensures
        EscapeView::start().run(bytes).1 <= MAX_SEQUENCE + 1,
        EscapeView::start().run(bytes).1 <= bytes.len(),
{
    lemma_run_bound(EscapeView::start(), bytes);
}

proof fn lemma_run_bound(decoder: EscapeView, bytes: Seq<u8>)
    requires
        decoder.sequence.len() < MAX_SEQUENCE,
        !decoder.introduced ==> decoder.sequence.len() == 0,
    ensures
        decoder.run(bytes).1 <= bytes.len(),
        decoder.run(bytes).1 <= MAX_SEQUENCE - decoder.sequence.len() + if decoder.introduced {
            0int
        } else {
            1int
        },
    decreases bytes.len(),
{
    if bytes.len() > 0 {
        if let (next, None) = decoder.after(Some(bytes[0])) {
            lemma_run_bound(next, bytes.skip(1));
        }
    }
}

/// Editing never changes the remembered commands.
pub proof fn editing_keeps_the_history(editor: EditorView, input: Input)
    ensures
        editor.after(input).editor.history.entries == editor.history.entries,
{
}

/// What the keys do: the end of a line hands the line over, an interrupt hands over an empty one,
/// the end of the input closes an empty line and does nothing to another, and the erasing keys erase.
pub proof fn keys_do_what_they_say(editor: EditorView)
    requires
        editor.stage is Key,
    ensures
        editor.after(Input::Byte(13)).next == EditNextView::Line(editor.line.text()),
        editor.after(Input::Byte(10)).next == EditNextView::Line(editor.line.text()),
        editor.after(Input::Byte(3)).next == EditNextView::Line(Seq::empty()),
        editor.line.text().len() == 0 ==> editor.after(Input::Byte(4)).next is Closed,
        editor.line.text().len() > 0 ==> editor.after(Input::Byte(4)).next is Read
            && editor.after(Input::Byte(4)).editor.line == editor.line,
        editor.after(Input::Byte(8)).editor.line == editor.line.erased(),
        editor.after(Input::Byte(127)).editor.line == editor.line.erased(),
        editor.after(Input::Byte(27)).editor.stage is Escape,
        editor.after(Input::Byte(27)).editor.line == editor.line,
        editor.line.text().len() == 0 ==> editor.after(Input::End).next is Closed,
        editor.line.text().len() > 0 ==> editor.after(Input::End).next is Fail,
{
}

/// What the keys behind an escape do: up and down go through the history, right and left move the
/// cursor, and Delete deletes. After each the line is shown as it is then.
pub proof fn arrows_do_what_they_say(editor: EditorView)
    ensures
        ({
            let up = editor.pressed(Some(0x41u8)).editor;
            let down = editor.pressed(Some(0x42u8)).editor;
            &&& editor.history.entries.len() > 0 ==> up.line == EditView::replaced(
                editor.history.older_text()->Some_0,
            )
            &&& editor.history.entries.len() == 0 ==> up.line == editor.line
            &&& up.history == editor.history.older(editor.line.text())
            &&& editor.history.position is Some ==> down.line == EditView::replaced(
                editor.history.newer_text()->Some_0,
            )
            &&& editor.history.position is None ==> down.line == editor.line
            &&& down.history == editor.history.newer()
        }),
        editor.pressed(Some(0x43u8)).editor.line == editor.line.right(),
        editor.pressed(Some(0x44u8)).editor.line == editor.line.left(),
        editor.pressed(Some(0x58u8)).editor.line == editor.line.deleted(),
        editor.pressed(None).editor.line == editor.line,
        forall|key: Option<u8>|
            #![trigger editor.pressed(key)]
            editor.pressed(key).output == redrawn(
                editor.prompt,
                editor.pressed(key).editor.line,
            ) && editor.pressed(key).next is Read,
{
}

/// The keys of escape sequences: the arrows are a letter behind the introduction, and Delete is a
/// three and a tilde.
pub proof fn sequences_stand_for_keys(sequence: Seq<u8>)
    ensures
        key_of(sequence) is Some == ((sequence.len() == 1 && (sequence[0] == 0x41 || sequence[0]
            == 0x42 || sequence[0] == 0x43 || sequence[0] == 0x44)) || (sequence.len() == 2
            && sequence[0] == 0x33 && sequence[1] == 0x7e)),
        key_of(sequence) is Some && sequence.len() == 1 ==> key_of(sequence) == Some(sequence[0]),
        key_of(sequence) is Some && sequence.len() == 2 ==> key_of(sequence) == Some(0x58u8),
{
    if sequence.len() == 2 && sequence[0] == 0x33 && sequence[1] == 0x7e {
        assert(sequence =~= seq![0x33u8, 0x7eu8]);
    }
    if sequence == seq![0x33u8, 0x7eu8] {
        assert(sequence[0] == 0x33 && sequence[1] == 0x7e);
    }
}

/// A typed character goes in at the cursor where there is room, and rings the bell where there is
/// none; the line stays then.
pub proof fn characters_go_in_at_the_cursor(editor: EditorView, bytes: Seq<u8>)
    ensures
        valid_utf8(bytes) && encode_utf8(editor.line.text()).len() + encode_utf8(
            decode_utf8(bytes),
        ).len() <= 4096 ==> editor.typed(bytes).editor.line.before == editor.line.before
            + decode_utf8(bytes) && editor.typed(bytes).editor.line.after == editor.line.after,
        !valid_utf8(bytes) ==> editor.typed(bytes).editor.line == editor.line && editor.typed(
            bytes,
        ).output == seq![7u8],
        editor.typed(bytes).editor.history == editor.history,
{
}

/// A line from a stream is its bytes as text: nothing at the end of the input, and an error where it
/// is too long or no text.
pub proof fn lines_are_their_bytes(bytes: Seq<u8>)
    ensures
        line_of(bytes) matches Ok(Some(text)) ==> bytes.len() > 0 && bytes.len() <= 4096
            && valid_utf8(bytes) && encode_utf8(text) == bytes,
        line_of(bytes) matches Ok(None) ==> bytes.len() == 0,
        0 < bytes.len() <= 4096 && valid_utf8(bytes) ==> line_of(bytes) is Ok,
        line_part(bytes) <= bytes.len(),
        forall|i: int| 0 <= i < line_part(bytes) - 1 ==> #[trigger] bytes[i] != 10,
        line_part(bytes) < bytes.len() ==> line_part(bytes) > 0 && bytes[line_part(bytes) - 1]
            == 10,
    decreases bytes.len(),
{
    if valid_utf8(bytes) {
        decode_utf8_encode_utf8(bytes);
    }
    if bytes.len() > 0 && bytes[0] != 10 {
        let rest = bytes.skip(1);
        lines_are_their_bytes(rest);
        assert forall|i: int| 0 <= i < line_part(bytes) - 1 implies #[trigger] bytes[i] != 10 by {
            if i > 0 {
                assert(rest[i - 1] == bytes[i]);
            }
        }
        if line_part(bytes) < bytes.len() {
            assert(rest[line_part(rest) - 1] == bytes[line_part(bytes) - 1]);
        }
    }
}

} // verus!
