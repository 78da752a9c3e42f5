//! The commands that the shell remembers.
use std::collections::VecDeque;
use vstd::prelude::*;
use vstd::string::*;

use crate::secret::SecretText;
use crate::text::{contains, first_word, occurs, same, string_views, trim, trim_line_end, trimmed,
    without_line_end, words_of};

verus! {

/// How many commands are remembered.
pub const MAX_HISTORY: usize = 64;

/// A command that shows or takes a secret.
pub open spec fn secret_command(word: Seq<char>) -> bool {
    word == "import"@ || word == "export"@
}

/// An option that comes with a secret.
pub open spec fn secret_option(word: Seq<char>) -> bool {
    word == "--base58"@ || word == "--mnemonic"@
}

/// A command that is not remembered: an empty one, or one that may hold a secret, as it was typed
/// or as its alias resolves.
pub open spec fn forgotten(line: Seq<char>, resolved: Seq<Seq<char>>) -> bool {
    ||| trimmed(line).len() == 0
    ||| words_of(line).len() > 0 && secret_command(words_of(line)[0])
    ||| occurs(line, "--base58"@)
    ||| occurs(line, "--mnemonic"@)
    ||| resolved.len() > 0 && secret_command(resolved[0])
    ||| exists|i: int| 0 <= i < resolved.len() && secret_option(#[trigger] resolved[i])
}

/// The commands after one more was typed. A repetition is left out; the oldest goes where there are
/// too many.
pub open spec fn remembered(entries: Seq<Seq<char>>, line: Seq<char>, resolved: Seq<Seq<char>>) -> Seq<
    Seq<char>,
> {
    let command = without_line_end(line);
    if forgotten(command, resolved) || (entries.len() > 0 && entries.last() == command) {
        entries
    } else if entries.len() == MAX_HISTORY {
        entries.skip(1).push(command)
    } else {
        entries.push(command)
    }
}

/// The remembered commands, which of them is recalled, and what was typed before that.
pub struct HistoryView {
    pub entries: Seq<Seq<char>>,
    pub position: Option<usize>,
    pub draft: Seq<char>,
}

/// The remembered commands, which of them is recalled, and what was typed before that.
pub struct CommandHistory {
    entries: VecDeque<SecretText>,
    position: Option<usize>,
    draft: SecretText,
}

impl View for CommandHistory {
    type V = HistoryView;

    closed spec fn view(&self) -> HistoryView {
        HistoryView {
            entries: self.entries@.map_values(|e: SecretText| e@),
            position: self.position,
            draft: self.draft@,
        }
    }
}

impl HistoryView {
    /// There are not too many commands, and the recalled one is among them.
    pub open spec fn wf(self) -> bool {
        self.entries.len() <= MAX_HISTORY && (self.position matches Some(i) ==> i
            < self.entries.len())
    }

    /// Which command is recalled when an older one is asked for.
    pub open spec fn older_position(self) -> int {
        match self.position {
            Some(i) => if i == 0 {
                0
            } else {
                i - 1
            },
            None => self.entries.len() - 1,
        }
    }

    /// After an older command was asked for, while a line was typed.
    pub open spec fn older(self, current: Seq<char>) -> HistoryView {
        if self.entries.len() == 0 {
            self
        } else {
            HistoryView {
                position: Some(self.older_position() as usize),
                draft: if self.position is None {
                    current
                } else {
                    self.draft
                },
                ..self
            }
        }
    }

    /// The older command.
    pub open spec fn older_text(self) -> Option<Seq<char>> {
        if self.entries.len() == 0 {
            None
        } else {
            Some(self.entries[self.older_position()])
        }
    }

    /// After a newer command was asked for.
    pub open spec fn newer(self) -> HistoryView {
        match self.position {
            None => self,
            Some(i) => if i + 1 < self.entries.len() {
                HistoryView { position: Some((i + 1) as usize), ..self }
            } else {
                HistoryView { position: None, ..self }
            },
        }
    }

    /// The newer command, or what was typed before any was recalled.
    pub open spec fn newer_text(self) -> Option<Seq<char>> {
        match self.position {
            None => None,
            Some(i) => if i + 1 < self.entries.len() {
                Some(self.entries[i + 1])
            } else {
                Some(self.draft)
            },
        }
    }
}

/// A copy of some secret text.
fn secret_copy(text: &str) -> (copy: SecretText)
    ensures
        copy@ == text@,
{
    SecretText::new(text.to_owned())
}

impl Default for CommandHistory {
    fn default() -> (history: Self)
        ensures
            history@ == (HistoryView {
                entries: Seq::empty(),
                position: None,
                draft: Seq::empty(),
            }),
            history@.wf(),
    {
        let history = CommandHistory {
            entries: VecDeque::new(),
            position: None,
            draft: SecretText::new(String::new()),
        };
        assert(history@.entries =~= Seq::empty());
        history
    }
}

/// Tells whether a command is not remembered.
fn is_forgotten(line: &str, resolved: &[String]) -> (yes: bool)
    ensures
        yes == forgotten(line@, string_views(resolved@)),
{
    if trim(line).is_empty() {
        return true;
    }
    if let Some(word) = first_word(line) {
        if same(word, "import") || same(word, "export") {
            return true;
        }
    }
    if contains(line, "--base58") || contains(line, "--mnemonic") {
        return true;
    }
    let ghost words = string_views(resolved@);
    if resolved.len() > 0 {
        assert(words[0] == resolved@[0]@);
        if same(resolved[0].as_str(), "import") || same(resolved[0].as_str(), "export") {
            return true;
        }
    }
    let mut i: usize = 0;
    while i < resolved.len()
        invariant
            i <= resolved@.len(),
            words == string_views(resolved@),
            forall|k: int| 0 <= k < i ==> !secret_option(#[trigger] words[k]),
        decreases resolved@.len() - i,
    {
        assert(words[i as int] == resolved@[i as int]@);
        let word = resolved[i].as_str();
        if same(word, "--base58") || same(word, "--mnemonic") {
            assert(secret_option(words[i as int]));
            return true;
        }
        i += 1;
    }
    false
}

impl CommandHistory {
    /// Remembers a command, unless it may hold a secret.
    pub fn remember(&mut self, line: &str, resolved: &[String])
        requires
            old(self)@.wf(),
        ensures
            final(self)@ == (HistoryView {
                entries: remembered(old(self)@.entries, line@, string_views(resolved@)),
                ..old(self)@
            }),
            final(self)@.wf(),
    {
        let command = trim_line_end(line);
        if is_forgotten(command, resolved) {
            return ;
        }
        let len: usize = self.entries.len();
        assert(len == self@.entries.len());
        if len > 0 {
            assert(self@.entries.last() == self.entries@[len - 1]@);
            if same(self.entries[len - 1].as_str(), command) {
                return ;
            }
        }
        if len == MAX_HISTORY {
            let _ = self.entries.pop_front();
            assert(self@.entries =~= old(self)@.entries.skip(1));
        }
        let ghost before = self@.entries;
        self.entries.push_back(secret_copy(command));
        assert(self@.entries =~= before.push(command@));
    }

    /// Begins a new line: nothing is recalled.
    pub fn begin_line(&mut self)
        ensures
            final(self)@ == (HistoryView {
                entries: old(self)@.entries,
                position: None,
                draft: Seq::empty(),
            }),
            old(self)@.wf() ==> final(self)@.wf(),
    {
        self.position = None;
        self.draft.wipe();
    }

    /// Recalls an older command. What is typed is kept.
    pub fn older(&mut self, current: &str) -> (text: Option<&str>)
        requires
            old(self)@.wf(),
        ensures
            final(self)@ == old(self)@.older(current@),
            final(self)@.wf(),
            match old(self)@.older_text() {
                Some(t) => text matches Some(r) && r@ == t,
                None => text is None,
            },
    {
        let len: usize = self.entries.len();
        assert(len == self@.entries.len());
        if len == 0 {
            return None;
        }
        let at: usize = match self.position {
            Some(i) => {
                if i == 0 {
                    0
                } else {
                    i - 1
                }
            },
            None => {
                self.draft = secret_copy(current);
                len - 1
            },
        };
        self.position = Some(at);
        assert(self@.entries[at as int] == self.entries@[at as int]@);
        Some(self.entries[at].as_str())
    }

    /// Recalls a newer command, or what was typed before any was recalled.
    pub fn newer(&mut self) -> (text: Option<&str>)
        requires
            old(self)@.wf(),
        ensures
            final(self)@ == old(self)@.newer(),
            final(self)@.wf(),
            match old(self)@.newer_text() {
                Some(t) => text matches Some(r) && r@ == t,
                None => text is None,
            },
    {
        let len: usize = self.entries.len();
        assert(len == self@.entries.len());
        let at: usize = match self.position {
            Some(i) => i,
            None => return None,
        };
        if at + 1 < len {
            self.position = Some(at + 1);
            assert(self@.entries[at + 1] == self.entries@[at + 1]@);
            Some(self.entries[at + 1].as_str())
        } else {
            self.position = None;
            Some(self.draft.as_str())
        }
    }
}

// ---------------------------------------------------------------------------------------------
// Laws
// ---------------------------------------------------------------------------------------------
/// Whatever an alias is called, a command that resolves to an import or an export, or that has an
/// option for a secret, is not remembered.
pub proof fn secrets_are_never_remembered(
    entries: Seq<Seq<char>>,
    line: Seq<char>,
    resolved: Seq<Seq<char>>,
)
    requires
        resolved.len() > 0,
        secret_command(resolved[0]) || exists|i: int|
            0 <= i < resolved.len() && secret_option(#[trigger] resolved[i]),
    ensures
        remembered(entries, line, resolved) == entries,
{
}

/// What would be remembered if there were room for every command.
pub open spec fn remembered_for_ever(
    entries: Seq<Seq<char>>,
    line: Seq<char>,
    resolved: Seq<Seq<char>>,
) -> Seq<Seq<char>> {
    let command = without_line_end(line);
    if forgotten(command, resolved) || (entries.len() > 0 && entries.last() == command) {
        entries
    } else {
        entries.push(command)
    }
}

/// As many of the last commands as there is room for.
pub open spec fn last_commands(entries: Seq<Seq<char>>) -> Seq<Seq<char>> {
    if entries.len() <= MAX_HISTORY {
        entries
    } else {
        entries.skip(entries.len() - MAX_HISTORY)
    }
}

/// The history always holds the last commands, as many as there is room for.
pub proof fn the_last_commands_are_remembered(
    entries: Seq<Seq<char>>,
    line: Seq<char>,
    resolved: Seq<Seq<char>>,
)
    ensures
        remembered(last_commands(entries), line, resolved) == last_commands(
            remembered_for_ever(entries, line, resolved),
        ),
{
    let short = last_commands(entries);
    let command = without_line_end(line);
    if entries.len() > 0 {
        assert(short.last() == entries.last());
    }
    if entries.len() >= MAX_HISTORY {
        assert(short.skip(1).push(command) =~= entries.push(command).skip(
            entries.len() + 1 - MAX_HISTORY,
        ));
    }
}

/// Recalling never changes what is remembered, and going back to the newest gives the line that
/// was typed.
pub proof fn recall_restores_the_draft(history: HistoryView, current: Seq<char>)
    requires
        history.wf(),
        history.position is None,
        history.entries.len() > 0,
    ensures
        history.older(current).entries == history.entries,
        history.older(current).newer().entries == history.entries,
        history.older_text() == Some(history.entries.last()),
        history.older(current).newer_text() == Some(current),
        history.older(current).newer().position is None,
{
}

/// Going to an older command and back to the newer one gives the one that was recalled.
pub proof fn older_and_newer_are_inverse(history: HistoryView, current: Seq<char>)
    requires
        history.wf(),
        history.position matches Some(i) && i > 0,
    ensures
        history.older(current).newer() == history,
        history.older(current).newer_text() == Some(history.entries[history.position->Some_0 as int]),
{
}

/// A line that begins with `import` or `export`, or holds an option that comes with a secret, is not
/// remembered, and neither is one that stands for such a command, or an empty one. Every other one
/// is: it is the last command then.
pub proof fn only_harmless_commands_are_remembered(
    entries: Seq<Seq<char>>,
    line: Seq<char>,
    resolved: Seq<Seq<char>>,
)
    ensures
        ({
            let command = without_line_end(line);
            let words = words_of(command);
            let secret = {
                ||| words.len() > 0 && (words[0] == "import"@ || words[0] == "export"@)
                ||| occurs(command, "--base58"@)
                ||| occurs(command, "--mnemonic"@)
                ||| resolved.len() > 0 && (resolved[0] == "import"@ || resolved[0] == "export"@)
                ||| resolved.contains("--base58"@)
                ||| resolved.contains("--mnemonic"@)
            };
            let after = remembered(entries, line, resolved);
            &&& secret ==> after == entries
            &&& trimmed(command).len() == 0 ==> after == entries
            &&& !secret && trimmed(command).len() > 0 ==> after.len() > 0 && after.last()
                == command
        }),
{
    if resolved.contains("--base58"@) {
        let i = choose|i: int| 0 <= i < resolved.len() && resolved[i] == "--base58"@;
        assert(secret_option(resolved[i]));
    }
    if resolved.contains("--mnemonic"@) {
        let i = choose|i: int| 0 <= i < resolved.len() && resolved[i] == "--mnemonic"@;
        assert(secret_option(resolved[i]));
    }
}

} // verus!
