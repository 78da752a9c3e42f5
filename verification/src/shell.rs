//! Which command is run, and how long a session stays unlocked.
use vstd::prelude::*;
use vstd::string::*;

use crate::args::no_args;
use crate::config::{Config, Mode};
use crate::error::Error;
use crate::history::{remembered, CommandHistory, HistoryView};
use crate::pubkey::Pubkey;
use crate::session::Session;
use crate::text::{has_prefix, same, string_views, words, words_of};
use crate::vault::{Vault, VaultView};

verus! {

// ---------------------------------------------------------------------------------------------
// Commands
// ---------------------------------------------------------------------------------------------
/// A command.
#[derive(Clone, Copy, Debug, PartialEq, Eq, Structural)]
pub enum Command {
    Help,
    Init,
    New,
    Import,
    Export,
    List,
    Delete,
    History,
    Transfer,
    TokenTransfer,
    CloseAta,
    Lock,
    Ui,
}

impl Command {
    /// The word that runs a command.
    pub open spec fn word(self) -> Seq<char> {
        match self {
            Command::Help => "help"@,
            Command::Init => "init"@,
            Command::New => "new"@,
            Command::Import => "import"@,
            Command::Export => "export"@,
            Command::List => "list"@,
            Command::Delete => "delete"@,
            Command::History => "history"@,
            Command::Transfer => "transfer"@,
            Command::TokenTransfer => "token-transfer"@,
            Command::CloseAta => "close-ata"@,
            Command::Lock => "lock"@,
            Command::Ui => "ui"@,
        }
    }
}

/// A command with its word and what it does.
pub struct Plugin {
    pub command: Command,
    pub name: &'static str,
    pub summary: &'static str,
}

/// A command with its word and what it does.
fn plugin(command: Command) -> (plugin: Plugin)
    ensures
        plugin.command == command,
        plugin.name@ == command.word(),
        plugin.summary@ == summary_of(command),
{
    let (name, summary) = match command {
        Command::Help => ("help", "show commands"),
        Command::Init => ("init", "create encrypted vault and first master wallet"),
        Command::New => ("new", "derive a wallet or create a new master"),
        Command::Import => ("import", "import a mnemonic or private key"),
        Command::Export => (
            "export",
            "show a private key or recovery phrase, with confirmation",
        ),
        Command::List => ("list", "list wallets and balances"),
        Command::Delete => (
            "delete",
            "delete a local wallet; optionally erase its unused recovery phrase",
        ),
        Command::History => ("history", "show recent signatures"),
        Command::Transfer => ("transfer", "send SOL"),
        Command::TokenTransfer => ("token-transfer", "send SPL tokens"),
        Command::CloseAta => ("close-ata", "close empty ATAs, optionally burn balances first"),
        Command::Lock => ("lock", "clear the unlocked session key"),
        Command::Ui => ("ui", "(future version)"),
    };
    Plugin { command, name, summary }
}

/// What a command does, in words.
pub open spec fn summary_of(command: Command) -> Seq<char> {
    match command {
        Command::Help => "show commands"@,
        Command::Init => "create encrypted vault and first master wallet"@,
        Command::New => "derive a wallet or create a new master"@,
        Command::Import => "import a mnemonic or private key"@,
        Command::Export => "show a private key or recovery phrase, with confirmation"@,
        Command::List => "list wallets and balances"@,
        Command::Delete => "delete a local wallet; optionally erase its unused recovery phrase"@,
        Command::History => "show recent signatures"@,
        Command::Transfer => "send SOL"@,
        Command::TokenTransfer => "send SPL tokens"@,
        Command::CloseAta => "close empty ATAs, optionally burn balances first"@,
        Command::Lock => "clear the unlocked session key"@,
        Command::Ui => "(future version)"@,
    }
}

/// The commands in the order in which they are shown.
pub open spec fn all_commands() -> Seq<Command> {
    seq![
        Command::Help,
        Command::Init,
        Command::New,
        Command::Import,
        Command::Export,
        Command::List,
        Command::Delete,
        Command::History,
        Command::Transfer,
        Command::TokenTransfer,
        Command::CloseAta,
        Command::Lock,
        Command::Ui,
    ]
}

/// All commands, in the order in which they are shown.
pub fn plugins() -> (list: Vec<Plugin>)
    ensures
        list@.len() == all_commands().len(),
        forall|i: int|
            0 <= i < list@.len() ==> {
                &&& (#[trigger] list@[i]).command == all_commands()[i]
                &&& list@[i].name@ == all_commands()[i].word()
                &&& list@[i].summary@ == summary_of(all_commands()[i])
            },
{
    let order: [Command; 13] = [
        Command::Help,
        Command::Init,
        Command::New,
        Command::Import,
        Command::Export,
        Command::List,
        Command::Delete,
        Command::History,
        Command::Transfer,
        Command::TokenTransfer,
        Command::CloseAta,
        Command::Lock,
        Command::Ui,
    ];
    assert(order@ =~= all_commands());
    let mut list: Vec<Plugin> = Vec::with_capacity(13);
    let mut i: usize = 0;
    while i < 13
        invariant
            i <= 13,
            order@ == all_commands(),
            list@.len() == i,
            forall|k: int|
                0 <= k < i ==> {
                    &&& (#[trigger] list@[k]).command == all_commands()[k]
                    &&& list@[k].name@ == all_commands()[k].word()
                    &&& list@[k].summary@ == summary_of(all_commands()[k])
                },
        decreases 13 - i,
    {
        list.push(plugin(order[i]));
        i += 1;
    }
    list
}

/// The first command with a word.
pub open spec fn command_of(commands: Seq<Command>, word: Seq<char>) -> Option<Command>
    decreases commands.len(),
{
    if commands.len() == 0 {
        None
    } else if commands[0].word() == word {
        Some(commands[0])
    } else {
        command_of(commands.skip(1), word)
    }
}

/// The command with a word.
pub fn find_command(word: &str) -> (command: Option<Command>)
    ensures
        command == command_of(all_commands(), word@),
{
    let list = plugins();
    let mut i: usize = 0;
    assert(all_commands().skip(0) =~= all_commands());
    while i < list.len()
        invariant
            i <= list@.len(),
            list@.len() == all_commands().len(),
            forall|k: int|
                0 <= k < list@.len() ==> {
                    &&& (#[trigger] list@[k]).command == all_commands()[k]
                    &&& list@[k].name@ == all_commands()[k].word()
                },
            command_of(all_commands(), word@) == command_of(all_commands().skip(i as int), word@),
        decreases list@.len() - i,
    {
        let ghost rest = all_commands().skip(i as int);
        assert(rest[0] == all_commands()[i as int]);
        assert(rest.skip(1) =~= all_commands().skip(i + 1));
        assert(list@[i as int].name@ == all_commands()[i as int].word());
        if same(list[i].name, word) {
            return Some(list[i].command);
        }
        i += 1;
    }
    None
}

/// A text with spaces behind it, up to a width.
pub open spec fn padded_to(text: Seq<char>, width: nat) -> Seq<char>
    decreases width - text.len(),
{
    if text.len() >= width {
        text
    } else {
        padded_to(text.push(' '), width)
    }
}

/// The line about a command in the help.
pub open spec fn help_line(command: Command) -> Seq<char> {
    "  "@ + padded_to(command.word(), 15) + " "@ + summary_of(command) + "\n"@
}

/// The lines about commands in the help.
pub open spec fn help_lines(commands: Seq<Command>) -> Seq<char>
    decreases commands.len(),
{
    if commands.len() == 0 {
        Seq::empty()
    } else {
        help_lines(commands.drop_last()) + help_line(commands.last())
    }
}

/// Appends a text with spaces behind it, up to a width.
fn push_padded(out: &mut String, text: &str, width: usize)
    ensures
        final(out)@ == old(out)@ + padded_to(text@, width as nat),
{
    let mut n: usize = text.unicode_len();
    let ghost mut shown: Seq<char> = text@;
    out.append(text);
    while n < width
        invariant
            n == shown.len(),
            out@ == old(out)@ + shown,
            padded_to(text@, width as nat) == padded_to(shown, width as nat),
        decreases width - n,
    {
        out.push(' ');
        proof {
            assert(out@ =~= old(out)@ + shown.push(' '));
            shown = shown.push(' ');
        }
        n += 1;
    }
}

/// The help.
pub fn help(args: &[String]) -> (text: Result<String, Error>)
    ensures
        args@.len() > 0 ==> text == Err::<String, Error>(Error::UnexpectedArguments),
        args@.len() == 0 ==> (text matches Ok(t) && t@
            == "Usage: solx [--config PATH] <command> [options]\n       solx shell\n       solx   (opens CLI shell)\n"@
            + help_lines(all_commands())
            + "\nCommands:\n  solx init [NAME]\n  solx new NAME [--new-master]\n  solx import NAME (--mnemonic | --base58 [KEY] | --keypair-file PATH)\n  solx export NAME (--private-key | --mnemonic)\n  solx list [--wallet NAME]\n  solx delete NAME\n  solx history [--wallet NAME] [--limit N]\n  solx transfer --wallet NAME --to ADDRESS --amount SOL|ALL\n  solx token-transfer --wallet NAME --mint MINT --to ADDRESS --amount TOKENS\n  solx close-ata [--wallet NAME] [--burn] (--all | MINT [MINT ...])\n"@),
{
    if let Err(error) = no_args(args) {
        return Err(error);
    }
    let mut text =
        "Usage: solx [--config PATH] <command> [options]\n       solx shell\n       solx   (opens CLI shell)\n".to_owned();
    let ghost head = text@;
    let list = plugins();
    assert(all_commands().take(0) =~= Seq::empty());
    assert(text@ =~= head + help_lines(all_commands().take(0)));
    let mut i: usize = 0;
    while i < list.len()
        invariant
            i <= list@.len(),
            list@.len() == all_commands().len(),
            forall|k: int|
                0 <= k < list@.len() ==> {
                    &&& (#[trigger] list@[k]).name@ == all_commands()[k].word()
                    &&& list@[k].summary@ == summary_of(all_commands()[k])
                },
            text@ == head + help_lines(all_commands().take(i as int)),
        decreases list@.len() - i,
    {
        let mut line = "  ".to_owned();
        push_padded(&mut line, list[i].name, 15);
        line = line.concat(" ").concat(list[i].summary).concat("\n");
        proof {
            let command = all_commands()[i as int];
            assert(list@[i as int].name@ == command.word());
            assert(line@ =~= help_line(command));
            assert(all_commands().take(i + 1).drop_last() =~= all_commands().take(i as int));
        }
        text.append(line.as_str());
        assert(text@ =~= head + help_lines(all_commands().take(i + 1)));
        i += 1;
    }
    assert(all_commands().take(i as int) =~= all_commands());
    Ok(
        text.concat(
            "\nCommands:\n  solx init [NAME]\n  solx new NAME [--new-master]\n  solx import NAME (--mnemonic | --base58 [KEY] | --keypair-file PATH)\n  solx export NAME (--private-key | --mnemonic)\n  solx list [--wallet NAME]\n  solx delete NAME\n  solx history [--wallet NAME] [--limit N]\n  solx transfer --wallet NAME --to ADDRESS --amount SOL|ALL\n  solx token-transfer --wallet NAME --mint MINT --to ADDRESS --amount TOKENS\n  solx close-ata [--wallet NAME] [--burn] (--all | MINT [MINT ...])\n",
        ),
    )
}

/// The graphical interface, which is not there yet.
pub fn ui(args: &[String]) -> (result: Result<(), Error>)
    ensures
        args@.len() > 0 ==> result == Err::<(), Error>(Error::UnexpectedArguments),
        args@.len() == 0 ==> result == Err::<(), Error>(Error::UiLater),
{
    if let Err(error) = no_args(args) {
        return Err(error);
    }
    Err(Error::UiLater)
}

// ---------------------------------------------------------------------------------------------
// Starting
// ---------------------------------------------------------------------------------------------
/// The path of the configuration, where it is given, and the arguments behind it.
pub fn split_config(args: Vec<String>) -> (parts: Result<(Option<String>, Vec<String>), Error>)
    ensures
        ({
            let texts = string_views(args@);
            if texts.len() > 0 && texts[0] == "--config"@ {
                if texts.len() < 2 {
                    parts == Err::<(Option<String>, Vec<String>), Error>(Error::ConfigNeedsPath)
                } else {
                    parts matches Ok(p) && (p.0 matches Some(path) && path@ == texts[1])
                        && string_views(p.1@) == texts.skip(2)
                }
            } else {
                parts matches Ok(p) && p.0 is None && string_views(p.1@) == texts
            }
        }),
{
    let mut args = args;
    let ghost texts = string_views(args@);
    if args.len() > 0 {
        assert(texts[0] == args@[0]@);
        if same(args[0].as_str(), "--config") {
            if args.len() < 2 {
                return Err(Error::ConfigNeedsPath);
            }
            assert(texts[1] == args@[1]@);
            let path = args.remove(1);
            let _ = args.remove(0);
            assert(string_views(args@) =~= texts.skip(2));
            return Ok((Some(path), args));
        }
    }
    Ok((None, args))
}

/// How the program starts.
#[derive(Clone, Copy, Debug, PartialEq, Eq, Structural)]
pub enum Start {
    Shell,
    Command,
}

/// How the program starts with some arguments.
pub fn start(mode: Mode, args: &[String]) -> (how: Result<Start, Error>)
    ensures
        if args@.len() == 0 {
            if mode == Mode::Cli {
                how == Ok::<Start, Error>(Start::Shell)
            } else {
                how == Err::<Start, Error>(Error::UiSoon)
            }
        } else if args@[0]@ == "shell"@ {
            how == Ok::<Start, Error>(Start::Shell)
        } else {
            how == Ok::<Start, Error>(Start::Command)
        },
{
    if args.len() == 0 {
        return match mode {
            Mode::Cli => Ok(Start::Shell),
            Mode::Ui => Err(Error::UiSoon),
        };
    }
    if same(args[0].as_str(), "shell") {
        Ok(Start::Shell)
    } else {
        Ok(Start::Command)
    }
}

// ---------------------------------------------------------------------------------------------
// The program
// ---------------------------------------------------------------------------------------------
/// The state of the program.
pub struct App {
    pub config: Config,
    pub session: Option<Session>,
    pub shell: bool,
}

/// A command that is to be run, with its arguments.
pub struct Run {
    pub command: Command,
    pub args: Vec<String>,
}

/// A wallet whose history is shown: its name and, where the vault has it, its address.
pub struct HistoryEntry {
    pub name: String,
    pub address: Option<Pubkey>,
}

impl View for HistoryEntry {
    type V = (Seq<char>, Option<Seq<u8>>);

    open spec fn view(&self) -> (Seq<char>, Option<Seq<u8>>) {
        (
            self.name@,
            match self.address {
                Some(address) => Some(address@),
                None => None,
            },
        )
    }
}

/// The wallets whose history is shown.
pub open spec fn history_entries(vault: VaultView, wallets: Seq<Seq<char>>) -> Seq<
    (Seq<char>, Option<Seq<u8>>),
> {
    wallets.map_values(
        |name: Seq<char>|
            (
                name,
                match vault.account(name) {
                    Some(account) => Some(account.pubkey),
                    None => None,
                },
            ),
    )
}

impl App {
    /// Only the session differs, and it is the same or locked.
    pub open spec fn same_but_session(&self, other: App) -> bool {
        self.config == other.config && self.shell == other.shell
    }

    /// What is left of a session when an operation is over.
    pub open spec fn kept_session(&self) -> Option<Session> {
        if self.config.security.cache_unlocked_in_shell {
            self.session
        } else {
            None
        }
    }

    /// An operation is over: the session is locked again, unless it may stay unlocked.
    pub fn end_operation(&mut self)
        ensures
            final(self).same_but_session(*old(self)),
            final(self).session == old(self).kept_session(),
    {
        if !self.config.security.cache_unlocked_in_shell {
            self.session = None;
        }
    }

    /// Locks the session.
    pub fn lock(&mut self)
        ensures
            final(self).same_but_session(*old(self)),
            final(self).session is None,
    {
        self.session = None;
    }

    /// Keeps the session of a new vault, in a shell that may stay unlocked.
    pub fn keep_session(&mut self, session: Session)
        ensures
            final(self).same_but_session(*old(self)),
            final(self).session == if old(self).shell
                && old(self).config.security.cache_unlocked_in_shell {
                Some(session)
            } else {
                old(self).session
            },
    {
        if self.shell && self.config.security.cache_unlocked_in_shell {
            self.session = Some(session);
        }
    }

    /// The command that some words ask for. Where there is nothing to run, the operation is over.
    pub fn dispatch_resolved(&mut self, words: &[String]) -> (run: Result<Option<Run>, Error>)
        ensures
            final(self).same_but_session(*old(self)),
            ({
                let texts = string_views(words@);
                if texts.len() == 0 {
                    run matches Ok(None) && final(self).session == old(self).kept_session()
                } else {
                    match command_of(all_commands(), texts[0]) {
                        None => (run matches Err(Error::UnknownCommand(w)) && w@ == texts[0])
                            && final(self).session == old(self).kept_session(),
                        Some(command) => (run matches Ok(Some(r)) && r.command == command
                            && string_views(r.args@) == texts.skip(1)) && final(self).session
                            == old(self).session,
                    }
                }
            }),
    {
        if words.len() == 0 {
            self.end_operation();
            return Ok(None);
        }
        let ghost texts = string_views(words@);
        assert(texts[0] == words@[0]@);
        match find_command(words[0].as_str()) {
            Some(command) => {
                let mut args: Vec<String> = Vec::with_capacity(words.len() - 1);
                let mut i: usize = 1;
                assert(string_views(args@) =~= texts.skip(1).take(0));
                while i < words.len()
                    invariant
                        1 <= i <= words@.len(),
                        texts == string_views(words@),
                        string_views(args@) == texts.skip(1).take(i - 1),
                    decreases words@.len() - i,
                {
                    let ghost before = args@;
                    args.push(words[i].clone());
                    assert(string_views(args@) =~= string_views(before).push(words@[i as int]@));
                    assert(texts.skip(1).take(i as int) =~= texts.skip(1).take(i - 1).push(
                        words@[i as int]@,
                    ));
                    i += 1;
                }
                assert(texts.skip(1).take(i - 1) =~= texts.skip(1));
                Ok(Some(Run { command, args }))
            },
            None => {
                self.end_operation();
                Err(Error::UnknownCommand(words[0].clone()))
            },
        }
    }

    /// The command that some words ask for, once an alias at the front is expanded.
    pub fn dispatch(&mut self, words: &[String]) -> (run: Result<Option<Run>, Error>)
        ensures
            final(self).same_but_session(*old(self)),
            ({
                let texts = old(self).config.expanded(string_views(words@));
                if texts.len() == 0 {
                    run matches Ok(None) && final(self).session == old(self).kept_session()
                } else {
                    match command_of(all_commands(), texts[0]) {
                        None => (run matches Err(Error::UnknownCommand(w)) && w@ == texts[0])
                            && final(self).session == old(self).kept_session(),
                        Some(command) => (run matches Ok(Some(r)) && r.command == command
                            && string_views(r.args@) == texts.skip(1)) && final(self).session
                            == old(self).session,
                    }
                }
            }),
    {
        match self.config.expand_alias(words) {
            Ok(expanded) => self.dispatch_resolved(expanded.as_slice()),
            Err(error) => Err(error),
        }
    }

    /// Begins a shell. Tells whether the history is shown at once; otherwise the time until it is due
    /// starts now.
    pub fn enter_shell(&mut self) -> (fetch: bool)
        ensures
            final(self).shell,
            final(self).config == old(self).config,
            final(self).session == old(self).session,
            fetch == old(self).config.history.fetch_on_start,
    {
        self.shell = true;
        self.config.history.fetch_on_start
    }

    /// The wallets whose history is shown, in order: those of the configuration, each with its
    /// address where the vault has it.
    pub fn configured_history(&self, vault: &Vault) -> (entries: Vec<HistoryEntry>)
        ensures
            entries@.map_values(|e: HistoryEntry| e@) == history_entries(
                vault@,
                string_views(self.config.history.wallets@),
            ),
    {
        let wallets = &self.config.history.wallets;
        let ghost wanted = history_entries(vault@, string_views(wallets@));
        let mut entries: Vec<HistoryEntry> = Vec::with_capacity(wallets.len());
        let mut i: usize = 0;
        assert(entries@.map_values(|e: HistoryEntry| e@) =~= wanted.take(0));
        while i < wallets.len()
            invariant
                i <= wallets@.len(),
                wanted == history_entries(vault@, string_views(wallets@)),
                entries@.map_values(|e: HistoryEntry| e@) == wanted.take(i as int),
            decreases wallets@.len() - i,
        {
            let name = wallets[i].clone();
            let address: Option<Pubkey> = match vault.account(name.as_str()) {
                Ok(account) => Some(account.pubkey),
                Err(_) => None,
            };
            let ghost before = entries@;
            let entry = HistoryEntry { name, address };
            entries.push(entry);
            proof {
                assert(string_views(wallets@)[i as int] == wallets@[i as int]@);
                assert(wanted[i as int] == entry@);
                assert(entries@.map_values(|e: HistoryEntry| e@) =~= before.map_values(
                    |e: HistoryEntry| e@,
                ).push(entry@));
                assert(wanted.take(i + 1) =~= wanted.take(i as int).push(wanted[i as int]));
            }
            i += 1;
        }
        assert(wanted.take(i as int) =~= wanted);
        entries
    }

    /// The history is shown: it was asked for, or enough seconds have passed since the last time,
    /// and there are wallets to show it for.
    pub open spec fn history_due(&self, force: bool, elapsed: Option<u64>) -> bool {
        let history = self.config.history;
        &&& force || (history.interval_secs matches Some(interval) && (elapsed matches Some(secs)
            ==> secs >= interval))
        &&& history.wallets@.len() > 0
    }

    /// Tells whether to show the history now. Where not, the operation is over.
    pub fn refresh_history(&mut self, force: bool, elapsed: Option<u64>) -> (due: bool)
        ensures
            final(self).same_but_session(*old(self)),
            due == old(self).history_due(force, elapsed),
            final(self).session == if due {
                old(self).session
            } else {
                old(self).kept_session()
            },
    {
        let wanted = if force {
            true
        } else {
            match self.config.history.interval_secs {
                Some(interval) => match elapsed {
                    Some(secs) => secs >= interval,
                    None => true,
                },
                None => false,
            }
        };
        let due = wanted && self.config.history.wallets.len() > 0;
        if !due {
            self.end_operation();
        }
        due
    }

    /// Takes a line of the shell: the words of the command, with an alias expanded, or none where
    /// the shell is left. The line is remembered, unless it may hold a secret.
    pub fn shell_line(&self, history: &mut CommandHistory, line: &str) -> (command: Option<
        Vec<String>,
    >)
        requires
            old(history)@.wf(),
        ensures
            final(history)@.wf(),
            ({
                let typed = words_of(line@);
                if typed.len() > 0 && (typed[0] == "exit"@ || typed[0] == "quit"@) {
                    command is None && final(history)@ == old(history)@
                } else {
                    let resolved = self.config.expanded(typed);
                    (command matches Some(c) && string_views(c@) == resolved) && final(history)@ == (
                    HistoryView {
                        entries: remembered(old(history)@.entries, line@, resolved),
                        ..old(history)@
                    })
                }
            }),
    {
        let typed = words(line);
        if typed.len() > 0 {
            assert(string_views(typed@)[0] == typed@[0]@);
            if same(typed[0].as_str(), "exit") || same(typed[0].as_str(), "quit") {
                return None;
            }
        }
        match self.config.expand_alias(typed.as_slice()) {
            Ok(resolved) => {
                history.remember(line, resolved.as_slice());
                Some(resolved)
            },
            Err(_) => None,
        }
    }
}

/// The line about a wallet of the configuration that the vault does not have.
pub fn skipped_wallet(name: &str) -> (text: String)
    ensures
        text@ == "History: skipping unknown wallet '"@ + name@ + "'.\n"@,
{
    "History: skipping unknown wallet '".to_owned().concat(name).concat("'.\n")
}

// ---------------------------------------------------------------------------------------------
// Laws
// ---------------------------------------------------------------------------------------------
/// Every command has its own word, by which it is found, and no other word finds one.
pub proof fn every_command_has_its_word(command: Command)
    ensures
        command_of(all_commands(), command.word()) == Some(command),
        command.word() == match command {
            Command::Help => "help"@,
            Command::Init => "init"@,
            Command::New => "new"@,
            Command::Import => "import"@,
            Command::Export => "export"@,
            Command::List => "list"@,
            Command::Delete => "delete"@,
            Command::History => "history"@,
            Command::Transfer => "transfer"@,
            Command::TokenTransfer => "token-transfer"@,
            Command::CloseAta => "close-ata"@,
            Command::Lock => "lock"@,
            Command::Ui => "ui"@,
        },
{
    let all = all_commands();
    let at = command_position(command);
    assert(all[at] == command);
    assert forall|i: int| 0 <= i < at implies (#[trigger] all[i]).word() != command.word() by {
        lemma_words_differ(all[i], command);
    }
    lemma_command_of(all, command.word(), at);
}

/// A word that finds a command is that command's word.
pub proof fn commands_are_found_by_their_word(commands: Seq<Command>, word: Seq<char>)
    ensures
        command_of(commands, word) matches Some(command) ==> command.word() == word
            && commands.contains(command),
    decreases commands.len(),
{
    if commands.len() > 0 {
        commands_are_found_by_their_word(commands.skip(1), word);
        assert(commands.contains(commands[0]));
        if let Some(command) = command_of(commands.skip(1), word) {
            let i = choose|i: int|
                0 <= i < commands.skip(1).len() && commands.skip(1)[i] == command;
            assert(commands[i + 1] == command);
        }
    }
}

spec fn command_position(command: Command) -> int {
    match command {
        Command::Help => 0,
        Command::Init => 1,
        Command::New => 2,
        Command::Import => 3,
        Command::Export => 4,
        Command::List => 5,
        Command::Delete => 6,
        Command::History => 7,
        Command::Transfer => 8,
        Command::TokenTransfer => 9,
        Command::CloseAta => 10,
        Command::Lock => 11,
        Command::Ui => 12,
    }
}

proof fn lemma_command_of(commands: Seq<Command>, word: Seq<char>, at: int)
    requires
        0 <= at < commands.len(),
        commands[at].word() == word,
        forall|i: int| 0 <= i < at ==> (#[trigger] commands[i]).word() != word,
    ensures
        command_of(commands, word) == Some(commands[at]),
    decreases commands.len(),
{
    if at > 0 {
        let rest = commands.skip(1);
        assert(commands[0].word() != word);
        assert forall|i: int| 0 <= i < at - 1 implies (#[trigger] rest[i]).word() != word by {
            assert(rest[i] == commands[i + 1]);
        }
        lemma_command_of(rest, word, at - 1);
    }
}

proof fn lemma_words_differ(a: Command, b: Command)
    requires
        a != b,
    ensures
        a.word() != b.word(),
{
    reveal_strlit("help");
    reveal_strlit("init");
    reveal_strlit("new");
    reveal_strlit("import");
    reveal_strlit("export");
    reveal_strlit("list");
    reveal_strlit("delete");
    reveal_strlit("history");
    reveal_strlit("transfer");
    reveal_strlit("token-transfer");
    reveal_strlit("close-ata");
    reveal_strlit("lock");
    reveal_strlit("ui");
    assert("help"@.len() == 4 && "init"@.len() == 4 && "list"@.len() == 4 && "lock"@.len() == 4);
    assert("import"@.len() == 6 && "export"@.len() == 6 && "delete"@.len() == 6);
    assert("new"@.len() == 3 && "history"@.len() == 7 && "transfer"@.len() == 8);
    assert("token-transfer"@.len() == 14 && "close-ata"@.len() == 9 && "ui"@.len() == 2);
    assert("help"@[0] == 'h' && "init"@[0] == 'i' && "list"@[0] == 'l' && "lock"@[0] == 'l');
    assert("list"@[1] == 'i' && "lock"@[1] == 'o');
    assert("import"@[0] == 'i' && "export"@[0] == 'e' && "delete"@[0] == 'd');
}

/// The help has a line for every command, in order: its word, padded, and what it does.
pub proof fn the_help_names_every_command(commands: Seq<Command>, command: Command)
    ensures
        help_lines(commands.push(command)) == help_lines(commands) + help_line(command),
        has_prefix(help_line(command), "  "@ + command.word()),
{
    assert(commands.push(command).drop_last() =~= commands);
    lemma_padded_prefix(command.word(), 15);
    let word = command.word();
    let padded = padded_to(word, 15);
    let line = help_line(command);
    assert(line.subrange(0, 2 + word.len() as int) =~= "  "@ + word) by {
        reveal_strlit("  ");
        assert(padded.take(word.len() as int) =~= word);
        assert forall|i: int| 0 <= i < word.len() implies line[2 + i] == #[trigger] word[i] by {
            assert(padded.take(word.len() as int)[i] == padded[i]);
        }
    }
    reveal_strlit("  ");
}

proof fn lemma_padded_prefix(text: Seq<char>, width: nat)
    ensures
        padded_to(text, width).len() >= text.len(),
        padded_to(text, width).take(text.len() as int) == text,
    decreases width - text.len(),
{
    if text.len() < width {
        lemma_padded_prefix(text.push(' '), width);
        let padded = padded_to(text, width);
        assert(padded.take(text.len() as int) =~= padded.take((text.len() + 1) as int).take(
            text.len() as int,
        ));
        assert(text.push(' ').take(text.len() as int) =~= text);
    } else {
        assert(text.take(text.len() as int) =~= text);
    }
}

/// The history is shown where it was asked for or its time has come, if there is a wallet to show.
/// Without an interval it never comes by itself, and before the first time it is always due.
pub proof fn the_history_is_due_in_time(app: App, force: bool, elapsed: Option<u64>)
    ensures
        app.config.history.wallets@.len() == 0 ==> !app.history_due(force, elapsed),
        app.config.history.wallets@.len() > 0 ==> {
            &&& force ==> app.history_due(force, elapsed)
            &&& !force && app.config.history.interval_secs is None ==> !app.history_due(
                force,
                elapsed,
            )
            &&& !force && app.config.history.interval_secs is Some && elapsed is None
                ==> app.history_due(force, elapsed)
            &&& !force && app.config.history.interval_secs is Some && elapsed is Some
                ==> app.history_due(force, elapsed) == (elapsed->Some_0
                >= app.config.history.interval_secs->Some_0)
        },
{
}

/// A session outlives an operation only where it may stay unlocked.
pub proof fn sessions_are_locked_unless_they_may_stay(app: App)
    ensures
        !app.config.security.cache_unlocked_in_shell ==> app.kept_session() is None,
        app.config.security.cache_unlocked_in_shell ==> app.kept_session() == app.session,
{
}

/// The wallets whose history is shown are those of the configuration, in order, each with the
/// address that the vault has for it.
pub proof fn the_configured_wallets_are_shown(vault: VaultView, wallets: Seq<Seq<char>>, i: int)
    requires
        0 <= i < wallets.len(),
    ensures
        history_entries(vault, wallets).len() == wallets.len(),
        history_entries(vault, wallets)[i].0 == wallets[i],
        vault.account(wallets[i]) is None ==> history_entries(vault, wallets)[i].1 is None,
        vault.account(wallets[i]) is Some ==> history_entries(vault, wallets)[i].1 == Some(
            vault.account(wallets[i])->Some_0.pubkey,
        ),
{
}

} // verus!
