//! The configuration and its rules.
use std::time::Duration;
use vstd::prelude::*;
use vstd::string::*;
use vstd::utf8::*;

use crate::edit_line::lemma_encode_concat;
use crate::error::Error;
use crate::name::{is_name, valid_name};
use crate::text::{has_prefix, same, string_views, strip_prefix};

verus! {

/// The largest configuration file that is read.
pub const MAX_CONFIG: u64 = 64 * 1024;

// ---------------------------------------------------------------------------------------------
// What the outside crates and the standard library compute
// ---------------------------------------------------------------------------------------------
/// The parts of a URL: the scheme, the host, the user name and whether there is a password. For a
/// text that is no URL, the message that says why.
pub uninterp spec fn url_parts(text: Seq<char>) -> Result<
    (Seq<char>, Option<Seq<char>>, Seq<char>, bool),
    Seq<char>,
>;

/// A span of whole seconds.
pub uninterp spec fn seconds(n: u64) -> Duration;

/// The parts of a URL that the rules look at.
pub struct UrlParts {
    pub scheme: String,
    pub host: Option<String>,
    pub username: String,
    pub has_password: bool,
}

impl View for UrlParts {
    type V = (Seq<char>, Option<Seq<char>>, Seq<char>, bool);

    open spec fn view(&self) -> (Seq<char>, Option<Seq<char>>, Seq<char>, bool) {
        (
            self.scheme@,
            match self.host {
                Some(host) => Some(host@),
                None => None,
            },
            self.username@,
            self.has_password,
        )
    }
}

/// Calls `reqwest::Url::parse` and reads the scheme, the host, the user name and whether there is a
/// password. What they are for a text, and the message of the error, is only named.
#[verifier::external_body]
pub(crate) fn parse_url(text: &str) -> (parts: Result<UrlParts, String>)
    ensures
        match parts {
            Ok(p) => url_parts(text@) is Ok && url_parts(text@)->Ok_0 == p@,
            Err(message) => url_parts(text@) is Err && url_parts(text@)->Err_0 == message@,
        },
{
    match reqwest::Url::parse(text) {
        Ok(url) => Ok(
            UrlParts {
                scheme: url.scheme().to_owned(),
                host: url.host_str().map(str::to_owned),
                username: url.username().to_owned(),
                has_password: url.password().is_some(),
            },
        ),
        Err(error) => Err(error.to_string()),
    }
}

/// `Duration::from_secs` makes a span of whole seconds, which is only named.
pub assume_specification[ Duration::from_secs ](secs: u64) -> (span: Duration)
    ensures
        span == seconds(secs),
;

// ---------------------------------------------------------------------------------------------
// Aliases
// ---------------------------------------------------------------------------------------------
/// A command alias: a name and the words that it stands for.
pub struct Alias {
    pub name: String,
    pub words: Vec<String>,
}

/// The words of the first alias with a name.
pub open spec fn alias_words(entries: Seq<Alias>, name: Seq<char>) -> Option<Seq<Seq<char>>>
    decreases entries.len(),
{
    if entries.len() == 0 {
        None
    } else if entries[0].name@ == name {
        Some(string_views(entries[0].words@))
    } else {
        alias_words(entries.skip(1), name)
    }
}

/// Command aliases, each name once.
pub struct Aliases {
    entries: Vec<Alias>,
}

impl Aliases {
    /// The aliases.
    pub closed spec fn entries(&self) -> Seq<Alias> {
        self.entries@
    }

    /// No name occurs twice.
    pub open spec fn wf(&self) -> bool {
        forall|i: int, j: int|
            0 <= i < j < self.entries().len() ==> (#[trigger] self.entries()[i]).name@ != (
            #[trigger] self.entries()[j]).name@
    }

    /// The words that a name stands for.
    pub open spec fn words(&self, name: Seq<char>) -> Option<Seq<Seq<char>>> {
        alias_words(self.entries(), name)
    }

    /// No aliases.
    pub fn new() -> (aliases: Self)
        ensures
            aliases.wf(),
            aliases.entries().len() == 0,
            forall|name: Seq<char>| #[trigger] aliases.words(name) is None,
    {
        Aliases { entries: Vec::new() }
    }

    /// The number of aliases.
    pub fn len(&self) -> (n: usize)
        ensures
            n == self.entries().len(),
    {
        self.entries.len()
    }

    /// The position of a name.
    fn find(&self, name: &str) -> (at: Option<usize>)
        ensures
            match at {
                Some(i) => i < self.entries@.len() && self.entries@[i as int].name@ == name@
                    && self.words(name@) == Some(string_views(self.entries@[i as int].words@)),
                None => self.words(name@) is None && forall|k: int|
                    0 <= k < self.entries@.len() ==> (#[trigger] self.entries@[k]).name@ != name@,
            },
    {
        let mut i: usize = 0;
        assert(self.entries@.skip(0) =~= self.entries@);
        while i < self.entries.len()
            invariant
                i <= self.entries@.len(),
                self.words(name@) == alias_words(self.entries@.skip(i as int), name@),
                forall|k: int| 0 <= k < i ==> (#[trigger] self.entries@[k]).name@ != name@,
            decreases self.entries@.len() - i,
        {
            assert(self.entries@.skip(i as int)[0] == self.entries@[i as int]);
            assert(self.entries@.skip(i as int).skip(1) =~= self.entries@.skip(i + 1));
            if same(self.entries[i].name.as_str(), name) {
                return Some(i);
            }
            i += 1;
        }
        None
    }

    /// The words that a name stands for.
    pub fn get(&self, name: &str) -> (words: Option<&Vec<String>>)
        ensures
            match self.words(name@) {
                Some(w) => words matches Some(r) && string_views(r@) == w,
                None => words is None,
            },
    {
        match self.find(name) {
            Some(i) => Some(&self.entries[i].words),
            None => None,
        }
    }

    /// Lets a name stand for some words, whatever it stood for before.
    pub fn insert(&mut self, name: String, words: Vec<String>)
        requires
            old(self).wf(),
        ensures
            final(self).wf(),
            forall|other: Seq<char>| #[trigger]
                final(self).words(other) == if other == name@ {
                    Some(string_views(words@))
                } else {
                    old(self).words(other)
                },
            final(self).entries().len() == old(self).entries().len() + if old(self).words(
                name@,
            ) is None {
                1int
            } else {
                0int
            },
    {
        let ghost before = self.entries@;
        match self.find(name.as_str()) {
            Some(i) => {
                self.entries[i].words = words;
                proof {
                    assert forall|other: Seq<char>| #[trigger]
                        self.words(other) == if other == name@ {
                            Some(string_views(words@))
                        } else {
                            old(self).words(other)
                        } by {
                        lemma_alias_update(before, self.entries@, i as int, other);
                    }
                }
            },
            None => {
                self.entries.push(Alias { name, words });
                proof {
                    let added = self.entries@[before.len() as int];
                    assert(self.entries@ =~= before.push(added));
                    assert forall|other: Seq<char>| #[trigger]
                        self.words(other) == if other == name@ {
                            Some(string_views(words@))
                        } else {
                            old(self).words(other)
                        } by {
                        lemma_alias_push(before, added, other);
                    }
                }
            },
        }
    }
}

proof fn lemma_alias_update(before: Seq<Alias>, after: Seq<Alias>, at: int, name: Seq<char>)
    requires
        0 <= at < before.len(),
        after.len() == before.len(),
        forall|k: int| 0 <= k < before.len() && k != at ==> #[trigger] after[k] == before[k],
        after[at].name == before[at].name,
        forall|i: int, j: int|
            0 <= i < j < before.len() ==> (#[trigger] before[i]).name@ != (
            #[trigger] before[j]).name@,
    ensures
        alias_words(after, name) == if name == before[at].name@ {
            Some(string_views(after[at].words@))
        } else {
            alias_words(before, name)
        },
    decreases before.len(),
{
    if at == 0 {
        if name != before[0].name@ {
            assert(after.skip(1) =~= before.skip(1));
        }
    } else {
        assert(after[0] == before[0]);
        let b = before.skip(1);
        let a = after.skip(1);
        assert forall|k: int| 0 <= k < b.len() && k != at - 1 implies #[trigger] a[k] == b[k] by {
            assert(a[k] == after[k + 1]);
        }
        assert forall|i: int, j: int| 0 <= i < j < b.len() implies (#[trigger] b[i]).name@ != (
        #[trigger] b[j]).name@ by {
            assert(b[i] == before[i + 1]);
            assert(b[j] == before[j + 1]);
        }
        lemma_alias_update(b, a, at - 1, name);
        assert(before[0].name@ != before[at].name@);
    }
}

proof fn lemma_alias_push(before: Seq<Alias>, added: Alias, name: Seq<char>)
    requires
        forall|k: int| 0 <= k < before.len() ==> (#[trigger] before[k]).name@ != added.name@,
    ensures
        alias_words(before.push(added), name) == if name == added.name@ {
            Some(string_views(added.words@))
        } else {
            alias_words(before, name)
        },
    decreases before.len(),
{
    let after = before.push(added);
    if before.len() == 0 {
        assert(after.skip(1) =~= Seq::empty());
        assert(alias_words(after.skip(1), name) is None);
        assert(after[0] == added);
    } else {
        assert(after[0] == before[0]);
        let b = before.skip(1);
        assert forall|k: int| 0 <= k < b.len() implies (#[trigger] b[k]).name@ != added.name@ by {
            assert(b[k] == before[k + 1]);
        }
        lemma_alias_push(b, added, name);
        assert(after.skip(1) =~= b.push(added));
    }
}

// ---------------------------------------------------------------------------------------------
// Places
// ---------------------------------------------------------------------------------------------
/// A place in the file system.
#[derive(Debug, PartialEq, Eq)]
pub enum Location {
    /// The home directory.
    Home,
    /// A path under the home directory.
    UnderHome(String),
    /// A path as it was given.
    Given(String),
}

/// Where the wallet keeps its files.
pub fn default_dir() -> (place: Location)
    ensures
        place matches Location::UnderHome(path) && path@ == ".solx"@,
{
    Location::UnderHome(".solx".to_owned())
}

/// Where the configuration is.
pub fn default_path() -> (place: Location)
    ensures
        place matches Location::UnderHome(path) && path@ == ".solx/config.toml"@,
{
    Location::UnderHome(".solx/config.toml".to_owned())
}

/// The place that a path stands for: `~` is the home directory.
pub fn expand_home(path: &str) -> (place: Location)
    ensures
        if path@ == "~"@ {
            place is Home
        } else if has_prefix(path@, "~/"@) {
            place matches Location::UnderHome(rest) && rest@ == path@.skip("~/"@.len() as int)
        } else {
            place matches Location::Given(given) && given@ == path@
        },
{
    if same(path, "~") {
        return Location::Home;
    }
    match strip_prefix(path, "~/") {
        Some(rest) => Location::UnderHome(rest.to_owned()),
        None => Location::Given(path.to_owned()),
    }
}

/// The home directory: the one that is set, or else the current directory.
pub open spec fn home_bytes(home: Option<Seq<u8>>) -> Seq<u8> {
    match home {
        Some(bytes) => bytes,
        None => seq![0x2eu8],
    }
}

/// A path below a directory, with one slash between them. An absolute path stands for itself.
pub open spec fn path_below(directory: Seq<u8>, path: Seq<u8>) -> Seq<u8> {
    if path.len() > 0 && path[0] == 0x2f {
        path
    } else if directory.len() > 0 && directory.last() != 0x2f {
        directory + seq![0x2fu8] + path
    } else {
        directory + path
    }
}

fn copy_bytes(bytes: &[u8]) -> (copy: Vec<u8>)
    ensures
        copy@ == bytes@,
{
    let mut copy: Vec<u8> = Vec::new();
    copy.extend_from_slice(bytes);
    assert(copy@ =~= bytes@);
    copy
}

/// A path below a directory.
fn join_path(directory: &[u8], path: &[u8]) -> (joined: Vec<u8>)
    ensures
        joined@ == path_below(directory@, path@),
{
    let mut joined: Vec<u8> = Vec::new();
    if !(path.len() > 0 && path[0] == 0x2f) {
        joined.extend_from_slice(directory);
        if directory.len() > 0 && directory[directory.len() - 1] != 0x2f {
            joined.push(0x2f);
        }
    }
    joined.extend_from_slice(path);
    assert(joined@ =~= path_below(directory@, path@));
    joined
}

impl Location {
    /// The path of the place, by the home directory.
    pub open spec fn path(&self, home: Option<Seq<u8>>) -> Seq<u8> {
        match self {
            Location::Home => home_bytes(home),
            Location::UnderHome(path) => path_below(home_bytes(home), encode_utf8(path@)),
            Location::Given(path) => encode_utf8(path@),
        }
    }

    /// The path of the place, by the home directory. Both are bytes, since a home directory need
    /// not be UTF-8. Without a home directory, the current one takes its place.
    pub fn resolve(&self, home: Option<&[u8]>) -> (path: Vec<u8>)
        ensures
            path@ == self.path(
                match home {
                    Some(bytes) => Some(bytes@),
                    None => None,
                },
            ),
    {
        let here: [u8; 1] = [0x2e];
        assert(here@ =~= seq![0x2eu8]);
        let directory = match home {
            Some(bytes) => bytes,
            None => here.as_slice(),
        };
        match self {
            Location::Home => copy_bytes(directory),
            Location::UnderHome(path) => join_path(directory, path.as_str().as_bytes()),
            Location::Given(path) => copy_bytes(path.as_str().as_bytes()),
        }
    }
}

/// The configuration and the vault of the default configuration lie in one directory, `.solx` below
/// the home directory, or below the current one where no home directory is set.
pub proof fn default_files_share_a_directory(home: Option<Seq<u8>>)
    ensures
        ({
            let directory = path_below(home_bytes(home), encode_utf8(".solx"@));
            &&& path_below(home_bytes(home), encode_utf8(".solx/config.toml"@)) == directory
                + encode_utf8("/config.toml"@)
            &&& path_below(home_bytes(home), encode_utf8(".solx/vault.enc"@)) == directory
                + encode_utf8("/vault.enc"@)
            &&& home is None ==> directory == encode_utf8("./.solx"@)
            &&& home matches Some(h) ==> (h.len() > 0 && h.last() != 0x2f ==> directory == h
                + encode_utf8("/.solx"@))
        }),
{
    reveal_strlit(".solx");
    reveal_strlit("/.solx");
    reveal_strlit("./.solx");
    reveal_strlit("/config.toml");
    reveal_strlit("/vault.enc");
    reveal_strlit(".solx/config.toml");
    reveal_strlit(".solx/vault.enc");
    let directory = path_below(home_bytes(home), encode_utf8(".solx"@));
    assert(".solx/config.toml"@ =~= ".solx"@ + "/config.toml"@);
    assert(".solx/vault.enc"@ =~= ".solx"@ + "/vault.enc"@);
    assert("/.solx"@ =~= seq!['/'] + ".solx"@);
    assert("./.solx"@ =~= seq!['.'] + "/.solx"@);
    lemma_encode_concat(".solx"@, "/config.toml"@);
    lemma_encode_concat(".solx"@, "/vault.enc"@);
    lemma_encode_concat(seq!['/'], ".solx"@);
    lemma_encode_concat(seq!['.'], "/.solx"@);
    assert(is_ascii_chars(seq!['/']));
    assert(is_ascii_chars(seq!['.']));
    assert(is_ascii_chars(".solx"@));
    is_ascii_chars_encode_utf8(seq!['/']);
    is_ascii_chars_encode_utf8(seq!['.']);
    is_ascii_chars_encode_utf8(".solx"@);
    assert(encode_utf8(seq!['/']) =~= seq![0x2fu8]);
    assert(encode_utf8(seq!['.']) =~= seq![0x2eu8]);
    assert(encode_utf8(".solx"@)[0] == 0x2e);
    let base = home_bytes(home);
    assert(path_below(base, encode_utf8(".solx/config.toml"@)) =~= directory + encode_utf8(
        "/config.toml"@,
    ));
    assert(path_below(base, encode_utf8(".solx/vault.enc"@)) =~= directory + encode_utf8(
        "/vault.enc"@,
    ));
    if base.len() > 0 && base.last() != 0x2f {
        assert(directory =~= base + encode_utf8("/.solx"@));
    }
}

// ---------------------------------------------------------------------------------------------
// The configuration
// ---------------------------------------------------------------------------------------------
/// How the program runs without a command.
#[derive(Clone, Copy, Debug, PartialEq, Eq, Structural)]
pub enum Mode {
    Cli,
    Ui,
}

impl Default for Mode {
    fn default() -> (mode: Self)
        ensures
            mode == Mode::Cli,
    {
        Mode::Cli
    }
}

/// How to reach the network.
pub struct RpcConfig {
    pub url: Option<String>,
    pub cluster: String,
    pub timeout_secs: u64,
}

impl Default for RpcConfig {
    fn default() -> (config: Self)
        ensures
            config.url is None,
            config.cluster@ == "devnet"@,
            config.timeout_secs == 15,
    {
        RpcConfig { url: None, cluster: "devnet".to_owned(), timeout_secs: 15 }
    }
}

/// What is checked and shown before a transaction is sent.
#[derive(Clone, Copy)]
pub struct SecurityConfig {
    pub confirm_every_transaction: bool,
    pub show_details: bool,
    pub simulate_before_send: bool,
    pub show_simulation: bool,
    pub optimize_compute_units: bool,
    pub compute_unit_margin_percent: u8,
    pub cache_unlocked_in_shell: bool,
}

impl SecurityConfig {
    /// A simulation tells how many compute units to ask for.
    pub open spec fn tunes_limit(&self) -> bool {
        self.simulate_before_send && self.optimize_compute_units
    }

    /// Tells whether a simulation tells how many compute units to ask for.
    pub fn optimizes(&self) -> (yes: bool)
        ensures
            yes == self.tunes_limit(),
    {
        self.simulate_before_send && self.optimize_compute_units
    }
}

impl Default for SecurityConfig {
    fn default() -> (config: Self)
        ensures
            config == (SecurityConfig {
                confirm_every_transaction: true,
                show_details: true,
                simulate_before_send: true,
                show_simulation: true,
                optimize_compute_units: true,
                compute_unit_margin_percent: 10,
                cache_unlocked_in_shell: true,
            }),
    {
        SecurityConfig {
            confirm_every_transaction: true,
            show_details: true,
            simulate_before_send: true,
            show_simulation: true,
            optimize_compute_units: true,
            compute_unit_margin_percent: 10,
            cache_unlocked_in_shell: true,
        }
    }
}

/// Which wallets' history is shown, and when.
pub struct HistoryConfig {
    pub fetch_on_start: bool,
    pub interval_secs: Option<u64>,
    pub wallets: Vec<String>,
    pub limit: usize,
}

impl Default for HistoryConfig {
    fn default() -> (config: Self)
        ensures
            !config.fetch_on_start,
            config.interval_secs is None,
            config.wallets@.len() == 0,
            config.limit == 10,
    {
        HistoryConfig { fetch_on_start: false, interval_secs: None, wallets: Vec::new(), limit: 10 }
    }
}

/// The configuration.
pub struct Config {
    pub vault: Location,
    pub mode: Mode,
    pub rpc: RpcConfig,
    pub security: SecurityConfig,
    pub history: HistoryConfig,
    pub aliases: Aliases,
}

impl Default for Config {
    fn default() -> (config: Self)
        ensures
            config.vault matches Location::UnderHome(path) && path@ == ".solx/vault.enc"@,
            config.mode == Mode::Cli,
            config.rpc.url is None,
            config.rpc.cluster@ == "devnet"@,
            config.rpc.timeout_secs == 15,
            config.security == (SecurityConfig {
                confirm_every_transaction: true,
                show_details: true,
                simulate_before_send: true,
                show_simulation: true,
                optimize_compute_units: true,
                compute_unit_margin_percent: 10,
                cache_unlocked_in_shell: true,
            }),
            !config.history.fetch_on_start,
            config.history.interval_secs is None,
            config.history.wallets@.len() == 0,
            config.history.limit == 10,
            config.aliases.wf(),
            config.aliases.entries().len() == 0,
            config.refused() is None,
    {
        Config {
            vault: Location::UnderHome(".solx/vault.enc".to_owned()),
            mode: Mode::Cli,
            rpc: RpcConfig::default(),
            security: SecurityConfig::default(),
            history: HistoryConfig::default(),
            aliases: Aliases::new(),
        }
    }
}

/// A name and at most 16 words, each of at most 256 bytes.
pub open spec fn alias_valid(alias: Alias) -> bool {
    &&& is_name(alias.name@)
    &&& 1 <= alias.words@.len() <= 16
    &&& forall|i: int|
        0 <= i < alias.words@.len() ==> encode_utf8((#[trigger] alias.words@[i])@).len() <= 256
}

/// The names of this machine.
pub open spec fn is_loopback(host: Option<Seq<char>>) -> bool {
    host matches Some(h) && (h == "127.0.0.1"@ || h == "localhost"@ || h == "[::1]"@ || h
        == "::1"@)
}

/// Why a URL is not accepted, by its parts.
pub open spec fn url_refused(parts: (Seq<char>, Option<Seq<char>>, Seq<char>, bool)) -> Option<
    Error,
> {
    let (scheme, host, username, has_password) = parts;
    if scheme != "https"@ && !(scheme == "http"@ && is_loopback(host)) {
        Some(Error::RpcNotHttps)
    } else if username.len() > 0 || has_password {
        Some(Error::RpcCredentials)
    } else {
        None
    }
}

/// Checks the parts of a URL: HTTPS, or HTTP on this machine, and no credentials.
pub fn check_url(parts: &UrlParts) -> (result: Result<(), Error>)
    ensures
        match url_refused(parts@) {
            Some(error) => result == Err::<(), Error>(error),
            None => result is Ok,
        },
{
    let local = match &parts.host {
        Some(host) => {
            let host = host.as_str();
            same(host, "127.0.0.1") || same(host, "localhost") || same(host, "[::1]") || same(
                host,
                "::1",
            )
        },
        None => false,
    };
    let scheme = parts.scheme.as_str();
    if !same(scheme, "https") && !(same(scheme, "http") && local) {
        return Err(Error::RpcNotHttps);
    }
    if !parts.username.as_str().is_empty() || parts.has_password {
        return Err(Error::RpcCredentials);
    }
    Ok(())
}

/// Checks the length of a configuration file.
pub fn check_config_size(len: u64) -> (result: Result<(), Error>)
    ensures
        len > MAX_CONFIG ==> result == Err::<(), Error>(Error::ConfigTooLarge),
        len <= MAX_CONFIG ==> result is Ok,
{
    if len > MAX_CONFIG {
        Err(Error::ConfigTooLarge)
    } else {
        Ok(())
    }
}

impl Config {
    /// Why a configuration is not accepted, the URL left aside.
    pub open spec fn refused(&self) -> Option<Error> {
        if !(1 <= self.rpc.timeout_secs <= 120) {
            Some(Error::RpcTimeout)
        } else if !(1 <= self.history.limit <= 100) {
            Some(Error::HistoryLimit)
        } else if self.security.compute_unit_margin_percent > 100 {
            Some(Error::ComputeMargin)
        } else if self.history.wallets@.len() > 16 {
            Some(Error::HistoryWallets)
        } else if self.history.interval_secs matches Some(interval) && interval < 10 {
            Some(Error::HistoryInterval)
        } else if self.aliases.entries().len() > 64 {
            Some(Error::TooManyAliases)
        } else if exists|i: int|
            0 <= i < self.aliases.entries().len() && !alias_valid(
                #[trigger] self.aliases.entries()[i],
            ) {
            Some(Error::InvalidAlias)
        } else {
            None
        }
    }

    /// Checks the configuration.
    pub fn validate(&self) -> (result: Result<(), Error>)
        ensures
            match self.refused() {
                Some(error) => result == Err::<(), Error>(error),
                None => match self.rpc.url {
                    None => result is Ok,
                    Some(url) => match url_parts(url@) {
                        Err(message) => result matches Err(Error::Outside(m)) && m@ == message,
                        Ok(parts) => match url_refused(parts) {
                            Some(error) => result == Err::<(), Error>(error),
                            None => result is Ok,
                        },
                    },
                },
            },
    {
        if !(1 <= self.rpc.timeout_secs && self.rpc.timeout_secs <= 120) {
            return Err(Error::RpcTimeout);
        }
        if !(1 <= self.history.limit && self.history.limit <= 100) {
            return Err(Error::HistoryLimit);
        }
        if self.security.compute_unit_margin_percent > 100 {
            return Err(Error::ComputeMargin);
        }
        if self.history.wallets.len() > 16 {
            return Err(Error::HistoryWallets);
        }
        if let Some(interval) = self.history.interval_secs {
            if interval < 10 {
                return Err(Error::HistoryInterval);
            }
        }
        if self.aliases.len() > 64 {
            return Err(Error::TooManyAliases);
        }
        if !self.aliases.all_valid() {
            return Err(Error::InvalidAlias);
        }
        match &self.rpc.url {
            Some(url) => match parse_url(url.as_str()) {
                Ok(parts) => check_url(&parts),
                Err(message) => Err(Error::Outside(message)),
            },
            None => Ok(()),
        }
    }

    /// How long a request may take.
    pub fn rpc_timeout(&self) -> (span: Duration)
        ensures
            span == seconds(self.rpc.timeout_secs),
    {
        Duration::from_secs(self.rpc.timeout_secs)
    }

    /// The words of a command, with an alias at the front replaced by what it stands for. What it
    /// stands for is not expanded again.
    pub fn expand_alias(&self, args: &[String]) -> (words: Result<Vec<String>, Error>)
        ensures
            words matches Ok(w) && string_views(w@) == self.expanded(string_views(args@)),
    {
        if args.len() == 0 {
            let none: Vec<String> = Vec::new();
            assert(string_views(none@) =~= string_views(args@));
            return Ok(none);
        }
        assert(string_views(args@)[0] == args@[0]@);
        let mut words: Vec<String> = Vec::new();
        match self.aliases.get(args[0].as_str()) {
            Some(prefix) => {
                push_all(&mut words, prefix.as_slice());
                push_all(&mut words, &args[1..args.len()]);
                assert(args@.subrange(1, args@.len() as int) =~= args@.skip(1));
                assert(string_views(args@.skip(1)) =~= string_views(args@).skip(1));
                assert(string_views(words@) =~= string_views(prefix@) + string_views(
                    args@,
                ).skip(1));
            },
            None => {
                push_all(&mut words, args);
                assert(string_views(words@) =~= string_views(args@));
            },
        }
        Ok(words)
    }

    /// The words of a command, with an alias at the front replaced by what it stands for.
    pub open spec fn expanded(&self, args: Seq<Seq<char>>) -> Seq<Seq<char>> {
        if args.len() == 0 {
            args
        } else {
            match self.aliases.words(args[0]) {
                Some(prefix) => prefix + args.skip(1),
                None => args,
            }
        }
    }
}

impl Aliases {
    /// Tells whether every alias is valid.
    fn all_valid(&self) -> (valid: bool)
        ensures
            valid == !(exists|i: int|
                0 <= i < self.entries().len() && !alias_valid(#[trigger] self.entries()[i])),
    {
        let mut i: usize = 0;
        while i < self.entries.len()
            invariant
                i <= self.entries@.len(),
                forall|k: int| 0 <= k < i ==> alias_valid(#[trigger] self.entries()[k]),
            decreases self.entries@.len() - i,
        {
            let alias = &self.entries[i];
            if !valid_name(alias.name.as_str()) || alias.words.len() == 0 || alias.words.len() > 16 {
                assert(!alias_valid(self.entries()[i as int]));
                return false;
            }
            let mut k: usize = 0;
            while k < alias.words.len()
                invariant
                    k <= alias.words@.len(),
                    i < self.entries@.len(),
                    *alias == self.entries()[i as int],
                    forall|j: int|
                        0 <= j < k ==> encode_utf8((#[trigger] alias.words@[j])@).len() <= 256,
                decreases alias.words@.len() - k,
            {
                if alias.words[k].as_str().as_bytes().len() > 256 {
                    assert(!alias_valid(self.entries()[i as int]));
                    return false;
                }
                k += 1;
            }
            i += 1;
        }
        true
    }
}

/// Appends copies of some texts.
fn push_all(list: &mut Vec<String>, texts: &[String])
    ensures
        string_views(final(list)@) == string_views(old(list)@) + string_views(texts@),
{
    let mut i: usize = 0;
    assert(string_views(list@) =~= string_views(old(list)@) + string_views(texts@.take(0)));
    while i < texts.len()
        invariant
            i <= texts@.len(),
            string_views(list@) == string_views(old(list)@) + string_views(texts@.take(i as int)),
        decreases texts@.len() - i,
    {
        let ghost before = list@;
        list.push(texts[i].clone());
        assert(string_views(list@) =~= string_views(before).push(texts@[i as int]@));
        assert(string_views(texts@.take(i + 1)) =~= string_views(texts@.take(i as int)).push(
            texts@[i as int]@,
        ));
        assert(string_views(list@) =~= string_views(old(list)@) + string_views(texts@.take(i + 1)));
        i += 1;
    }
    assert(texts@.take(i as int) =~= texts@);
}

/// A configuration is accepted, the URL left aside, if and only if its numbers lie within their
/// limits and each alias is a name for a few short words.
pub proof fn accepted_configurations_are_within_limits(config: Config)
    ensures
        (config.refused() is None) == {
            &&& 1 <= config.rpc.timeout_secs <= 120
            &&& 1 <= config.history.limit <= 100
            &&& config.security.compute_unit_margin_percent <= 100
            &&& config.history.wallets@.len() <= 16
            &&& config.history.interval_secs is Some ==> config.history.interval_secs->Some_0 >= 10
            &&& config.aliases.entries().len() <= 64
            &&& forall|i: int|
                0 <= i < config.aliases.entries().len() ==> {
                    let alias = #[trigger] config.aliases.entries()[i];
                    &&& is_name(alias.name@)
                    &&& 1 <= alias.words@.len() <= 16
                    &&& forall|k: int|
                        0 <= k < alias.words@.len() ==> encode_utf8(
                            (#[trigger] alias.words@[k])@,
                        ).len() <= 256
                }
        },
{
    if config.refused() is None {
        assert forall|i: int| 0 <= i < config.aliases.entries().len() implies alias_valid(
            #[trigger] config.aliases.entries()[i],
        ) by {}
    }
}

/// A URL is accepted if and only if what goes there is encrypted or stays on this machine, and it
/// names no user and no password.
pub proof fn accepted_urls_are_safe(
    scheme: Seq<char>,
    host: Option<Seq<char>>,
    username: Seq<char>,
    has_password: bool,
)
    ensures
        (url_refused((scheme, host, username, has_password)) is None) == ((scheme == "https"@ || (
        scheme == "http"@ && (host == Some("127.0.0.1"@) || host == Some("localhost"@) || host
            == Some("[::1]"@) || host == Some("::1"@)))) && username.len() == 0 && !has_password),
{
}

/// An alias at the front stands for its words, the other words stay, and without an alias nothing
/// changes.
pub proof fn aliases_stand_for_their_words(
    config: Config,
    first: Seq<char>,
    rest: Seq<Seq<char>>,
)
    ensures
        ({
            let args = seq![first] + rest;
            &&& config.aliases.words(first) is None ==> config.expanded(args) == args
            &&& config.aliases.words(first) is Some ==> config.expanded(args)
                == config.aliases.words(first)->Some_0 + rest
        }),
        config.expanded(Seq::empty()).len() == 0,
{
    let args = seq![first] + rest;
    assert(args[0] == first);
    assert(args.skip(1) =~= rest);
}

} // verus!
