//! Requests to the network, and what is read from the answers.
use base64::Engine;
use std::str::FromStr;
use std::time::Duration;
use vstd::prelude::*;
use vstd::string::*;
use vstd::utf8::*;

use crate::args::str_views;
use crate::config::{parse_url, seconds, url_parts, Config};
use crate::error::Error;
use crate::json::{json_of_bytes, Json};
use crate::pubkey::{address_of_text, address_text, Pubkey};
use crate::text::{control, decimal, has_prefix, has_suffix, number_of, number_text, parse_number,
    same, string_views};

verus! {

/// The longest answer that is read.
pub const MAX_BODY: u64 = 2 * 1024 * 1024;

/// The most token accounts that are read from an answer.
pub const MAX_TOKEN_ACCOUNTS: usize = 512;

/// How often the status of a transaction is asked for.
pub const STATUS_POLLS: u8 = 20;

/// How many seconds pass between two such questions.
pub const STATUS_PAUSE_SECS: u64 = 2;

// ---------------------------------------------------------------------------------------------
// What the outside crates compute
// ---------------------------------------------------------------------------------------------
/// Bytes in base64, with the standard alphabet and padding.
pub uninterp spec fn base64_text(bytes: Seq<u8>) -> Seq<char>;

/// The hash that a text stands for, or what is wrong with the text.
pub uninterp spec fn hash_of_text(text: Seq<char>) -> Result<Seq<u8>, Seq<char>>;

/// Calls `Engine::encode` of the standard engine of `base64`. The text is only named.
#[verifier::external_body]
fn base64_of(bytes: &[u8]) -> (text: String)
    ensures
        text@ == base64_text(bytes@),
{
    base64::engine::general_purpose::STANDARD.encode(bytes)
}

/// Calls `FromStr` of `solana_message::Hash`, which reads 32 bytes of base58. What it gives for a
/// text, and the message of its error, is only named.
#[verifier::external_body]
fn read_hash(text: &str) -> (hash: Result<[u8; 32], String>)
    ensures
        match hash {
            Ok(h) => hash_of_text(text@) is Ok && hash_of_text(text@)->Ok_0 == h@,
            Err(message) => hash_of_text(text@) is Err && hash_of_text(text@)->Err_0 == message@,
        },
{
    match solana_message::Hash::from_str(text) {
        Ok(hash) => Ok(hash.to_bytes()),
        Err(error) => Err(error.to_string()),
    }
}

// ---------------------------------------------------------------------------------------------
// Text that is safe to show
// ---------------------------------------------------------------------------------------------
/// A character that can be shown.
pub open spec fn shown(c: char) -> bool {
    !control(c) || c == '\n'
}

/// The characters of a text that can be shown.
pub open spec fn shown_text(text: Seq<char>) -> Seq<char>
    decreases text.len(),
{
    if text.len() == 0 {
        Seq::empty()
    } else if shown(text.last()) {
        shown_text(text.drop_last()).push(text.last())
    } else {
        shown_text(text.drop_last())
    }
}

/// The first characters of a text that can be shown.
pub open spec fn safe(text: Seq<char>, max: nat) -> Seq<char> {
    if shown_text(text).len() <= max {
        shown_text(text)
    } else {
        shown_text(text).take(max as int)
    }
}

/// What is shown of the front of a text is the front of what is shown.
proof fn lemma_shown_front(text: Seq<char>, n: int)
    requires
        0 <= n <= text.len(),
    ensures
        shown_text(text.take(n)).len() <= shown_text(text).len(),
        shown_text(text).take(shown_text(text.take(n)).len() as int) == shown_text(text.take(n)),
    decreases text.len() - n,
{
    if n == text.len() {
        assert(text.take(n) =~= text);
        assert(shown_text(text).take(shown_text(text).len() as int) =~= shown_text(text));
    } else {
        lemma_shown_front(text, n + 1);
        let longer = text.take(n + 1);
        assert(longer.drop_last() =~= text.take(n));
        let a = shown_text(text.take(n));
        let b = shown_text(longer);
        assert(b.take(a.len() as int) =~= a);
        assert(shown_text(text).take(a.len() as int) =~= shown_text(text).take(
            b.len() as int,
        ).take(a.len() as int));
    }
}

/// The first characters of a text, without control characters other than line ends.
pub fn safe_text(input: &str, max: usize) -> (text: String)
    ensures
        text@ == safe(input@, max as nat),
{
    let mut text = String::new();
    let mut kept: usize = 0;
    let total: usize = input.unicode_len();
    let mut n: usize = 0;
    assert(input@.take(0) =~= Seq::empty());
    for c in it: input.chars()
        invariant
            it.seq() == input@,
            n == it.index(),
            total == input@.len(),
            kept == text@.len(),
            kept <= max,
            kept <= n,
            text@ == shown_text(input@.take(n as int)),
    {
        proof {
            assert(input@.take(n + 1).drop_last() =~= input@.take(n as int));
            assert(input@.take(n + 1).last() == c);
        }
        if !c.is_control() || c == '\n' {
            if kept == max {
                proof {
                    lemma_shown_front(input@, n as int);
                    lemma_shown_front(input@, n + 1);
                }
                return text;
            }
            text.push(c);
            kept += 1;
        }
        n += 1;
    }
    assert(input@.take(n as int) =~= input@);
    text
}

/// What is shown has no control characters but line ends, and is no longer than asked.
pub proof fn safe_text_is_safe(text: Seq<char>, max: nat)
    ensures
        safe(text, max).len() <= max,
        forall|i: int| 0 <= i < safe(text, max).len() ==> shown(#[trigger] safe(text, max)[i]),
{
    lemma_all_shown(text);
    let all = shown_text(text);
    assert forall|i: int| 0 <= i < safe(text, max).len() implies shown(
        #[trigger] safe(text, max)[i],
    ) by {
        assert(safe(text, max)[i] == all[i]);
    }
}

proof fn lemma_all_shown(text: Seq<char>)
    ensures
        forall|i: int| 0 <= i < shown_text(text).len() ==> shown(#[trigger] shown_text(text)[i]),
    decreases text.len(),
{
    if text.len() > 0 {
        let front = text.drop_last();
        lemma_all_shown(front);
        assert forall|i: int| 0 <= i < shown_text(text).len() implies shown(
            #[trigger] shown_text(text)[i],
        ) by {
            if i < shown_text(front).len() {
                assert(shown_text(text)[i] == shown_text(front)[i]);
            }
        }
    }
}

// ---------------------------------------------------------------------------------------------
// Requests
// ---------------------------------------------------------------------------------------------
/// The value of an option of a request.
pub enum SettingView {
    Text(Seq<char>),
    Number(u64),
    Flag(bool),
}

/// A parameter of a request.
pub enum ParamView {
    Text(Seq<char>),
    Texts(Seq<Seq<char>>),
    Options(Seq<(Seq<char>, SettingView)>),
}

/// A request: a method and its parameters.
pub struct CallView {
    pub method: Seq<char>,
    pub params: Seq<ParamView>,
}

/// The value of an option of a request.
#[derive(Debug, PartialEq, Eq)]
pub enum Setting {
    Text(String),
    Number(u64),
    Flag(bool),
}

impl View for Setting {
    type V = SettingView;

    open spec fn view(&self) -> SettingView {
        match self {
            Setting::Text(text) => SettingView::Text(text@),
            Setting::Number(n) => SettingView::Number(*n),
            Setting::Flag(flag) => SettingView::Flag(*flag),
        }
    }
}

/// The views of options.
pub open spec fn option_views(options: Seq<(String, Setting)>) -> Seq<(Seq<char>, SettingView)> {
    options.map_values(|o: (String, Setting)| (o.0@, o.1@))
}

/// A parameter of a request.
#[derive(Debug, PartialEq, Eq)]
pub enum Param {
    Text(String),
    Texts(Vec<String>),
    Options(Vec<(String, Setting)>),
}

impl View for Param {
    type V = ParamView;

    open spec fn view(&self) -> ParamView {
        match self {
            Param::Text(text) => ParamView::Text(text@),
            Param::Texts(texts) => ParamView::Texts(string_views(texts@)),
            Param::Options(options) => ParamView::Options(option_views(options@)),
        }
    }
}

/// A request: a method and its parameters.
#[derive(Debug, PartialEq, Eq)]
pub struct RpcCall {
    pub method: String,
    pub params: Vec<Param>,
}

impl View for RpcCall {
    type V = CallView;

    open spec fn view(&self) -> CallView {
        CallView {
            method: self.method@,
            params: self.params@.map_values(|p: Param| p@),
        }
    }
}

/// The options of a request that asks for confirmed state.
pub open spec fn confirmed() -> (Seq<char>, SettingView) {
    ("commitment"@, SettingView::Text("confirmed"@))
}

/// The options of a request with a text option.
pub open spec fn text_option(name: Seq<char>, value: Seq<char>) -> (Seq<char>, SettingView) {
    (name, SettingView::Text(value))
}

fn push_text(options: &mut Vec<(String, Setting)>, name: &str, value: &str)
    ensures
        option_views(final(options)@) == option_views(old(options)@).push(
            text_option(name@, value@),
        ),
{
    options.push((name.to_owned(), Setting::Text(value.to_owned())));
    assert(option_views(options@) =~= option_views(old(options)@).push(text_option(name@, value@)));
}

fn push_number(options: &mut Vec<(String, Setting)>, name: &str, value: u64)
    ensures
        option_views(final(options)@) == option_views(old(options)@).push(
            (name@, SettingView::Number(value)),
        ),
{
    options.push((name.to_owned(), Setting::Number(value)));
    assert(option_views(options@) =~= option_views(old(options)@).push(
        (name@, SettingView::Number(value)),
    ));
}

fn push_flag(options: &mut Vec<(String, Setting)>, name: &str, value: bool)
    ensures
        option_views(final(options)@) == option_views(old(options)@).push(
            (name@, SettingView::Flag(value)),
        ),
{
    options.push((name.to_owned(), Setting::Flag(value)));
    assert(option_views(options@) =~= option_views(old(options)@).push(
        (name@, SettingView::Flag(value)),
    ));
}

/// No options yet.
fn no_options() -> (options: Vec<(String, Setting)>)
    ensures
        option_views(options@) == Seq::<(Seq<char>, SettingView)>::empty(),
{
    let options: Vec<(String, Setting)> = Vec::new();
    assert(option_views(options@) =~= Seq::empty());
    options
}

/// A request with one text and options.
fn text_call(method: &str, text: String, options: Vec<(String, Setting)>) -> (call: RpcCall)
    ensures
        call@ == (CallView {
            method: method@,
            params: seq![ParamView::Text(text@), ParamView::Options(option_views(options@))],
        }),
{
    let mut params: Vec<Param> = Vec::with_capacity(2);
    params.push(Param::Text(text));
    params.push(Param::Options(options));
    let call = RpcCall { method: method.to_owned(), params };
    assert(call@.params =~= seq![
        ParamView::Text(text@),
        ParamView::Options(option_views(options@)),
    ]);
    call
}

/// A request about an address at confirmed state.
pub open spec fn address_call(method: Seq<char>, address: Seq<u8>) -> CallView {
    CallView {
        method,
        params: seq![
            ParamView::Text(address_text(address)),
            ParamView::Options(seq![confirmed()]),
        ],
    }
}

fn ask_address(method: &str, address: &Pubkey) -> (call: RpcCall)
    ensures
        call@ == address_call(method@, address@),
{
    let mut options = no_options();
    push_text(&mut options, "commitment", "confirmed");
    assert(option_views(options@) =~= seq![confirmed()]);
    text_call(method, address.text(), options)
}

/// A request for the data of an account.
pub open spec fn account_info_call(address: Seq<u8>) -> CallView {
    CallView {
        method: "getAccountInfo"@,
        params: seq![
            ParamView::Text(address_text(address)),
            ParamView::Options(seq![text_option("encoding"@, "base64"@), confirmed()]),
        ],
    }
}

/// A request for the last blockhash.
pub open spec fn blockhash_call() -> CallView {
    CallView {
        method: "getLatestBlockhash"@,
        params: seq![ParamView::Options(seq![confirmed()])],
    }
}

/// A request for the fee of a message.
pub open spec fn fee_call(message: Seq<u8>) -> CallView {
    CallView {
        method: "getFeeForMessage"@,
        params: seq![
            ParamView::Text(base64_text(message)),
            ParamView::Options(seq![confirmed()]),
        ],
    }
}

/// A request for the token accounts of an owner under a token program.
pub open spec fn token_accounts_call(owner: Seq<u8>, program: Seq<u8>) -> CallView {
    CallView {
        method: "getTokenAccountsByOwner"@,
        params: seq![
            ParamView::Text(address_text(owner)),
            ParamView::Options(seq![text_option("programId"@, address_text(program))]),
            ParamView::Options(seq![text_option("encoding"@, "jsonParsed"@), confirmed()]),
        ],
    }
}

/// A request for the last signatures of an address.
pub open spec fn signatures_call(address: Seq<u8>, limit: u64) -> CallView {
    CallView {
        method: "getSignaturesForAddress"@,
        params: seq![
            ParamView::Text(address_text(address)),
            ParamView::Options(seq![("limit"@, SettingView::Number(limit)), confirmed()]),
        ],
    }
}

/// A request for the simulation of a transaction.
pub open spec fn simulate_call(wire: Seq<u8>) -> CallView {
    CallView {
        method: "simulateTransaction"@,
        params: seq![
            ParamView::Text(base64_text(wire)),
            ParamView::Options(
                seq![
                    text_option("encoding"@, "base64"@),
                    ("sigVerify"@, SettingView::Flag(false)),
                    confirmed(),
                ],
            ),
        ],
    }
}

/// A request to send a transaction once, with the checks of the node before it.
pub open spec fn send_call(wire: Seq<u8>) -> CallView {
    CallView {
        method: "sendTransaction"@,
        params: seq![
            ParamView::Text(base64_text(wire)),
            ParamView::Options(
                seq![
                    text_option("encoding"@, "base64"@),
                    ("skipPreflight"@, SettingView::Flag(false)),
                    text_option("preflightCommitment"@, "confirmed"@),
                    ("maxRetries"@, SettingView::Number(0)),
                ],
            ),
        ],
    }
}

/// A request for the status of a transaction.
pub open spec fn status_call(signature: Seq<char>) -> CallView {
    CallView {
        method: "getSignatureStatuses"@,
        params: seq![
            ParamView::Texts(seq![signature]),
            ParamView::Options(
                seq![("searchTransactionHistory"@, SettingView::Flag(false))],
            ),
        ],
    }
}

/// A node of the network.
pub struct Rpc {
    pub url: String,
    pub cluster: String,
    pub endpoint: String,
    pub timeout: Duration,
}

impl Rpc {
    /// The node of a configuration.
    pub fn new(config: &Config) -> (rpc: Result<Rpc, Error>)
        ensures
            match config.rpc.url {
                None => rpc == Err::<Rpc, Error>(Error::RpcNotConfigured),
                Some(url) => match url_parts(url@) {
                    Err(message) => rpc matches Err(Error::Outside(m)) && m@ == message,
                    Ok(parts) => match parts.1 {
                        None => rpc == Err::<Rpc, Error>(Error::RpcNoHost),
                        Some(host) => rpc matches Ok(r) && r.url@ == url@ && r.cluster@
                            == config.rpc.cluster@ && r.endpoint@ == host && r.timeout == seconds(
                            config.rpc.timeout_secs,
                        ),
                    },
                },
            },
    {
        let url = match &config.rpc.url {
            Some(url) => url,
            None => return Err(Error::RpcNotConfigured),
        };
        let parts = match parse_url(url.as_str()) {
            Ok(parts) => parts,
            Err(message) => return Err(Error::Outside(message)),
        };
        match parts.host {
            Some(endpoint) => Ok(
                Rpc {
                    url: url.clone(),
                    cluster: config.rpc.cluster.clone(),
                    endpoint,
                    timeout: config.rpc_timeout(),
                },
            ),
            None => Err(Error::RpcNoHost),
        }
    }

    /// Checks the length of an answer.
    pub fn check_body(len: u64) -> (result: Result<(), Error>)
        ensures
            len > MAX_BODY ==> result == Err::<(), Error>(Error::BodyTooLarge),
            len <= MAX_BODY ==> result is Ok,
    {
        if len > MAX_BODY {
            Err(Error::BodyTooLarge)
        } else {
            Ok(())
        }
    }

    /// The result in the answer to a call.
    pub fn call<'a>(method: &str, answer: &'a Json) -> (result: Result<&'a Json, Error>)
        ensures
            match answer.member("error"@) {
                Some(error) => result matches Err(Error::Rpc(m, t)) && m@ == method@ && t@ == safe(
                    error.text@,
                    500,
                ),
                None => match answer.member("result"@) {
                    Some(value) => result matches Ok(r) && *r == value,
                    None => result == Err::<&'a Json, Error>(Error::RpcResultMissing),
                },
            },
    {
        if let Some(error) = answer.get("error") {
            return Err(Error::Rpc(method.to_owned(), safe_text(error.text.as_str(), 500)));
        }
        match answer.get("result") {
            Some(value) => Ok(value),
            None => Err(Error::RpcResultMissing),
        }
    }

    /// Reads the result from the bytes that answer a call.
    pub fn read_answer(method: &str, body: &[u8]) -> (result: Result<Json, Error>)
        ensures
            if body@.len() > MAX_BODY {
                result == Err::<Json, Error>(Error::BodyTooLarge)
            } else {
                match json_of_bytes(body@) {
                    Err(message) => result matches Err(Error::Outside(m)) && m@ == message,
                    Ok(answer) => match answer.member("error"@) {
                        Some(error) => result matches Err(Error::Rpc(m, t)) && m@ == method@ && t@
                            == safe(error.text@, 500),
                        None => match answer.member("result"@) {
                            Some(value) => result == Ok::<Json, Error>(value),
                            None => result == Err::<Json, Error>(Error::RpcResultMissing),
                        },
                    },
                }
            },
    {
        if let Err(error) = Rpc::check_body(body.len() as u64) {
            return Err(error);
        }
        let answer = match Json::parse(body) {
            Ok(answer) => answer,
            Err(error) => return Err(error),
        };
        if let Err(error) = Rpc::call(method, &answer) {
            return Err(error);
        }
        match answer.into_member("result") {
            Some(result) => Ok(result),
            None => Err(Error::RpcResultMissing),
        }
    }

    /// Asks for the balance of an address.
    pub fn balance(address: &Pubkey) -> (call: RpcCall)
        ensures
            call@ == address_call("getBalance"@, address@),
    {
        ask_address("getBalance", address)
    }

    /// Asks for the data of an account.
    pub fn account_info(address: &Pubkey) -> (call: RpcCall)
        ensures
            call@ == account_info_call(address@),
    {
        let mut options = no_options();
        push_text(&mut options, "encoding", "base64");
        push_text(&mut options, "commitment", "confirmed");
        assert(option_views(options@) =~= seq![
            text_option("encoding"@, "base64"@),
            confirmed(),
        ]);
        text_call("getAccountInfo", address.text(), options)
    }

    /// Asks for the balance of a token account that exists.
    pub fn token_balance(address: &Pubkey) -> (call: RpcCall)
        ensures
            call@ == address_call("getTokenAccountBalance"@, address@),
    {
        ask_address("getTokenAccountBalance", address)
    }

    /// Asks for the supply of a mint, which tells its decimals.
    pub fn token_decimals(mint: &Pubkey) -> (call: RpcCall)
        ensures
            call@ == address_call("getTokenSupply"@, mint@),
    {
        ask_address("getTokenSupply", mint)
    }

    /// Asks for the last blockhash.
    pub fn latest_blockhash() -> (call: RpcCall)
        ensures
            call@ == blockhash_call(),
    {
        let mut options = no_options();
        push_text(&mut options, "commitment", "confirmed");
        assert(option_views(options@) =~= seq![confirmed()]);
        let mut params: Vec<Param> = Vec::with_capacity(1);
        params.push(Param::Options(options));
        let call = RpcCall { method: "getLatestBlockhash".to_owned(), params };
        assert(call@.params =~= blockhash_call().params);
        call
    }

    /// Asks for the fee of a message.
    pub fn fee_for_message(message: &[u8]) -> (call: RpcCall)
        ensures
            call@ == fee_call(message@),
    {
        let mut options = no_options();
        push_text(&mut options, "commitment", "confirmed");
        assert(option_views(options@) =~= seq![confirmed()]);
        text_call("getFeeForMessage", base64_of(message), options)
    }

    /// Asks for the token accounts of an owner under a token program.
    pub fn token_accounts(owner: &Pubkey, token_program: &Pubkey) -> (call: RpcCall)
        ensures
            call@ == token_accounts_call(owner@, token_program@),
    {
        let mut program = no_options();
        push_text(&mut program, "programId", token_program.text().as_str());
        assert(option_views(program@) =~= seq![
            text_option("programId"@, address_text(token_program@)),
        ]);
        let mut options = no_options();
        push_text(&mut options, "encoding", "jsonParsed");
        push_text(&mut options, "commitment", "confirmed");
        assert(option_views(options@) =~= seq![
            text_option("encoding"@, "jsonParsed"@),
            confirmed(),
        ]);
        let mut params: Vec<Param> = Vec::with_capacity(3);
        params.push(Param::Text(owner.text()));
        params.push(Param::Options(program));
        params.push(Param::Options(options));
        let call = RpcCall { method: "getTokenAccountsByOwner".to_owned(), params };
        assert(call@.params =~= token_accounts_call(owner@, token_program@).params);
        call
    }

    /// Asks for the last signatures of an address.
    pub fn signatures(address: &Pubkey, limit: usize) -> (call: RpcCall)
        ensures
            call@ == signatures_call(address@, limit as u64),
    {
        let mut options = no_options();
        push_number(&mut options, "limit", limit as u64);
        push_text(&mut options, "commitment", "confirmed");
        assert(option_views(options@) =~= seq![
            ("limit"@, SettingView::Number(limit as u64)),
            confirmed(),
        ]);
        text_call("getSignaturesForAddress", address.text(), options)
    }

    /// Asks for the simulation of a transaction.
    pub fn simulate(wire: &[u8]) -> (call: RpcCall)
        ensures
            call@ == simulate_call(wire@),
    {
        let mut options = no_options();
        push_text(&mut options, "encoding", "base64");
        push_flag(&mut options, "sigVerify", false);
        push_text(&mut options, "commitment", "confirmed");
        assert(option_views(options@) =~= seq![
            text_option("encoding"@, "base64"@),
            ("sigVerify"@, SettingView::Flag(false)),
            confirmed(),
        ]);
        text_call("simulateTransaction", base64_of(wire), options)
    }

    /// Asks to send a transaction.
    pub fn send(wire: &[u8]) -> (call: RpcCall)
        ensures
            call@ == send_call(wire@),
    {
        let mut options = no_options();
        push_text(&mut options, "encoding", "base64");
        push_flag(&mut options, "skipPreflight", false);
        push_text(&mut options, "preflightCommitment", "confirmed");
        push_number(&mut options, "maxRetries", 0);
        assert(option_views(options@) =~= seq![
            text_option("encoding"@, "base64"@),
            ("skipPreflight"@, SettingView::Flag(false)),
            text_option("preflightCommitment"@, "confirmed"@),
            ("maxRetries"@, SettingView::Number(0)),
        ]);
        text_call("sendTransaction", base64_of(wire), options)
    }

    /// Asks for the status of a transaction.
    pub fn confirm(signature: &str) -> (call: RpcCall)
        ensures
            call@ == status_call(signature@),
    {
        let mut texts: Vec<String> = Vec::with_capacity(1);
        texts.push(signature.to_owned());
        assert(string_views(texts@) =~= seq![signature@]);
        let mut options = no_options();
        push_flag(&mut options, "searchTransactionHistory", false);
        assert(option_views(options@) =~= seq![
            ("searchTransactionHistory"@, SettingView::Flag(false)),
        ]);
        let mut params: Vec<Param> = Vec::with_capacity(2);
        params.push(Param::Texts(texts));
        params.push(Param::Options(options));
        let call = RpcCall { method: "getSignatureStatuses".to_owned(), params };
        assert(call@.params =~= status_call(signature@).params);
        call
    }
}

// ---------------------------------------------------------------------------------------------
// Answers
// ---------------------------------------------------------------------------------------------
/// Two steps of a path.
pub open spec fn path2(a: Seq<char>, b: Seq<char>) -> Seq<Seq<char>> {
    seq![a, b]
}

/// The balance in an answer.
pub fn balance_result(result: &Json) -> (balance: Result<u64, Error>)
    ensures
        match result.member_unsigned("value"@) {
            Some(n) => balance == Ok::<u64, Error>(n),
            None => balance == Err::<u64, Error>(Error::InvalidBalance),
        },
{
    match result.get_u64("value") {
        Some(n) => Ok(n),
        None => Err(Error::InvalidBalance),
    }
}

/// The account data in an answer: none where the account does not exist.
pub open spec fn account_info_in(result: Json) -> Result<Option<Json>, Error> {
    match result.member("value"@) {
        Some(value) => if value.kind is Null {
            Ok(None)
        } else if value.kind is Object {
            Ok(Some(value))
        } else {
            Err(Error::InvalidAccountInfo)
        },
        None => Err(Error::InvalidAccountInfo),
    }
}

/// The account data in an answer.
pub fn account_info_result(result: &Json) -> (info: Result<Option<&Json>, Error>)
    ensures
        match account_info_in(*result) {
            Ok(Some(value)) => info matches Ok(Some(v)) && *v == value,
            Ok(None) => info matches Ok(None),
            Err(error) => info == Err::<Option<&Json>, Error>(error),
        },
{
    match result.get("value") {
        Some(value) => {
            if value.is_null() {
                Ok(None)
            } else if value.is_object() {
                Ok(Some(value))
            } else {
                Err(Error::InvalidAccountInfo)
            }
        },
        None => Err(Error::InvalidAccountInfo),
    }
}

/// The token balance in an answer.
pub open spec fn token_balance_in(result: Json) -> Result<u64, Error> {
    match result.string_at(path2("value"@, "amount"@)) {
        Some(text) => number_of(text, u64::MAX),
        None => Err(Error::InvalidTokenBalance),
    }
}

/// The token balance in an answer.
pub fn token_balance_result(result: &Json) -> (balance: Result<u64, Error>)
    ensures
        balance == token_balance_in(*result),
{
    let path: [&str; 2] = ["value", "amount"];
    assert(str_views(path@) =~= path2("value"@, "amount"@));
    match result.pointer_str(&path) {
        Some(text) => parse_number(text, u64::MAX),
        None => Err(Error::InvalidTokenBalance),
    }
}

/// The decimals of a mint in an answer.
pub open spec fn token_decimals_in(result: Json) -> Result<u8, Error> {
    match result.unsigned_at(path2("value"@, "decimals"@)) {
        Some(n) => if n <= u8::MAX {
            Ok(n as u8)
        } else {
            Err(Error::OutOfRange)
        },
        None => Err(Error::InvalidTokenSupply),
    }
}

/// The decimals of a mint in an answer.
pub fn token_decimals_result(result: &Json) -> (decimals: Result<u8, Error>)
    ensures
        decimals == token_decimals_in(*result),
{
    let path: [&str; 2] = ["value", "decimals"];
    assert(str_views(path@) =~= path2("value"@, "decimals"@));
    match result.pointer_u64(&path) {
        Some(n) => {
            if n <= u8::MAX as u64 {
                Ok(n as u8)
            } else {
                Err(Error::OutOfRange)
            }
        },
        None => Err(Error::InvalidTokenSupply),
    }
}

/// The blockhash in an answer, or the message that says what is wrong.
pub open spec fn blockhash_in(result: Json) -> Result<Seq<u8>, Seq<char>> {
    match result.string_at(path2("value"@, "blockhash"@)) {
        Some(text) => hash_of_text(text),
        None => Err(Error::InvalidBlockhash.text()),
    }
}

/// The blockhash in an answer.
pub fn latest_blockhash_result(result: &Json) -> (hash: Result<[u8; 32], Error>)
    ensures
        match blockhash_in(*result) {
            Ok(bytes) => hash matches Ok(h) && h@ == bytes,
            Err(message) => hash matches Err(e) && e.text() == message,
        },
{
    let path: [&str; 2] = ["value", "blockhash"];
    assert(str_views(path@) =~= path2("value"@, "blockhash"@));
    match result.pointer_str(&path) {
        Some(text) => match read_hash(text) {
            Ok(hash) => Ok(hash),
            Err(message) => Err(Error::Outside(message)),
        },
        None => Err(Error::InvalidBlockhash),
    }
}

/// The fee in an answer.
pub fn fee_from_response(result: &Json) -> (fee: Result<u64, Error>)
    ensures
        match result.member_unsigned("value"@) {
            Some(n) => fee == Ok::<u64, Error>(n),
            None => fee == Err::<u64, Error>(Error::FeeUnavailable),
        },
{
    match result.get_u64("value") {
        Some(n) => Ok(n),
        None => Err(Error::FeeUnavailable),
    }
}

/// The rows of history in an answer.
pub fn signatures_result(result: &Json, limit: usize) -> (rows: Result<&Vec<Json>, Error>)
    ensures
        match result.list() {
            Some(items) => if items.len() > limit {
                rows == Err::<&Vec<Json>, Error>(Error::TooManySignatures)
            } else {
                rows matches Ok(r) && r@ == items
            },
            None => rows == Err::<&Vec<Json>, Error>(Error::InvalidHistory),
        },
{
    match result.as_list() {
        Some(items) => {
            if items.len() > limit {
                Err(Error::TooManySignatures)
            } else {
                Ok(items)
            }
        },
        None => Err(Error::InvalidHistory),
    }
}

/// The outcome of a simulation in an answer.
pub open spec fn simulation_in(result: Json) -> Result<Json, Error> {
    match result.member("value"@) {
        Some(value) => if value.member("err"@) is None {
            Err(Error::SimulationNoErr)
        } else {
            Ok(value)
        },
        None => Err(Error::InvalidSimulation),
    }
}

/// The outcome of a simulation in an answer.
pub fn simulate_result(result: &Json) -> (simulation: Result<&Json, Error>)
    ensures
        match simulation_in(*result) {
            Ok(value) => simulation matches Ok(v) && *v == value,
            Err(error) => simulation == Err::<&Json, Error>(error),
        },
{
    match result.get("value") {
        Some(value) => {
            if value.get("err").is_none() {
                Err(Error::SimulationNoErr)
            } else {
                Ok(value)
            }
        },
        None => Err(Error::InvalidSimulation),
    }
}

/// The signature of a sent transaction in an answer.
pub open spec fn sent_signature_in(result: Json) -> Result<Seq<char>, Error> {
    match result.string() {
        Some(text) => if encode_utf8(text).len() > 100 {
            Err(Error::InvalidSignature)
        } else {
            Ok(text)
        },
        None => Err(Error::InvalidSend),
    }
}

/// The signature of a sent transaction in an answer.
pub fn send_result(result: &Json) -> (signature: Result<&str, Error>)
    ensures
        match sent_signature_in(*result) {
            Ok(text) => signature matches Ok(s) && s@ == text,
            Err(error) => signature == Err::<&str, Error>(error),
        },
{
    match result.as_str() {
        Some(text) => {
            if text.as_bytes().len() > 100 {
                Err(Error::InvalidSignature)
            } else {
                Ok(text)
            }
        },
        None => Err(Error::InvalidSend),
    }
}

/// Whether a transaction is confirmed by the status in an answer, or the message of its failure.
pub open spec fn status_in(result: Json) -> Result<bool, Seq<char>> {
    match result.at(path2("value"@, "0"@)) {
        None => Err(Error::InvalidStatus.text()),
        Some(status) => if status.kind is Object {
            match status.member("err"@) {
                None => Err("transaction failed: "@ + safe("null"@, 300)),
                Some(failure) => if failure.kind is Null {
                    Ok(
                        status.member_string("confirmationStatus"@) == Some("confirmed"@)
                            || status.member_string("confirmationStatus"@) == Some("finalized"@),
                    )
                } else {
                    Err("transaction failed: "@ + safe(failure.text@, 300))
                },
            }
        } else {
            Ok(false)
        },
    }
}

/// Whether a transaction is confirmed by the status in an answer.
pub fn confirm_result(result: &Json) -> (done: Result<bool, Error>)
    ensures
        match status_in(*result) {
            Ok(yes) => done == Ok::<bool, Error>(yes),
            Err(message) => done matches Err(e) && e.text() == message,
        },
{
    let path: [&str; 2] = ["value", "0"];
    assert(str_views(path@) =~= path2("value"@, "0"@));
    let status = match result.pointer(&path) {
        Some(status) => status,
        None => return Err(Error::InvalidStatus),
    };
    if !status.is_object() {
        return Ok(false);
    }
    match status.get("err") {
        None => Err(Error::TransactionFailed(safe_text("null", 300))),
        Some(failure) => {
            if !failure.is_null() {
                return Err(Error::TransactionFailed(safe_text(failure.text.as_str(), 300)));
            }
            match status.get_str("confirmationStatus") {
                Some(text) => Ok(same(text, "confirmed") || same(text, "finalized")),
                None => Ok(false),
            }
        },
    }
}

// ---------------------------------------------------------------------------------------------
// Token accounts
// ---------------------------------------------------------------------------------------------
/// A token account of the network.
pub struct TokenAccountView {
    pub address: Seq<u8>,
    pub mint: Seq<u8>,
    pub raw_amount: u64,
    pub decimals: u8,
    pub display_amount: Seq<char>,
}

/// A token account of the network.
pub struct TokenAccount {
    pub address: Pubkey,
    pub mint: Pubkey,
    pub raw_amount: u64,
    pub decimals: u8,
    pub display_amount: String,
}

impl View for TokenAccount {
    type V = TokenAccountView;

    open spec fn view(&self) -> TokenAccountView {
        TokenAccountView {
            address: self.address@,
            mint: self.mint@,
            raw_amount: self.raw_amount,
            decimals: self.decimals,
            display_amount: self.display_amount@,
        }
    }
}

/// The views of token accounts.
pub open spec fn token_account_views(accounts: Seq<TokenAccount>) -> Seq<TokenAccountView> {
    accounts.map_values(|a: TokenAccount| a@)
}

/// The steps to the parsed data of a token account.
pub open spec fn info_path() -> Seq<Seq<char>> {
    seq!["account"@, "data"@, "parsed"@, "info"@]
}

/// The amount to be shown: the one for users, or else the raw one.
pub open spec fn display_amount_in(info: Json) -> Option<Seq<char>> {
    match info.string_at(path2("tokenAmount"@, "uiAmountString"@)) {
        Some(text) => Some(text),
        None => info.string_at(path2("tokenAmount"@, "amount"@)),
    }
}

/// The numbers of a token account: the raw amount, the decimals and the amount to be shown.
pub open spec fn token_amounts_in(info: Json) -> Result<(u64, u64, Seq<char>), Error> {
    match info.string_at(path2("tokenAmount"@, "amount"@)) {
        None => Err(Error::InvalidRawAmount),
        Some(amount) => match number_of(amount, u64::MAX) {
            Err(error) => Err(error),
            Ok(raw) => match info.unsigned_at(path2("tokenAmount"@, "decimals"@)) {
                None => Err(Error::InvalidTokenDecimals),
                Some(decimals) => match display_amount_in(info) {
                    None => Err(Error::InvalidTokenAmount),
                    Some(shown) => Ok((raw, decimals, shown)),
                },
            },
        },
    }
}

/// The token account in an item of an answer, or the message that says what is wrong.
pub open spec fn token_account_in(item: Json, program: Seq<u8>) -> Result<
    TokenAccountView,
    Seq<char>,
> {
    match item.member_string("pubkey"@) {
        None => Err(Error::InvalidTokenAddress.text()),
        Some(address) => if item.string_at(path2("account"@, "owner"@)) != Some(
            address_text(program),
        ) {
            Err(Error::TokenOwner.text())
        } else {
            match item.at(info_path()) {
                None => Err(Error::InvalidParsedToken.text()),
                Some(info) => match info.member_string("mint"@) {
                    None => Err(Error::InvalidTokenMint.text()),
                    Some(mint) => match token_amounts_in(info) {
                        Err(error) => Err(error.text()),
                        Ok((raw_amount, decimals, shown)) => match address_of_text(address) {
                            Err(message) => Err(message),
                            Ok(address) => match address_of_text(mint) {
                                Err(message) => Err(message),
                                Ok(mint) => if decimals > u8::MAX {
                                    Err(Error::OutOfRange.text())
                                } else {
                                    Ok(
                                        TokenAccountView {
                                            address,
                                            mint,
                                            raw_amount,
                                            decimals: decimals as u8,
                                            display_amount: shown,
                                        },
                                    )
                                },
                            },
                        },
                    },
                },
            }
        },
    }
}

/// The token accounts in the items of an answer.
pub open spec fn token_accounts_of(items: Seq<Json>, program: Seq<u8>) -> Result<
    Seq<TokenAccountView>,
    Seq<char>,
>
    decreases items.len(),
{
    if items.len() == 0 {
        Ok(Seq::empty())
    } else {
        match token_accounts_of(items.drop_last(), program) {
            Err(message) => Err(message),
            Ok(front) => match token_account_in(items.last(), program) {
                Err(message) => Err(message),
                Ok(account) => Ok(front.push(account)),
            },
        }
    }
}

/// The token accounts in an answer.
pub open spec fn token_accounts_in(result: Json, program: Seq<u8>) -> Result<
    Seq<TokenAccountView>,
    Seq<char>,
> {
    match result.member("value"@) {
        Some(value) => match value.list() {
            Some(items) => if items.len() > MAX_TOKEN_ACCOUNTS {
                Err(Error::TooManyTokenAccounts.text())
            } else {
                token_accounts_of(items, program)
            },
            None => Err(Error::InvalidTokenAccounts.text()),
        },
        None => Err(Error::InvalidTokenAccounts.text()),
    }
}

/// Where some token accounts cannot be read, more of them cannot either.
proof fn lemma_token_accounts_err(items: Seq<Json>, program: Seq<u8>, n: int)
    requires
        0 <= n <= items.len(),
        token_accounts_of(items.take(n), program) is Err,
    ensures
        token_accounts_of(items, program) == token_accounts_of(items.take(n), program),
    decreases items.len() - n,
{
    if n == items.len() {
        assert(items.take(n) =~= items);
    } else {
        assert(items.take(n + 1).drop_last() =~= items.take(n));
        lemma_token_accounts_err(items, program, n + 1);
    }
}

/// The numbers of a token account.
fn read_token_amounts(info: &Json) -> (amounts: Result<(u64, u64, String), Error>)
    ensures
        match token_amounts_in(*info) {
            Ok((raw, decimals, shown)) => amounts matches Ok(a) && a.0 == raw && a.1 == decimals
                && a.2@ == shown,
            Err(error) => amounts == Err::<(u64, u64, String), Error>(error),
        },
{
    let amount_path: [&str; 2] = ["tokenAmount", "amount"];
    assert(str_views(amount_path@) =~= path2("tokenAmount"@, "amount"@));
    let decimals_path: [&str; 2] = ["tokenAmount", "decimals"];
    assert(str_views(decimals_path@) =~= path2("tokenAmount"@, "decimals"@));
    let shown_path: [&str; 2] = ["tokenAmount", "uiAmountString"];
    assert(str_views(shown_path@) =~= path2("tokenAmount"@, "uiAmountString"@));
    let amount = match info.pointer_str(&amount_path) {
        Some(amount) => amount,
        None => return Err(Error::InvalidRawAmount),
    };
    let raw: u64 = match parse_number(amount, u64::MAX) {
        Ok(raw) => raw,
        Err(error) => return Err(error),
    };
    let decimals: u64 = match info.pointer_u64(&decimals_path) {
        Some(decimals) => decimals,
        None => return Err(Error::InvalidTokenDecimals),
    };
    let shown = match info.pointer_str(&shown_path) {
        Some(text) => text,
        None => amount,
    };
    Ok((raw, decimals, shown.to_owned()))
}

/// The token account in an item of an answer.
fn read_token_account(item: &Json, expected_owner: &str, Ghost(program): Ghost<Seq<u8>>) -> (account:
    Result<TokenAccount, Error>)
    requires
        expected_owner@ == address_text(program),
    ensures
        match token_account_in(*item, program) {
            Ok(a) => account matches Ok(r) && r@ == a,
            Err(message) => account matches Err(e) && e.text() == message,
        },
{
    let owner_path: [&str; 2] = ["account", "owner"];
    assert(str_views(owner_path@) =~= path2("account"@, "owner"@));
    let data_path: [&str; 4] = ["account", "data", "parsed", "info"];
    assert(str_views(data_path@) =~= info_path());
    let address = match item.get_str("pubkey") {
        Some(address) => address,
        None => return Err(Error::InvalidTokenAddress),
    };
    match item.pointer_str(&owner_path) {
        Some(owner) => {
            if !same(owner, expected_owner) {
                return Err(Error::TokenOwner);
            }
        },
        None => return Err(Error::TokenOwner),
    }
    let info = match item.pointer(&data_path) {
        Some(info) => info,
        None => return Err(Error::InvalidParsedToken),
    };
    let mint = match info.get_str("mint") {
        Some(mint) => mint,
        None => return Err(Error::InvalidTokenMint),
    };
    let (raw_amount, decimals, display_amount) = match read_token_amounts(info) {
        Ok(amounts) => amounts,
        Err(error) => return Err(error),
    };
    let address = match Pubkey::parse(address) {
        Ok(address) => address,
        Err(error) => return Err(error),
    };
    let mint = match Pubkey::parse(mint) {
        Ok(mint) => mint,
        Err(error) => return Err(error),
    };
    if decimals > u8::MAX as u64 {
        return Err(Error::OutOfRange);
    }
    Ok(TokenAccount { address, mint, raw_amount, decimals: decimals as u8, display_amount })
}

/// The token accounts in an answer.
pub fn parse_token_accounts(result: &Json, token_program: &Pubkey) -> (accounts: Result<
    Vec<TokenAccount>,
    Error,
>)
    ensures
        match token_accounts_in(*result, token_program@) {
            Ok(list) => accounts matches Ok(r) && token_account_views(r@) == list,
            Err(message) => accounts matches Err(e) && e.text() == message,
        },
{
    let items = match result.get("value") {
        Some(value) => match value.as_list() {
            Some(items) => items,
            None => return Err(Error::InvalidTokenAccounts),
        },
        None => return Err(Error::InvalidTokenAccounts),
    };
    if items.len() > MAX_TOKEN_ACCOUNTS {
        return Err(Error::TooManyTokenAccounts);
    }
    let mut accounts: Vec<TokenAccount> = Vec::with_capacity(items.len());
    let expected_owner = token_program.text();
    assert(items@.take(0) =~= Seq::empty());
    assert(token_account_views(accounts@) =~= Seq::empty());
    let mut i: usize = 0;
    while i < items.len()
        invariant
            i <= items@.len(),
            expected_owner@ == address_text(token_program@),
            token_accounts_in(*result, token_program@) == token_accounts_of(
                items@,
                token_program@,
            ),
            token_accounts_of(items@.take(i as int), token_program@) == Ok::<
                Seq<TokenAccountView>,
                Seq<char>,
            >(token_account_views(accounts@)),
        decreases items@.len() - i,
    {
        proof {
            assert(items@.take(i + 1).drop_last() =~= items@.take(i as int));
            assert(items@.take(i + 1).last() == items@[i as int]);
        }
        match read_token_account(&items[i], expected_owner.as_str(), Ghost(token_program@)) {
            Ok(account) => {
                let ghost before = accounts@;
                accounts.push(account);
                assert(token_account_views(accounts@) =~= token_account_views(before).push(
                    account@,
                ));
            },
            Err(error) => {
                proof {
                    lemma_token_accounts_err(items@, token_program@, i + 1);
                }
                return Err(error);
            },
        }
        i += 1;
    }
    assert(items@.take(i as int) =~= items@);
    Ok(accounts)
}

// ---------------------------------------------------------------------------------------------
// History
// ---------------------------------------------------------------------------------------------
/// A row of history: the signature, the slot and whether it succeeded.
pub open spec fn history_row(row: Json) -> Seq<char> {
    let signature = match row.member_string("signature"@) {
        Some(text) => text,
        None => "?"@,
    };
    let slot = match row.member_unsigned("slot"@) {
        Some(n) => n,
        None => 0,
    };
    let status = if row.member("err"@) matches Some(e) && e.kind is Null {
        "ok"@
    } else {
        "error"@
    };
    "  "@ + safe(signature, 100) + "  slot "@ + number_text(slot as nat) + "  "@ + status + "\n"@
}

/// Rows of history, one on a line.
pub open spec fn history_rows(rows: Seq<Json>) -> Seq<char>
    decreases rows.len(),
{
    if rows.len() == 0 {
        Seq::empty()
    } else {
        history_rows(rows.drop_last()) + history_row(rows.last())
    }
}

/// The lines that show some history.
pub fn print_history(rows: &Vec<Json>) -> (text: String)
    ensures
        rows@.len() == 0 ==> text@ == "  no recent signatures\n"@,
        rows@.len() > 0 ==> text@ == history_rows(rows@),
{
    if rows.len() == 0 {
        return "  no recent signatures\n".to_owned();
    }
    let mut text = String::new();
    let mut i: usize = 0;
    assert(rows@.take(0) =~= Seq::empty());
    while i < rows.len()
        invariant
            i <= rows@.len(),
            text@ == history_rows(rows@.take(i as int)),
        decreases rows@.len() - i,
    {
        let row = &rows[i];
        let signature = match row.get_str("signature") {
            Some(text) => text,
            None => "?",
        };
        let slot: u64 = match row.get_u64("slot") {
            Some(n) => n,
            None => 0,
        };
        let status = match row.get("err") {
            Some(failure) => if failure.is_null() {
                "ok"
            } else {
                "error"
            },
            None => "error",
        };
        let line = "  ".to_owned().concat(safe_text(signature, 100).as_str()).concat(
            "  slot ",
        ).concat(decimal(slot as u128).as_str()).concat("  ").concat(status).concat("\n");
        proof {
            assert(rows@.take(i + 1).drop_last() =~= rows@.take(i as int));
            assert(rows@.take(i + 1).last() == rows@[i as int]);
            assert(line@ == history_row(rows@[i as int]));
        }
        text.append(line.as_str());
        i += 1;
    }
    assert(rows@.take(i as int) =~= rows@);
    text
}

// ---------------------------------------------------------------------------------------------
// Laws
// ---------------------------------------------------------------------------------------------
/// A row of history ends in `ok` if and only if its transaction has not failed: it has an error
/// that is null. Any other error, or none at all, is shown as an error.
pub proof fn only_what_succeeded_is_shown_as_ok(row: Json)
    ensures
        row.member("err"@) is Some && row.member("err"@)->Some_0.kind is Null ==> has_suffix(
            history_row(row),
            "  ok\n"@,
        ) && !has_suffix(history_row(row), "  error\n"@),
        row.member("err"@) is Some && !(row.member("err"@)->Some_0.kind is Null) ==> has_suffix(
            history_row(row),
            "  error\n"@,
        ) && !has_suffix(history_row(row), "  ok\n"@),
        row.member("err"@) is None ==> has_suffix(history_row(row), "  error\n"@) && !has_suffix(
            history_row(row),
            "  ok\n"@,
        ),
{
    reveal_strlit("  ");
    reveal_strlit("ok");
    reveal_strlit("error");
    reveal_strlit("\n");
    reveal_strlit("  ok\n");
    reveal_strlit("  error\n");
    let line = history_row(row);
    let n = line.len() as int;
    assert("  "@ + "ok"@ + "\n"@ =~= "  ok\n"@);
    assert("  "@ + "error"@ + "\n"@ =~= "  error\n"@);
    let end = if row.member("err"@) is Some && row.member("err"@)->Some_0.kind is Null {
        "  ok\n"@
    } else {
        "  error\n"@
    };
    assert(line.subrange(n - end.len(), n) =~= end);
    assert(line[n - 2] == end[end.len() - 2]);
    if has_suffix(line, "  ok\n"@) {
        assert(line[n - 2] == line.subrange(n - 5, n)[3]);
        assert("  ok\n"@[3] == 'k');
    }
    if has_suffix(line, "  error\n"@) {
        assert(line[n - 2] == line.subrange(n - 8, n)[6]);
        assert("  error\n"@[6] == 'r');
    }
}

/// A row of history shows the signature and the slot of its transaction.
pub proof fn a_row_shows_its_transaction(row: Json, signature: Seq<char>, slot: u64)
    requires
        row.member("signature"@) is Some,
        row.member("signature"@)->Some_0.string() == Some(signature),
        row.member("slot"@) is Some,
        row.member("slot"@)->Some_0.unsigned() == Some(slot),
    ensures
        has_prefix(
            history_row(row),
            "  "@ + safe(signature, 100) + "  slot "@ + number_text(slot as nat) + "  "@,
        ),
{
    let front = "  "@ + safe(signature, 100) + "  slot "@ + number_text(slot as nat) + "  "@;
    assert(history_row(row).subrange(0, front.len() as int) =~= front);
}

/// The history shows every row, in order.
pub proof fn every_row_is_shown(rows: Seq<Json>, row: Json)
    ensures
        history_rows(rows.push(row)) == history_rows(rows) + history_row(row),
        history_rows(Seq::empty()).len() == 0,
{
    assert(rows.push(row).drop_last() =~= rows);
}

/// What is shown of a text is the text without its control characters, line ends aside, cut off
/// where it is too long. Nothing else is lost and nothing is added.
pub proof fn only_control_characters_are_left_out(text: Seq<char>, max: nat)
    ensures
        ({
            let kept = text.filter(
                |c: char| c == '\n' || !((c as u32) < 0x20 || 0x7f <= (c as u32) <= 0x9f),
            );
            &&& safe(text, max).len() == if kept.len() <= max {
                kept.len()
            } else {
                max
            }
            &&& safe(text, max) == kept.take(safe(text, max).len() as int)
        }),
{
    lemma_shown_is_filter(text);
    let kept = shown_text(text);
    assert(safe(text, max) =~= kept.take(safe(text, max).len() as int));
}

proof fn lemma_shown_is_filter(text: Seq<char>)
    ensures
        shown_text(text) == text.filter(
            |c: char| c == '\n' || !((c as u32) < 0x20 || 0x7f <= (c as u32) <= 0x9f),
        ),
    decreases text.len(),
{
    reveal(Seq::filter);
    if text.len() > 0 {
        lemma_shown_is_filter(text.drop_last());
    } else {
        assert(shown_text(text) =~= text);
    }
}

/// Every request about an address, a mint, an owner or a transaction names it.
pub proof fn requests_name_what_they_are_about(
    method: Seq<char>,
    address: Seq<u8>,
    program: Seq<u8>,
    bytes: Seq<u8>,
    signature: Seq<char>,
    limit: u64,
)
    ensures
        address_call(method, address).method == method,
        address_call(method, address).params[0] == ParamView::Text(address_text(address)),
        account_info_call(address).method == "getAccountInfo"@,
        account_info_call(address).params[0] == ParamView::Text(address_text(address)),
        fee_call(bytes).method == "getFeeForMessage"@,
        fee_call(bytes).params[0] == ParamView::Text(base64_text(bytes)),
        token_accounts_call(address, program).method == "getTokenAccountsByOwner"@,
        token_accounts_call(address, program).params[0] == ParamView::Text(address_text(address)),
        token_accounts_call(address, program).params[1] == ParamView::Options(
            seq![("programId"@, SettingView::Text(address_text(program)))],
        ),
        signatures_call(address, limit).method == "getSignaturesForAddress"@,
        signatures_call(address, limit).params[0] == ParamView::Text(address_text(address)),
        signatures_call(address, limit).params[1]->Options_0[0] == (
            "limit"@,
            SettingView::Number(limit),
        ),
        simulate_call(bytes).method == "simulateTransaction"@,
        simulate_call(bytes).params[0] == ParamView::Text(base64_text(bytes)),
        send_call(bytes).method == "sendTransaction"@,
        send_call(bytes).params[0] == ParamView::Text(base64_text(bytes)),
        status_call(signature).method == "getSignatureStatuses"@,
        status_call(signature).params[0] == ParamView::Texts(seq![signature]),
{
}

/// A token account that is read is the one of the answer: its address, its mint, its raw amount, its
/// decimals, and the amount to be shown stand in the item, under the token program that was asked
/// about.
pub proof fn token_accounts_are_those_of_the_answer(item: Json, program: Seq<u8>)
    requires
        token_account_in(item, program) is Ok,
    ensures
        ({
            let account = token_account_in(item, program)->Ok_0;
            let info = item.at(seq!["account"@, "data"@, "parsed"@, "info"@]);
            let amount = info->Some_0.string_at(seq!["tokenAmount"@, "amount"@]);
            let shown = info->Some_0.string_at(seq!["tokenAmount"@, "uiAmountString"@]);
            &&& item.string_at(seq!["account"@, "owner"@]) == Some(address_text(program))
            &&& item.member_string("pubkey"@) is Some
            &&& address_of_text(item.member_string("pubkey"@)->Some_0) == Ok::<
                Seq<u8>,
                Seq<char>,
            >(account.address)
            &&& info is Some
            &&& info->Some_0.member_string("mint"@) is Some
            &&& address_of_text(info->Some_0.member_string("mint"@)->Some_0) == Ok::<
                Seq<u8>,
                Seq<char>,
            >(account.mint)
            &&& amount is Some
            &&& number_of(amount->Some_0, u64::MAX) == Ok::<u64, Error>(account.raw_amount)
            &&& info->Some_0.unsigned_at(seq!["tokenAmount"@, "decimals"@]) == Some(
                account.decimals as u64,
            )
            &&& shown is Some ==> account.display_amount == shown->Some_0
            &&& shown is None ==> account.display_amount == amount->Some_0
        }),
{
}

/// The token accounts that are read are those of the answer, all of them and in order.
pub proof fn all_token_accounts_are_read(items: Seq<Json>, program: Seq<u8>)
    requires
        token_accounts_of(items, program) is Ok,
    ensures
        token_accounts_of(items, program)->Ok_0.len() == items.len(),
        forall|i: int|
            0 <= i < items.len() ==> token_account_in(#[trigger] items[i], program) == Ok::<
                TokenAccountView,
                Seq<char>,
            >(token_accounts_of(items, program)->Ok_0[i]),
    decreases items.len(),
{
    if items.len() > 0 {
        let front = items.drop_last();
        all_token_accounts_are_read(front, program);
        let all = token_accounts_of(items, program)->Ok_0;
        assert forall|i: int| 0 <= i < items.len() implies token_account_in(
            #[trigger] items[i],
            program,
        ) == Ok::<TokenAccountView, Seq<char>>(all[i]) by {
            if i < front.len() {
                assert(front[i] == items[i]);
            }
        }
    }
}

/// A transaction is confirmed only by a status without an error that says so, and has failed if and
/// only if its status has an error that is not null, or none at all.
pub proof fn confirmation_takes_a_good_status(result: Json)
    requires
        result.at(seq!["value"@, "0"@]) is Some,
    ensures
        ({
            let status = result.at(seq!["value"@, "0"@])->Some_0;
            let failure = status.member("err"@);
            let said = status.member_string("confirmationStatus"@);
            let good = failure is Some && failure->Some_0.kind is Null;
            &&& !(status.kind is Object) ==> status_in(result) == Ok::<bool, Seq<char>>(false)
            &&& status.kind is Object && good ==> status_in(result) == Ok::<bool, Seq<char>>(
                said == Some("confirmed"@) || said == Some("finalized"@),
            )
            &&& status.kind is Object && !good ==> status_in(result) is Err
        }),
{
}

/// What is read of a simulation, a balance or decimals stands in the answer.
pub proof fn answers_are_read_where_they_stand(result: Json)
    ensures
        simulation_in(result) matches Ok(simulation) ==> result.member("value"@) == Some(simulation)
            && simulation.member("err"@) is Some,
        token_balance_in(result) matches Ok(n) ==> result.string_at(seq!["value"@, "amount"@])
            is Some && number_of(
            result.string_at(seq!["value"@, "amount"@])->Some_0,
            u64::MAX,
        ) == Ok::<u64, Error>(n),
        token_decimals_in(result) matches Ok(n) ==> result.unsigned_at(
            seq!["value"@, "decimals"@],
        ) == Some(n as u64),
        blockhash_in(result) matches Ok(hash) ==> result.string_at(seq!["value"@, "blockhash"@])
            is Some && hash_of_text(result.string_at(seq!["value"@, "blockhash"@])->Some_0) == Ok::<
            Seq<u8>,
            Seq<char>,
        >(hash),
        sent_signature_in(result) matches Ok(text) ==> result.string() == Some(text),
        account_info_in(result) matches Ok(Some(info)) ==> result.member("value"@) == Some(info)
            && info.kind is Object,
        account_info_in(result) matches Ok(None) ==> result.member("value"@) is Some
            && result.member("value"@)->Some_0.kind is Null,
{
}

} // verus!
