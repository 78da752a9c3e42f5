//! Transactions: compiling, simulating and signing.
use solana_message::{v0, Address, VersionedMessage};
use vstd::prelude::*;
use vstd::string::*;

use crate::args::str_views;
use crate::error::Error;
use crate::instruction::{instruction_views, AccountMeta, Instruction, InstructionView};
use crate::json::Json;
use crate::pubkey::Pubkey;
use crate::rpc::{path2, safe, safe_text};
use crate::signer::{ed25519_public_key, ed25519_signature, Keypair};
use crate::text::{decimal, has_prefix, has_suffix, number_text};

verus! {

/// The longest transaction that the network takes.
pub const MAX_TRANSACTION_BYTES: usize = 1232;

/// The rule between parts of the output.
pub open spec fn rule() -> Seq<char> {
    "------------------------------------------------"@
}

/// The rule between parts of the output.
pub fn output_rule() -> (text: &'static str)
    ensures
        text@ == rule(),
{
    "------------------------------------------------"
}

// ---------------------------------------------------------------------------------------------
// What the outside crates compute
// ---------------------------------------------------------------------------------------------
/// The bytes of the version 0 message of some instructions, or why there is none.
pub uninterp spec fn compiled_message(
    payer: Seq<u8>,
    instructions: Seq<InstructionView>,
    blockhash: Seq<u8>,
) -> Result<Seq<u8>, Seq<char>>;

/// Who signs a version 0 message: how many, and the first account.
pub uninterp spec fn message_signers(message: Seq<u8>) -> Option<(u8, Option<Seq<u8>>)>;

/// The base58 text of a signature.
pub uninterp spec fn signature_text(signature: Seq<u8>) -> Seq<char>;

/// No instruction asks for a signature but the payer's.
pub open spec fn only_payer_signs(payer: Seq<u8>, instructions: Seq<InstructionView>) -> bool {
    forall|i: int, j: int|
        0 <= i < instructions.len() && 0 <= j < instructions[i].accounts.len() && (
        #[trigger] instructions[i].accounts[j]).is_signer ==> instructions[i].accounts[j].pubkey
            == payer
}

/// Calls `v0::Message::try_compile` of `solana_message` without lookup tables and
/// `wincode::serialize` on the versioned message. The bytes, and the message of the error, are
/// only named, with two facts: the payer is the first account of a version 0 message, and where no
/// instruction asks for another signature, one signature is required.
#[verifier::external_body]
pub(crate) fn compile_message(
    payer: &Pubkey,
    instructions: &Vec<Instruction>,
    blockhash: &[u8; 32],
) -> (message: Result<Vec<u8>, String>)
    ensures
        match message {
            Ok(m) => compiled_message(payer@, instruction_views(instructions@), blockhash@) is Ok
                && compiled_message(payer@, instruction_views(instructions@), blockhash@)->Ok_0
                == m@,
            Err(e) => compiled_message(payer@, instruction_views(instructions@), blockhash@) is Err
                && compiled_message(payer@, instruction_views(instructions@), blockhash@)->Err_0
                == e@,
        },
        message matches Ok(m) ==> message_signers(m@) is Some,
        message matches Ok(m) ==> message_signers(m@)->Some_0.1 == Some(payer@),
        message matches Ok(m) ==> (only_payer_signs(payer@, instruction_views(instructions@))
            ==> message_signers(m@)->Some_0.0 == 1),
{
    let key = |k: &Pubkey| Address::new_from_array(k.bytes);
    let meta = |a: &AccountMeta| solana_message::AccountMeta {
        pubkey: key(&a.pubkey),
        is_signer: a.is_signer,
        is_writable: a.is_writable,
    };
    let list: Vec<_> = instructions.iter().map(|i| solana_message::Instruction {
        program_id: key(&i.program_id),
        accounts: i.accounts.iter().map(meta).collect(),
        data: i.data.clone(),
    }).collect();
    let message = v0::Message::try_compile(&key(payer), &list, &[], (*blockhash).into());
    let message = VersionedMessage::V0(message.map_err(|e| e.to_string())?);
    wincode::serialize(&message).map_err(|e| e.to_string())
}

/// Calls `wincode::deserialize` for a `VersionedMessage` and reads, of a version 0 message, the
/// number of signatures that it requires and its first account. They are only named.
#[verifier::external_body]
fn read_signers(message: &[u8]) -> (signers: Option<(u8, Option<[u8; 32]>)>)
    ensures
        match signers {
            None => message_signers(message@) is None,
            Some((n, None)) => message_signers(message@) == Some((n, None::<Seq<u8>>)),
            Some((n, Some(key))) => message_signers(message@) == Some((n, Some(key@))),
        },
{
    match wincode::deserialize::<VersionedMessage>(message) {
        Ok(VersionedMessage::V0(m)) => Some(
            (m.header.num_required_signatures, m.account_keys.first().map(|k| k.to_bytes())),
        ),
        Ok(_) => None,
        Err(_) => None,
    }
}

/// Calls `ToString` of `solana_transaction::Signature`, which writes the signature in base58. The
/// text is only named.
#[verifier::external_body]
fn write_signature(signature: &[u8; 64]) -> (text: String)
    ensures
        text@ == signature_text(signature@),
{
    solana_transaction::Signature::from(*signature).to_string()
}

// ---------------------------------------------------------------------------------------------
// Wire format
// ---------------------------------------------------------------------------------------------
/// A transaction with one signature: the count, the signature and the message.
pub open spec fn wire(signature: Seq<u8>, message: Seq<u8>) -> Seq<u8> {
    seq![1u8] + signature + message
}

/// The signature of a transaction that is not signed.
pub open spec fn no_signature() -> Seq<u8> {
    Seq::new(64, |i: int| 0u8)
}

/// The bytes of a transaction with one signature.
pub fn transaction_wire(signature: &[u8; 64], message: &[u8]) -> (bytes: Vec<u8>)
    ensures
        bytes@ == wire(signature@, message@),
{
    let mut bytes: Vec<u8> = Vec::new();
    bytes.push(1);
    bytes.extend_from_slice(signature);
    bytes.extend_from_slice(message);
    assert(bytes@ =~= wire(signature@, message@));
    bytes
}

/// The message of some instructions and the transaction without a signature, or what is wrong.
pub open spec fn unsigned_of(
    payer: Seq<u8>,
    instructions: Seq<InstructionView>,
    blockhash: Seq<u8>,
) -> Result<(Seq<u8>, Seq<u8>), Seq<char>> {
    match compiled_message(payer, instructions, blockhash) {
        Err(message) => Err(message),
        Ok(message) => if wire(no_signature(), message).len() > MAX_TRANSACTION_BYTES {
            Err(Error::PacketLimit.text())
        } else {
            Ok((message, wire(no_signature(), message)))
        },
    }
}

/// A message and the transaction that holds it without a signature.
pub struct Unsigned {
    pub message: Vec<u8>,
    pub wire: Vec<u8>,
}

/// Compiles instructions.
pub fn compile_unsigned(
    payer: &Pubkey,
    instructions: &Vec<Instruction>,
    blockhash: &[u8; 32],
) -> (unsigned: Result<Unsigned, Error>)
    ensures
        match unsigned_of(payer@, instruction_views(instructions@), blockhash@) {
            Ok((message, bytes)) => unsigned matches Ok(u) && u.message@ == message && u.wire@
                == bytes && (only_payer_signs(payer@, instruction_views(instructions@))
                ==> only_signer(message, payer@)),
            Err(message) => unsigned matches Err(e) && e.text() == message,
        },
{
    let message = match compile_message(payer, instructions, blockhash) {
        Ok(message) => message,
        Err(text) => return Err(Error::Outside(text)),
    };
    let empty: [u8; 64] = [0;64];
    assert(empty@ =~= no_signature());
    let wire = transaction_wire(&empty, message.as_slice());
    if wire.len() > MAX_TRANSACTION_BYTES {
        return Err(Error::PacketLimit);
    }
    Ok(Unsigned { message, wire })
}

/// A signed transaction.
pub struct Signed {
    pub signature: [u8; 64],
    pub message: Vec<u8>,
}

impl Signed {
    /// The bytes of the transaction.
    pub fn wire(&self) -> (bytes: Vec<u8>)
        ensures
            bytes@ == wire(self.signature@, self.message@),
    {
        transaction_wire(&self.signature, self.message.as_slice())
    }

    /// The signature in base58.
    pub fn signature_text(&self) -> (text: String)
        ensures
            text@ == signature_text(self.signature@),
    {
        write_signature(&self.signature)
    }
}

/// A message that only this account signs.
pub open spec fn only_signer(message: Seq<u8>, key: Seq<u8>) -> bool {
    message_signers(message) == Some((1u8, Some(key)))
}

/// Signs a version 0 message that only the signer has to sign, as the payer of the fee.
pub fn sign_v0(message: Vec<u8>, signer: &Keypair) -> (signed: Result<Signed, Error>)
    ensures
        if only_signer(message@, ed25519_public_key(signer@)) {
            signed matches Ok(s) && s.message@ == message@ && s.signature@ == ed25519_signature(
                signer@,
                message@,
            )
        } else {
            signed == Err::<Signed, Error>(Error::SignerMismatch)
        },
{
    match read_signers(message.as_slice()) {
        Some((count, Some(first))) => {
            let first = Pubkey::new_from_array(first);
            if count == 1 && first.same(&signer.pubkey()) {
                let signature = signer.sign_message(message.as_slice());
                Ok(Signed { signature, message })
            } else {
                Err(Error::SignerMismatch)
            }
        },
        _ => Err(Error::SignerMismatch),
    }
}

// ---------------------------------------------------------------------------------------------
// Simulations
// ---------------------------------------------------------------------------------------------
/// The position of the first line end in a text, or its length.
pub open spec fn line_len(text: Seq<char>) -> nat
    decreases text.len(),
{
    if text.len() == 0 || text[0] == '\n' {
        0
    } else {
        1 + line_len(text.skip(1))
    }
}

/// The lines of a text, each indented and ended.
pub open spec fn indented(text: Seq<char>) -> Seq<char>
    decreases text.len(),
{
    if text.len() == 0 {
        Seq::empty()
    } else {
        let n = line_len(text);
        let rest = if n < text.len() {
            text.skip((n + 1) as int)
        } else {
            Seq::empty()
        };
        "  "@ + text.take(n as int) + "\n"@ + indented(rest)
    }
}

proof fn lemma_line_len_is(text: Seq<char>, n: nat)
    requires
        n <= text.len(),
        forall|k: int| 0 <= k < n ==> #[trigger] text[k] != '\n',
        n < text.len() ==> text[n as int] == '\n',
    ensures
        line_len(text) == n,
    decreases n,
{
    if n > 0 {
        let rest = text.skip(1);
        assert(text[0] != '\n');
        assert forall|k: int| 0 <= k < n - 1 implies #[trigger] rest[k] != '\n' by {
            assert(rest[k] == text[k + 1]);
        }
        lemma_line_len_is(rest, (n - 1) as nat);
    }
}

/// A line at the front of a text.
proof fn lemma_indented_line(line: Seq<char>, rest: Seq<char>)
    requires
        forall|k: int| 0 <= k < line.len() ==> #[trigger] line[k] != '\n',
    ensures
        indented(line + seq!['\n'] + rest) == "  "@ + line + "\n"@ + indented(rest),
        line.len() > 0 ==> indented(line) == "  "@ + line + "\n"@,
{
    let text = line + seq!['\n'] + rest;
    assert forall|k: int| 0 <= k < line.len() implies #[trigger] text[k] != '\n' by {
        assert(text[k] == line[k]);
    }
    lemma_line_len_is(text, line.len());
    assert(text.take(line.len() as int) =~= line);
    assert(text.skip((line.len() + 1) as int) =~= rest);
    if line.len() > 0 {
        lemma_line_len_is(line, line.len());
        assert(line.take(line.len() as int) =~= line);
        assert(indented(Seq::empty()) =~= Seq::empty());
        assert("  "@ + line + "\n"@ + Seq::empty() =~= "  "@ + line + "\n"@);
    }
}

/// Appends the lines of a text, each indented and ended.
fn push_indented(out: &mut String, text: &str)
    ensures
        final(out)@ == old(out)@ + indented(text@),
{
    let total: usize = text.unicode_len();
    let mut open: bool = false;
    let mut n: usize = 0;
    let ghost mut done: Seq<char> = out@;
    let ghost mut line: Seq<char> = Seq::empty();
    proof {
        reveal_strlit("\n");
        assert("\n"@ =~= seq!['\n']);
        assert(line + text@.skip(0) =~= text@);
    }
    for c in it: text.chars()
        invariant
            it.seq() == text@,
            n == it.index(),
            total == text@.len(),
            "\n"@ == seq!['\n'],
            open == (line.len() > 0),
            forall|k: int| 0 <= k < line.len() ==> #[trigger] line[k] != '\n',
            out@ == if open {
                done + ("  "@ + line)
            } else {
                done
            },
            done + indented(line + text@.skip(n as int)) == old(out)@ + indented(text@),
    {
        let ghost rest = text@.skip(n + 1);
        assert(text@.skip(n as int) =~= seq![c] + rest);
        if !open {
            out.append("  ");
            open = true;
            assert(out@ =~= done + ("  "@ + line));
        }
        if c == '\n' {
            proof {
                lemma_indented_line(line, rest);
                assert(line + text@.skip(n as int) =~= line + seq!['\n'] + rest);
                assert(done + ("  "@ + line + "\n"@ + indented(rest)) =~= (done + ("  "@ + line
                    + "\n"@)) + indented(rest));
            }
            let ghost before = out@;
            out.push('\n');
            open = false;
            proof {
                assert(out@ =~= done + ("  "@ + line + "\n"@));
                done = out@;
                line = Seq::empty();
                assert(line + rest =~= rest);
            }
        } else {
            let ghost before = out@;
            out.push(c);
            proof {
                assert(line + text@.skip(n as int) =~= line.push(c) + rest);
                let longer = line.push(c);
                assert(out@ =~= done + ("  "@ + longer));
                line = longer;
            }
        }
        n += 1;
    }
    proof {
        assert(text@.skip(n as int) =~= Seq::empty());
        assert(line + text@.skip(n as int) =~= line);
        lemma_indented_line(line, Seq::empty());
        assert(indented(Seq::empty()) =~= Seq::empty());
    }
    if open {
        let ghost before = out@;
        out.push('\n');
        assert(out@ =~= done + ("  "@ + line + "\n"@));
    } else {
        assert(line =~= Seq::empty());
        assert(out@ =~= done + indented(line));
    }
}

/// How many log entries are shown.
pub const MAX_LOGS: usize = 20;

/// The lines of some log entries; entries that are no text are left out.
pub open spec fn log_lines(logs: Seq<Json>) -> Seq<char>
    decreases logs.len(),
{
    if logs.len() == 0 {
        Seq::empty()
    } else {
        log_lines(logs.drop_last()) + match logs.last().string() {
            Some(text) => indented(safe(text, 300)),
            None => Seq::empty(),
        }
    }
}

/// The log entries of a simulation, as they are shown.
pub open spec fn logs_text(logs: Seq<Json>) -> Seq<char> {
    if logs.len() == 0 {
        Seq::empty()
    } else if logs.len() <= MAX_LOGS {
        "\nLogs:\n"@ + log_lines(logs)
    } else {
        "\nLogs:\n"@ + log_lines(logs.take(MAX_LOGS as int)) + "  ... "@ + number_text(
            (logs.len() - MAX_LOGS) as nat,
        ) + " more log entries\n"@
    }
}

/// The log entries of a simulation.
pub open spec fn logs_in(simulation: Json) -> Seq<Json> {
    match simulation.member("logs"@) {
        Some(value) => match value.list() {
            Some(items) => items,
            None => Seq::empty(),
        },
        None => Seq::empty(),
    }
}

/// The outcome of a simulation, as it is shown.
pub open spec fn simulation_text(simulation: Json, failure: Json, label: Seq<char>) -> Seq<char> {
    let head = "\n"@ + rule() + "\n"@ + label + ": "@ + (if failure.kind is Null {
        "OK"@
    } else {
        "FAILED"@
    }) + "\n"@ + (match simulation.member_unsigned("unitsConsumed"@) {
        Some(units) => "Compute units: "@ + number_text(units as nat) + "\n"@,
        None => "Compute units: unavailable\n"@,
    });
    let reason = if failure.kind is Null {
        head
    } else {
        head + "Reason: "@ + safe(failure.text@, 300) + "\n"@
    };
    reason + logs_text(logs_in(simulation)) + rule() + "\n\n"@
}

/// What a simulation says: nothing is wrong, or the message of the failure.
pub open spec fn simulation_verdict(simulation: Json, show: bool, label: Seq<char>) -> Result<
    (),
    Seq<char>,
> {
    match simulation.member("err"@) {
        None => Err(Error::SimulationNoErr.text()),
        Some(failure) => if failure.kind is Null {
            Ok(())
        } else if show {
            Err(label + " failed; transaction not sent"@)
        } else {
            Err(label + " failed: "@ + safe(failure.text@, 300))
        },
    }
}

/// What is shown of a simulation.
pub open spec fn simulation_output(simulation: Json, show: bool, label: Seq<char>) -> Seq<char> {
    match simulation.member("err"@) {
        Some(failure) => if show {
            simulation_text(simulation, failure, label)
        } else {
            Seq::empty()
        },
        None => Seq::empty(),
    }
}

/// Appends the log entries of a simulation.
fn push_logs(out: &mut String, logs: &Vec<Json>)
    ensures
        final(out)@ == old(out)@ + logs_text(logs@),
{
    if logs.len() == 0 {
        assert(out@ =~= old(out)@ + logs_text(logs@));
        return ;
    }
    out.append("\nLogs:\n");
    let count: usize = if logs.len() < MAX_LOGS {
        logs.len()
    } else {
        MAX_LOGS
    };
    let ghost head = out@;
    assert(logs@.take(0) =~= Seq::empty());
    assert(out@ =~= head + log_lines(logs@.take(0)));
    let mut i: usize = 0;
    while i < count
        invariant
            i <= count <= logs@.len(),
            out@ == head + log_lines(logs@.take(i as int)),
        decreases count - i,
    {
        let ghost before = out@;
        proof {
            assert(logs@.take(i + 1).drop_last() =~= logs@.take(i as int));
            assert(logs@.take(i + 1).last() == logs@[i as int]);
        }
        if let Some(text) = logs[i].as_str() {
            push_indented(out, safe_text(text, 300).as_str());
        }
        assert(out@ =~= head + log_lines(logs@.take(i + 1)));
        i += 1;
    }
    if logs.len() > MAX_LOGS {
        let more = "  ... ".to_owned().concat(
            decimal((logs.len() - MAX_LOGS) as u128).as_str(),
        ).concat(" more log entries\n");
        out.append(more.as_str());
    } else {
        assert(logs@.take(i as int) =~= logs@);
    }
    assert(out@ =~= old(out)@ + logs_text(logs@));
}

/// Shows the outcome of a simulation, if asked, and tells whether it succeeded.
pub fn render_simulation(simulation: &Json, show: bool, label: &str) -> (outcome: (
    String,
    Result<(), Error>,
))
    ensures
        outcome.0@ == simulation_output(*simulation, show, label@),
        match simulation_verdict(*simulation, show, label@) {
            Ok(()) => outcome.1 is Ok,
            Err(message) => outcome.1 matches Err(e) && e.text() == message,
        },
{
    let failure = match simulation.get("err") {
        Some(failure) => failure,
        None => return (String::new(), Err(Error::SimulationNoErr)),
    };
    let mut out = String::new();
    if show {
        out = "\n".to_owned().concat(output_rule()).concat("\n").concat(label).concat(": ").concat(
            if failure.is_null() {
                "OK"
            } else {
                "FAILED"
            },
        ).concat("\n");
        let units = match simulation.get_u64("unitsConsumed") {
            Some(units) => "Compute units: ".to_owned().concat(
                decimal(units as u128).as_str(),
            ).concat("\n"),
            None => "Compute units: unavailable\n".to_owned(),
        };
        out.append(units.as_str());
        if !failure.is_null() {
            out = out.concat("Reason: ").concat(
                safe_text(failure.text.as_str(), 300).as_str(),
            ).concat("\n");
        }
        let ghost before = out@;
        match simulation.get("logs") {
            Some(value) => match value.as_list() {
                Some(logs) => {
                    push_logs(&mut out, logs);
                },
                None => {
                    assert(before + logs_text(Seq::empty()) =~= before);
                },
            },
            None => {
                assert(before + logs_text(Seq::empty()) =~= before);
            },
        }
        assert(out@ == before + logs_text(logs_in(*simulation)));
        out = out.concat(output_rule()).concat("\n\n");
    }
    if failure.is_null() {
        (out, Ok(()))
    } else if show {
        (out, Err(Error::SimulationFailed(label.to_owned())))
    } else {
        (
            out,
            Err(
                Error::SimulationReason(
                    label.to_owned(),
                    safe_text(failure.text.as_str(), 300),
                ),
            ),
        )
    }
}

// ---------------------------------------------------------------------------------------------
// Sending everything
// ---------------------------------------------------------------------------------------------
/// What is left of a balance when the fee is paid.
pub fn spend_all_lamports(balance: u64, fee: u64) -> (amount: Result<u64, Error>)
    ensures
        balance > fee ==> amount == Ok::<u64, Error>((balance - fee) as u64),
        balance <= fee ==> amount == Err::<u64, Error>(Error::InsufficientForAll),
{
    if balance > fee {
        Ok(balance - fee)
    } else {
        Err(Error::InsufficientForAll)
    }
}

/// Why a simulation does not show that everything is sent.
pub open spec fn drain_refused(simulation: Json) -> Option<Error> {
    match simulation.unsigned_at(path2("postBalances"@, "0"@)) {
        None => Some(Error::NoPostBalance),
        Some(remaining) => if remaining != 0 {
            Some(Error::AllLeavesRest)
        } else {
            None
        },
    }
}

/// Checks that nothing is left to the payer after a simulation.
pub fn ensure_all_would_drain(simulation: &Json) -> (result: Result<(), Error>)
    ensures
        match drain_refused(*simulation) {
            Some(error) => result == Err::<(), Error>(error),
            None => result is Ok,
        },
{
    let path: [&str; 2] = ["postBalances", "0"];
    assert(str_views(path@) =~= path2("postBalances"@, "0"@));
    match simulation.pointer_u64(&path) {
        Some(remaining) => {
            if remaining != 0 {
                Err(Error::AllLeavesRest)
            } else {
                Ok(())
            }
        },
        None => Err(Error::NoPostBalance),
    }
}

// ---------------------------------------------------------------------------------------------
// Laws
// ---------------------------------------------------------------------------------------------
/// Nothing is left to the payer if and only if the simulation tells a first balance of zero.
pub proof fn everything_is_gone_only_at_zero(simulation: Json)
    ensures
        (drain_refused(simulation) is None) == (simulation.unsigned_at(
            seq!["postBalances"@, "0"@],
        ) == Some(0u64)),
{
}

/// A simulation has succeeded if and only if it tells an error that is null, whatever is shown.
pub proof fn simulations_succeed_without_an_error(simulation: Json, show: bool, label: Seq<char>)
    ensures
        (simulation_verdict(simulation, show, label) is Ok) == (simulation.member("err"@) is Some
            && simulation.member("err"@)->Some_0.kind is Null),
        !show ==> simulation_output(simulation, show, label).len() == 0,
        simulation.member("err"@) is Some && !(simulation.member("err"@)->Some_0.kind is Null)
            && !show ==> simulation_verdict(simulation, show, label) == Err::<(), Seq<char>>(
            label + " failed: "@ + safe(simulation.member("err"@)->Some_0.text@, 300),
        ),
{
    reveal_strlit("");
}

/// A transaction is one signature and the message that it signs; without a signature, zeros take
/// its place. It is compiled for the payer, from the instructions, and fits into a packet.
pub proof fn a_transaction_carries_its_message(
    payer: Seq<u8>,
    instructions: Seq<InstructionView>,
    blockhash: Seq<u8>,
    signature: Seq<u8>,
    message: Seq<u8>,
)
    requires
        signature.len() == 64,
    ensures
        wire(signature, message).len() == 65 + message.len(),
        wire(signature, message)[0] == 1,
        wire(signature, message).subrange(1, 65) == signature,
        wire(signature, message).skip(65) == message,
        no_signature().len() == 64,
        forall|i: int| 0 <= i < 64 ==> #[trigger] no_signature()[i] == 0,
        unsigned_of(payer, instructions, blockhash) matches Ok((m, bytes)) ==> compiled_message(
            payer,
            instructions,
            blockhash,
        ) == Ok::<Seq<u8>, Seq<char>>(m) && bytes.skip(65) == m && bytes.len() <= 1232,
        compiled_message(payer, instructions, blockhash) is Ok && compiled_message(
            payer,
            instructions,
            blockhash,
        )->Ok_0.len() + 65 <= 1232 ==> unsigned_of(payer, instructions, blockhash) is Ok,
{
    assert(wire(signature, message).subrange(1, 65) =~= signature);
    assert(wire(signature, message).skip(65) =~= message);
    if let Ok((m, bytes)) = unsigned_of(payer, instructions, blockhash) {
        assert(bytes.skip(65) =~= m);
    }
}

/// A message that one account signs alone has one signature, and that account is its first.
pub proof fn the_only_signer_comes_first(message: Seq<u8>, key: Seq<u8>)
    ensures
        only_signer(message, key) == (message_signers(message) is Some && message_signers(
            message,
        )->Some_0.0 == 1 && message_signers(message)->Some_0.1 == Some(key)),
{
}

/// What is shown of a simulation says under its label whether it succeeded, between two rules.
pub proof fn the_outcome_of_a_simulation_is_shown(simulation: Json, label: Seq<char>)
    requires
        simulation.member("err"@) is Some,
    ensures
        ({
            let dashes = "------------------------------------------------"@;
            let text = simulation_output(simulation, true, label);
            let good = simulation.member("err"@)->Some_0.kind is Null;
            &&& good ==> has_prefix(text, "\n"@ + dashes + "\n"@ + label + ": "@ + "OK"@)
            &&& !good ==> has_prefix(text, "\n"@ + dashes + "\n"@ + label + ": "@ + "FAILED"@)
            &&& has_suffix(text, dashes + "\n\n"@)
        }),
{
    let dashes = "------------------------------------------------"@;
    let text = simulation_output(simulation, true, label);
    let good = simulation.member("err"@)->Some_0.kind is Null;
    let head = "\n"@ + dashes + "\n"@ + label + ": "@ + if good {
        "OK"@
    } else {
        "FAILED"@
    };
    let tail = dashes + "\n\n"@;
    assert(text.subrange(0, head.len() as int) =~= head);
    assert(text.subrange(text.len() - tail.len(), text.len() as int) =~= tail);
}

} // verus!
