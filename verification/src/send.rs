//! Sending a transaction, step by step.
//!
//! A `Sending` decides what to do next: ask the network, ask the user, wait, or stop. Whoever runs
//! it does that and hands the outcome back. Nothing is signed before every check has passed and
//! the user, where asked, has agreed.
use vstd::prelude::*;
use vstd::string::*;

use crate::amount::{amount_text, format_amount};
use crate::config::SecurityConfig;
use crate::error::Error;
use crate::instruction::{a_compute_limit_names_its_units, compute_limit_for, compute_limit_of,
    instruction_views, lamports_go_from_the_source_to_the_target, number_in, set_compute_unit_limit,
    system_transfer, system_transfer_of, tuned_compute_limit, AccountMeta, AccountMetaView,
    Instruction, InstructionView, COMPUTE_BUDGET, MAX_COMPUTE_UNITS, SYSTEM};
use crate::json::Json;
use crate::pubkey::{address_text, Pubkey};
use crate::rpc::{blockhash_call, blockhash_in, confirm_result, fee_call, fee_from_response,
    latest_blockhash_result, safe, safe_text, send_call, send_result, sent_signature_in,
    simulate_call, simulate_result, simulation_in, status_call, status_in, CallView, Rpc, RpcCall,
    STATUS_PAUSE_SECS, STATUS_POLLS};
use crate::signer::{ed25519_public_key, ed25519_signature, Keypair};
use crate::text::{decimal, has_prefix, has_suffix, number_text, same, trim, trimmed};
use crate::transaction::{compile_unsigned, compiled_message, drain_refused, ensure_all_would_drain,
    no_signature, only_payer_signs, only_signer, output_rule, render_simulation, rule, sign_v0,
    signature_text, simulation_output, simulation_verdict, spend_all_lamports, transaction_wire,
    unsigned_of, wire, MAX_TRANSACTION_BYTES};

verus! {

// ---------------------------------------------------------------------------------------------
// The plan
// ---------------------------------------------------------------------------------------------
/// A transfer of everything that is left when the fee is paid.
#[derive(Clone, Copy)]
pub struct SpendAll {
    pub balance: u64,
    pub target: Pubkey,
}

/// What is to be sent.
pub struct PlanView {
    pub secret: Seq<u8>,
    pub instructions: Seq<InstructionView>,
    pub details: Seq<char>,
    pub burn_confirmation: bool,
    pub spend_all: Option<(u64, Seq<u8>)>,
    pub security: SecurityConfig,
    pub cluster: Seq<char>,
    pub endpoint: Seq<char>,
}

/// What is to be sent, by whom, and what is checked before.
pub struct SendPlan {
    pub signer: Keypair,
    pub instructions: Vec<Instruction>,
    pub details: String,
    pub burn_confirmation: bool,
    pub spend_all: Option<SpendAll>,
    pub security: SecurityConfig,
    pub cluster: String,
    pub endpoint: String,
}

impl View for SendPlan {
    type V = PlanView;

    open spec fn view(&self) -> PlanView {
        PlanView {
            secret: self.signer@,
            instructions: instruction_views(self.instructions@),
            details: self.details@,
            burn_confirmation: self.burn_confirmation,
            spend_all: match self.spend_all {
                Some(all) => Some((all.balance, all.target@)),
                None => None,
            },
            security: self.security,
            cluster: self.cluster@,
            endpoint: self.endpoint@,
        }
    }
}

impl PlanView {
    /// The account that signs and pays.
    pub open spec fn payer(self) -> Seq<u8> {
        ed25519_public_key(self.secret)
    }

    /// A simulation tells how many compute units to ask for.
    pub open spec fn optimize(self) -> bool {
        self.security.tunes_limit()
    }

    /// The instructions to compile: with a compute limit in front, where there is one, and with
    /// the amount of a transfer of everything, where it is known.
    pub open spec fn list(self, limit: Option<u32>, amount: Option<u64>) -> Seq<InstructionView> {
        let body = match (amount, self.spend_all) {
            (Some(lamports), Some((_, target))) => self.instructions.update(
                0,
                system_transfer_of(self.payer(), target, lamports),
            ),
            _ => self.instructions,
        };
        match limit {
            Some(units) => seq![compute_limit_of(units)] + body,
            None => body,
        }
    }

    /// The message and the unsigned transaction of the instructions.
    pub open spec fn compiled(
        self,
        limit: Option<u32>,
        amount: Option<u64>,
        blockhash: Seq<u8>,
    ) -> Result<(Seq<u8>, Seq<u8>), Seq<char>> {
        unsigned_of(self.payer(), self.list(limit, amount), blockhash)
    }

    /// No instruction asks for a signature but the payer's.
    pub open spec fn own(self) -> bool {
        only_payer_signs(self.payer(), self.instructions)
    }

    /// A message that the payer can sign alone, and that fits into a packet.
    pub open spec fn sendable(self, message: Seq<u8>) -> bool {
        only_signer(message, self.payer()) && wire(no_signature(), message).len()
            <= MAX_TRANSACTION_BYTES
    }

    /// A compute limit and the amount of a transfer of everything ask for no other signature.
    proof fn lemma_list_own(self, limit: Option<u32>, amount: Option<u64>)
        requires
            self.own(),
            self.instructions.len() > 0,
        ensures
            only_payer_signs(self.payer(), self.list(limit, amount)),
    {
        let list = self.list(limit, amount);
        let body = self.list(None, amount);
        assert(only_payer_signs(self.payer(), body)) by {
            assert forall|i: int, j: int|
                0 <= i < body.len() && 0 <= j < body[i].accounts.len() && (
                #[trigger] body[i].accounts[j]).is_signer implies body[i].accounts[j].pubkey
                == self.payer() by {
                if body[i] == self.instructions[i] {
                    assert(self.instructions[i].accounts[j].is_signer);
                }
            }
        }
        assert forall|i: int, j: int|
            0 <= i < list.len() && 0 <= j < list[i].accounts.len() && (
            #[trigger] list[i].accounts[j]).is_signer implies list[i].accounts[j].pubkey
            == self.payer() by {
            if limit is Some {
                if i > 0 {
                    assert(list[i] == body[i - 1]);
                    assert(body[i - 1].accounts[j].is_signer);
                }
            } else {
                assert(body[i].accounts[j].is_signer);
            }
        }
    }
}

// ---------------------------------------------------------------------------------------------
// The summary
// ---------------------------------------------------------------------------------------------
/// A line for an account of an instruction.
pub open spec fn account_line(account: AccountMetaView) -> Seq<char> {
    "  "@ + address_text(account.pubkey) + (if account.is_signer {
        " signer"@
    } else {
        ""@
    }) + (if account.is_writable {
        " writable"@
    } else {
        ""@
    }) + "\n"@
}

/// Lines for the accounts of an instruction.
pub open spec fn account_lines(accounts: Seq<AccountMetaView>) -> Seq<char>
    decreases accounts.len(),
{
    if accounts.len() == 0 {
        Seq::empty()
    } else {
        account_lines(accounts.drop_last()) + account_line(accounts.last())
    }
}

/// Lines for some instructions, numbered from one.
pub open spec fn instruction_lines(instructions: Seq<InstructionView>) -> Seq<char>
    decreases instructions.len(),
{
    if instructions.len() == 0 {
        Seq::empty()
    } else {
        let last = instructions.last();
        instruction_lines(instructions.drop_last()) + ("Instruction "@ + number_text(
            instructions.len(),
        ) + ": "@ + address_text(last.program_id) + "\n"@ + account_lines(last.accounts))
    }
}

/// The fee and the amount of a transfer of everything.
pub open spec fn quote_text(balance: u64, fee: u64, amount: u64) -> Seq<char> {
    "Balance: "@ + amount_text(balance, 9) + " SOL\nNetwork fee: "@ + amount_text(fee, 9)
        + " SOL\nSend: "@ + amount_text(amount, 9) + " SOL\nExpected remaining: 0 SOL\n"@
}

/// What the user sees of a transaction before it is simulated and sent.
pub open spec fn summary(plan: PlanView, limit: Option<u32>, quote: Option<(u64, u64)>) -> Seq<
    char,
> {
    let head = "\n"@ + rule() + "\nTransaction\n\nConfigured cluster: "@ + safe(plan.cluster, 80)
        + "\nRPC host: "@ + safe(plan.endpoint, 150) + "\nFee payer: "@ + address_text(
        plan.payer(),
    ) + "\n"@ + plan.details + "\n"@;
    let quoted = match (quote, plan.spend_all) {
        (Some((fee, amount)), Some((balance, _))) => head + quote_text(balance, fee, amount),
        _ => head,
    };
    let limited = match limit {
        Some(units) => quoted + "Compute-unit limit: "@ + number_text(units as nat) + "\n"@,
        None => quoted,
    };
    let amount = match quote {
        Some((_, amount)) => Some(amount),
        None => None,
    };
    let detailed = if plan.security.show_details {
        limited + instruction_lines(plan.list(limit, amount))
    } else {
        limited
    };
    detailed + rule() + "\n"@
}

fn push_accounts(out: &mut String, accounts: &Vec<AccountMeta>)
    ensures
        final(out)@ == old(out)@ + account_lines(
            accounts@.map_values(|a: AccountMeta| a@),
        ),
{
    let ghost views = accounts@.map_values(|a: AccountMeta| a@);
    assert(views.take(0) =~= Seq::empty());
    assert(out@ =~= old(out)@ + account_lines(views.take(0)));
    let mut i: usize = 0;
    while i < accounts.len()
        invariant
            i <= accounts@.len(),
            views == accounts@.map_values(|a: AccountMeta| a@),
            out@ == old(out)@ + account_lines(views.take(i as int)),
        decreases accounts@.len() - i,
    {
        let account = &accounts[i];
        let line = "  ".to_owned().concat(account.pubkey.text().as_str()).concat(
            if account.is_signer {
                " signer"
            } else {
                ""
            },
        ).concat(
            if account.is_writable {
                " writable"
            } else {
                ""
            },
        ).concat("\n");
        proof {
            assert(views[i as int] == account@);
            assert(line@ == account_line(account@));
            assert(views.take(i + 1).drop_last() =~= views.take(i as int));
        }
        out.append(line.as_str());
        assert(out@ =~= old(out)@ + account_lines(views.take(i + 1)));
        i += 1;
    }
    assert(views.take(i as int) =~= views);
}

fn push_instructions(out: &mut String, instructions: &Vec<Instruction>)
    ensures
        final(out)@ == old(out)@ + instruction_lines(instruction_views(instructions@)),
{
    let ghost views = instruction_views(instructions@);
    assert(views.take(0) =~= Seq::empty());
    assert(out@ =~= old(out)@ + instruction_lines(views.take(0)));
    let mut i: usize = 0;
    while i < instructions.len()
        invariant
            i <= instructions@.len(),
            views == instruction_views(instructions@),
            out@ == old(out)@ + instruction_lines(views.take(i as int)),
        decreases instructions@.len() - i,
    {
        let instruction = &instructions[i];
        let mut lines = "Instruction ".to_owned().concat(
            decimal(i as u128 + 1).as_str(),
        ).concat(": ").concat(instruction.program_id.text().as_str()).concat("\n");
        push_accounts(&mut lines, &instruction.accounts);
        proof {
            assert(views[i as int] == instruction@);
            assert(views.take(i + 1).drop_last() =~= views.take(i as int));
            assert(views.take(i + 1).len() == (i + 1) as nat);
        }
        out.append(lines.as_str());
        assert(out@ =~= old(out)@ + instruction_lines(views.take(i + 1)));
        i += 1;
    }
    assert(views.take(i as int) =~= views);
}

impl SendPlan {
    /// The instructions to compile.
    fn list(&self, limit: Option<u32>, amount: Option<u64>) -> (list: Vec<Instruction>)
        requires
            self.instructions@.len() > 0,
        ensures
            instruction_views(list@) == self@.list(limit, amount),
    {
        let mut list: Vec<Instruction> = Vec::new();
        if let Some(units) = limit {
            list.push(set_compute_unit_limit(units));
        }
        let ghost front = instruction_views(list@);
        let mut i: usize = 0;
        if let Some(lamports) = amount {
            if let Some(all) = self.spend_all {
                list.push(system_transfer(&self.signer.pubkey(), &all.target, lamports));
                i = 1;
            }
        }
        let ghost body = self@.list(None, amount);
        assert(instruction_views(list@) =~= front + body.take(i as int));
        while i < self.instructions.len()
            invariant
                i <= self.instructions@.len(),
                body == self@.list(None, amount),
                body.len() == self.instructions@.len(),
                i == 0 ==> body == self@.instructions,
                forall|k: int| 1 <= k < body.len() ==> #[trigger] body[k] == self@.instructions[k],
                instruction_views(list@) == front + body.take(i as int),
            decreases self.instructions@.len() - i,
        {
            let ghost before = list@;
            list.push(self.instructions[i].copy());
            proof {
                assert(self@.instructions[i as int] == self.instructions@[i as int]@);
                assert(instruction_views(list@) =~= instruction_views(before).push(
                    self.instructions@[i as int]@,
                ));
                assert(front + body.take(i + 1) =~= (front + body.take(i as int)).push(
                    body[i as int],
                ));
            }
            i += 1;
        }
        assert(body.take(i as int) =~= body);
        assert(instruction_views(list@) =~= self@.list(limit, amount));
        list
    }

    /// What the user sees before the transaction is simulated and sent.
    fn summary(&self, limit: Option<u32>, quote: Option<(u64, u64)>) -> (text: String)
        requires
            self.instructions@.len() > 0,
        ensures
            text@ == summary(self@, limit, quote),
    {
        let mut out = "\n".to_owned().concat(output_rule()).concat(
            "\nTransaction\n\nConfigured cluster: ",
        ).concat(safe_text(self.cluster.as_str(), 80).as_str()).concat("\nRPC host: ").concat(
            safe_text(self.endpoint.as_str(), 150).as_str(),
        ).concat("\nFee payer: ").concat(self.signer.pubkey().text().as_str()).concat("\n").concat(
            self.details.as_str(),
        ).concat("\n");
        let mut amount: Option<u64> = None;
        if let Some((fee, lamports)) = quote {
            amount = Some(lamports);
            if let Some(all) = self.spend_all {
                let text = "Balance: ".to_owned().concat(
                    format_amount(all.balance, 9).as_str(),
                ).concat(" SOL\nNetwork fee: ").concat(format_amount(fee, 9).as_str()).concat(
                    " SOL\nSend: ",
                ).concat(format_amount(lamports, 9).as_str()).concat(
                    " SOL\nExpected remaining: 0 SOL\n",
                );
                out.append(text.as_str());
            }
        }
        if let Some(units) = limit {
            out = out.concat("Compute-unit limit: ").concat(decimal(units as u128).as_str()).concat(
                "\n",
            );
        }
        if self.security.show_details {
            push_instructions(&mut out, &self.list(limit, amount));
        }
        out.concat(output_rule()).concat("\n")
    }
}

// ---------------------------------------------------------------------------------------------
// Steps
// ---------------------------------------------------------------------------------------------
/// How far the sending is.
pub enum StageView {
    Start,
    Blockhash,
    Probe { blockhash: Seq<u8> },
    Fee { blockhash: Seq<u8>, limit: Option<u32> },
    FinalFee { limit: Option<u32>, fee: u64, amount: u64, message: Seq<u8> },
    Simulation { message: Seq<u8> },
    Answer { message: Seq<u8> },
    Submit { signature: Seq<char> },
    Status { signature: Seq<char>, asked: u8 },
    Paused { signature: Seq<char>, asked: u8 },
    Over,
}

/// What has happened.
pub enum EventView {
    Begin,
    Reply(Json),
    Failed(Seq<char>),
    Line(Option<Seq<char>>),
    Resumed,
}

/// What to do next.
pub enum NextView {
    Call(CallView),
    Ask(Seq<char>),
    Pause(u64),
    Done(bool),
    Fail(Seq<char>),
}

/// What to show, and what to do next.
pub struct ActionView {
    pub output: Seq<char>,
    pub next: NextView,
}

/// How far the sending is: what is waited for, with what is known by then.
pub enum Stage {
    Start,
    Blockhash,
    Probe { blockhash: [u8; 32] },
    Fee { blockhash: [u8; 32], limit: Option<u32> },
    FinalFee { limit: Option<u32>, fee: u64, amount: u64, message: Vec<u8> },
    Simulation { message: Vec<u8> },
    Answer { message: Vec<u8> },
    Submit { signature: String },
    Status { signature: String, asked: u8 },
    Paused { signature: String, asked: u8 },
    Over,
}

impl View for Stage {
    type V = StageView;

    open spec fn view(&self) -> StageView {
        match self {
            Stage::Start => StageView::Start,
            Stage::Blockhash => StageView::Blockhash,
            Stage::Probe { blockhash } => StageView::Probe { blockhash: blockhash@ },
            Stage::Fee { blockhash, limit } => StageView::Fee {
                blockhash: blockhash@,
                limit: *limit,
            },
            Stage::FinalFee { limit, fee, amount, message } => StageView::FinalFee {
                limit: *limit,
                fee: *fee,
                amount: *amount,
                message: message@,
            },
            Stage::Simulation { message } => StageView::Simulation { message: message@ },
            Stage::Answer { message } => StageView::Answer { message: message@ },
            Stage::Submit { signature } => StageView::Submit { signature: signature@ },
            Stage::Status { signature, asked } => StageView::Status {
                signature: signature@,
                asked: *asked,
            },
            Stage::Paused { signature, asked } => StageView::Paused {
                signature: signature@,
                asked: *asked,
            },
            Stage::Over => StageView::Over,
        }
    }
}

/// What has happened: the sending begins, the network has answered or a call has failed, the user
/// has typed a line, or a pause is over.
pub enum Event {
    Begin,
    Reply(Json),
    Failed(Error),
    Line(Option<String>),
    Resumed,
}

impl View for Event {
    type V = EventView;

    open spec fn view(&self) -> EventView {
        match self {
            Event::Begin => EventView::Begin,
            Event::Reply(json) => EventView::Reply(*json),
            Event::Failed(error) => EventView::Failed(error.text()),
            Event::Line(line) => EventView::Line(
                match line {
                    Some(text) => Some(text@),
                    None => None,
                },
            ),
            Event::Resumed => EventView::Resumed,
        }
    }
}

/// What to do next: ask the network, ask the user for a line, wait some seconds, or stop.
pub enum Next {
    Call(RpcCall),
    Ask(&'static str),
    Pause(u64),
    Done(bool),
    Fail(Error),
}

impl View for Next {
    type V = NextView;

    open spec fn view(&self) -> NextView {
        match self {
            Next::Call(call) => NextView::Call(call@),
            Next::Ask(prompt) => NextView::Ask(prompt@),
            Next::Pause(secs) => NextView::Pause(*secs),
            Next::Done(confirmed) => NextView::Done(*confirmed),
            Next::Fail(error) => NextView::Fail(error.text()),
        }
    }
}

/// What to show, and what to do next.
pub struct Action {
    pub output: String,
    pub next: Next,
}

impl View for Action {
    type V = ActionView;

    open spec fn view(&self) -> ActionView {
        ActionView { output: self.output@, next: self.next@ }
    }
}

/// The sending stops with a message.
pub open spec fn stop(output: Seq<char>, message: Seq<char>) -> (StageView, ActionView) {
    (StageView::Over, ActionView { output, next: NextView::Fail(message) })
}

/// The sending goes on with a call.
pub open spec fn ask(stage: StageView, output: Seq<char>, call: CallView) -> (
    StageView,
    ActionView,
) {
    (stage, ActionView { output, next: NextView::Call(call) })
}

impl PlanView {
    /// The message is signed and sent, if only the payer has to sign it.
    pub open spec fn submit(self, message: Seq<u8>, output: Seq<char>) -> (StageView, ActionView) {
        let signature = ed25519_signature(self.secret, message);
        if !only_signer(message, self.payer()) {
            stop(output, Error::SignerMismatch.text())
        } else if wire(signature, message).len() > MAX_TRANSACTION_BYTES {
            stop(output, Error::SignedPacketLimit.text())
        } else {
            ask(
                StageView::Submit { signature: signature_text(signature) },
                output,
                send_call(wire(signature, message)),
            )
        }
    }

    /// The user is asked, where it takes an agreement.
    pub open spec fn confirm(self, message: Seq<u8>, output: Seq<char>) -> (StageView, ActionView) {
        if self.burn_confirmation {
            (
                StageView::Answer { message },
                ActionView {
                    output,
                    next: NextView::Ask("Burn tokens and send transaction? Type 'BURN': "@),
                },
            )
        } else if self.security.confirm_every_transaction {
            (
                StageView::Answer { message },
                ActionView { output, next: NextView::Ask("Send transaction? Type 'yes': "@) },
            )
        } else {
            self.submit(message, output)
        }
    }

    /// The word by which the user agrees.
    pub open spec fn agreement(self) -> Seq<char> {
        if self.burn_confirmation {
            "BURN"@
        } else {
            "yes"@
        }
    }

    /// The summary is shown, and the transaction is simulated, where that is asked for.
    pub open spec fn ready(
        self,
        limit: Option<u32>,
        quote: Option<(u64, u64)>,
        message: Seq<u8>,
    ) -> (StageView, ActionView) {
        let output = summary(self, limit, quote);
        if self.security.simulate_before_send {
            ask(
                StageView::Simulation { message },
                output,
                simulate_call(wire(no_signature(), message)),
            )
        } else {
            self.confirm(message, output)
        }
    }

    /// The instructions are final. For a transfer of everything the fee is asked for once more.
    pub open spec fn prepared(
        self,
        blockhash: Seq<u8>,
        limit: Option<u32>,
        quote: Option<(u64, u64)>,
    ) -> (StageView, ActionView) {
        let amount = match quote {
            Some((_, amount)) => Some(amount),
            None => None,
        };
        match self.compiled(limit, amount, blockhash) {
            Err(message) => stop(""@, message),
            Ok((message, _)) => match quote {
                Some((fee, amount)) => ask(
                    StageView::FinalFee { limit, fee, amount, message },
                    ""@,
                    fee_call(message),
                ),
                None => self.ready(limit, None, message),
            },
        }
    }

    /// The compute limit is known. A transfer of everything asks for the fee.
    pub open spec fn limited(self, blockhash: Seq<u8>, limit: Option<u32>) -> (
        StageView,
        ActionView,
    ) {
        if self.spend_all is Some {
            match self.compiled(limit, None, blockhash) {
                Err(message) => stop(""@, message),
                Ok((message, _)) => ask(
                    StageView::Fee { blockhash, limit },
                    ""@,
                    fee_call(message),
                ),
            }
        } else {
            self.prepared(blockhash, limit, None)
        }
    }

    /// After the blockhash.
    pub open spec fn after_blockhash(self, reply: Json) -> (StageView, ActionView) {
        match blockhash_in(reply) {
            Err(message) => stop(""@, message),
            Ok(blockhash) => if self.optimize() {
                match self.compiled(Some(MAX_COMPUTE_UNITS), None, blockhash) {
                    Err(message) => stop(""@, message),
                    Ok((_, probe)) => ask(
                        StageView::Probe { blockhash },
                        ""@,
                        simulate_call(probe),
                    ),
                }
            } else {
                self.limited(blockhash, None)
            },
        }
    }

    /// After the simulation that tells the compute units.
    pub open spec fn after_probe(self, blockhash: Seq<u8>, reply: Json) -> (StageView, ActionView) {
        match simulation_in(reply) {
            Err(error) => stop(""@, error.text()),
            Ok(simulation) => match simulation_verdict(simulation, false, "CU probe"@) {
                Err(message) => stop(""@, message),
                Ok(()) => match simulation.member_unsigned("unitsConsumed"@) {
                    None => stop(""@, Error::ProbeNoUnits.text()),
                    Some(used) => match compute_limit_for(
                        used,
                        self.security.compute_unit_margin_percent,
                    ) {
                        Err(error) => stop(""@, error.text()),
                        Ok(limit) => self.limited(blockhash, Some(limit)),
                    },
                },
            },
        }
    }

    /// After the fee of a transfer of everything.
    pub open spec fn after_fee(self, blockhash: Seq<u8>, limit: Option<u32>, reply: Json) -> (
        StageView,
        ActionView,
    ) {
        let balance = self.spend_all->Some_0.0;
        match reply.member_unsigned("value"@) {
            None => stop(""@, Error::FeeUnavailable.text()),
            Some(fee) => if balance <= fee {
                stop(""@, Error::InsufficientForAll.text())
            } else {
                self.prepared(blockhash, limit, Some((fee, (balance - fee) as u64)))
            },
        }
    }

    /// After the fee of the final message.
    pub open spec fn after_final_fee(
        self,
        limit: Option<u32>,
        fee: u64,
        amount: u64,
        message: Seq<u8>,
        reply: Json,
    ) -> (StageView, ActionView) {
        match reply.member_unsigned("value"@) {
            None => stop(""@, Error::FeeUnavailable.text()),
            Some(found) => if found != fee {
                stop(""@, Error::FeeChanged.text())
            } else {
                self.ready(limit, Some((fee, amount)), message)
            },
        }
    }

    /// After the simulation.
    pub open spec fn after_simulation(self, message: Seq<u8>, reply: Json) -> (
        StageView,
        ActionView,
    ) {
        match simulation_in(reply) {
            Err(error) => stop(""@, error.text()),
            Ok(simulation) => {
                let show = self.security.show_simulation;
                let shown = simulation_output(simulation, show, "Simulation"@);
                let output = if show {
                    shown
                } else {
                    shown + "Simulation: OK\n"@
                };
                match simulation_verdict(simulation, show, "Simulation"@) {
                    Err(text) => stop(shown, text),
                    Ok(()) => if self.spend_all is Some && drain_refused(simulation) is Some {
                        stop(output, drain_refused(simulation)->Some_0.text())
                    } else {
                        self.confirm(message, output)
                    },
                }
            },
        }
    }

    /// After the answer of the user.
    pub open spec fn after_answer(self, message: Seq<u8>, line: Option<Seq<char>>) -> (
        StageView,
        ActionView,
    ) {
        if agreed(self, line) {
            self.submit(message, ""@)
        } else {
            stop(""@, Error::Cancelled.text())
        }
    }

    /// After the transaction was sent.
    pub open spec fn after_submit(self, signature: Seq<char>, reply: Json) -> (
        StageView,
        ActionView,
    ) {
        match sent_signature_in(reply) {
            Err(error) => stop(""@, send_unknown(signature, error.text())),
            Ok(returned) => if returned != signature {
                stop(""@, Error::OtherSignature.text())
            } else {
                ask(
                    StageView::Status { signature, asked: 1 },
                    "Submitted: "@ + signature + "\n"@,
                    status_call(signature),
                )
            },
        }
    }

    /// After an answer about the status of the transaction.
    pub open spec fn after_status(self, signature: Seq<char>, asked: u8, reply: Json) -> (
        StageView,
        ActionView,
    ) {
        match status_in(reply) {
            Err(message) => stop(""@, message),
            Ok(true) => (
                StageView::Over,
                ActionView {
                    output: "Confirmed: "@ + signature + "\n"@,
                    next: NextView::Done(true),
                },
            ),
            Ok(false) => (
                StageView::Paused { signature, asked },
                ActionView { output: ""@, next: NextView::Pause(STATUS_PAUSE_SECS) },
            ),
        }
    }

    /// After a pause.
    pub open spec fn after_pause(self, signature: Seq<char>, asked: u8) -> (StageView, ActionView) {
        if asked >= STATUS_POLLS {
            (
                StageView::Over,
                ActionView {
                    output: "Confirmation pending; check signature: "@ + signature + "\n"@,
                    next: NextView::Done(false),
                },
            )
        } else {
            ask(
                StageView::Status { signature, asked: (asked + 1) as u8 },
                ""@,
                status_call(signature),
            )
        }
    }

    /// What follows a stage when something has happened.
    pub open spec fn after(self, stage: StageView, event: EventView) -> (StageView, ActionView) {
        match event {
            EventView::Begin => if self.instructions.len() == 0 {
                stop(""@, Error::NoInstructions.text())
            } else {
                ask(StageView::Blockhash, ""@, blockhash_call())
            },
            EventView::Failed(message) => match stage {
                StageView::Submit { signature } => stop(""@, send_unknown(signature, message)),
                _ => stop(""@, message),
            },
            EventView::Resumed => self.after_pause(stage->Paused_signature, stage->Paused_asked),
            EventView::Line(line) => self.after_answer(stage->Answer_message, line),
            EventView::Reply(reply) => match stage {
                StageView::Blockhash => self.after_blockhash(reply),
                StageView::Probe { blockhash } => self.after_probe(blockhash, reply),
                StageView::Fee { blockhash, limit } => self.after_fee(blockhash, limit, reply),
                StageView::FinalFee { limit, fee, amount, message } => self.after_final_fee(
                    limit,
                    fee,
                    amount,
                    message,
                    reply,
                ),
                StageView::Simulation { message } => self.after_simulation(message, reply),
                StageView::Submit { signature } => self.after_submit(signature, reply),
                StageView::Status { signature, asked } => self.after_status(
                    signature,
                    asked,
                    reply,
                ),
                _ => stop(""@, ""@),
            },
        }
    }
}

impl PlanView {
    /// The message of a stage, where it has one, can be signed and sent.
    pub open spec fn keeps(self, stage: StageView) -> bool {
        match stage {
            StageView::FinalFee { message, .. } => self.sendable(message),
            StageView::Simulation { message } => self.sendable(message),
            StageView::Answer { message } => self.sendable(message),
            _ => true,
        }
    }
}

/// The message where it is not known whether a transaction was sent.
pub open spec fn send_unknown(signature: Seq<char>, reason: Seq<char>) -> Seq<char> {
    "send outcome unknown; check signature "@ + signature + " before retrying: "@ + reason
}

/// The user has typed the word of agreement. No answer is an empty one.
pub open spec fn agreed(plan: PlanView, line: Option<Seq<char>>) -> bool {
    let text = match line {
        Some(text) => text,
        None => ""@,
    };
    trimmed(text) == plan.agreement()
}

/// An event that a stage waits for. A call or a line can fail, too.
pub open spec fn awaited(stage: StageView, event: EventView) -> bool {
    match stage {
        StageView::Start => event is Begin,
        StageView::Answer { .. } => event is Line || event is Failed,
        StageView::Paused { .. } => event is Resumed,
        StageView::Over => false,
        _ => event is Reply || event is Failed,
    }
}

/// A transaction on its way.
pub struct Sending {
    plan: SendPlan,
    stage: Stage,
}

/// Stops with an error.
fn fail(output: String, error: Error) -> (step: (Stage, Action))
    ensures
        (step.0@, step.1@) == stop(output@, error.text()),
{
    (Stage::Over, Action { output, next: Next::Fail(error) })
}

/// Goes on with a call.
fn go_on(stage: Stage, output: String, call: RpcCall) -> (step: (Stage, Action))
    ensures
        (step.0@, step.1@) == ask(stage@, output@, call@),
{
    (stage, Action { output, next: Next::Call(call) })
}

/// Nothing to show.
fn nothing() -> (text: String)
    ensures
        text@ == ""@,
{
    "".to_owned()
}

impl SendPlan {
    fn submit(&self, message: Vec<u8>, output: String) -> (step: (Stage, Action))
        ensures
            (step.0@, step.1@) == self@.submit(message@, output@),
            self@.sendable(message@) ==> step.0@ is Submit,
    {
        let signed = match sign_v0(message, &self.signer) {
            Ok(signed) => signed,
            Err(error) => return fail(output, error),
        };
        let bytes = signed.wire();
        if bytes.len() > MAX_TRANSACTION_BYTES {
            return fail(output, Error::SignedPacketLimit);
        }
        go_on(
            Stage::Submit { signature: signed.signature_text() },
            output,
            Rpc::send(bytes.as_slice()),
        )
    }

    fn confirm(&self, message: Vec<u8>, output: String) -> (step: (Stage, Action))
        ensures
            (step.0@, step.1@) == self@.confirm(message@, output@),
            self@.sendable(message@) ==> self@.keeps(step.0@) && (step.0@ is Answer
                || step.0@ is Submit),
    {
        if self.burn_confirmation {
            (
                Stage::Answer { message },
                Action {
                    output,
                    next: Next::Ask("Burn tokens and send transaction? Type 'BURN': "),
                },
            )
        } else if self.security.confirm_every_transaction {
            (
                Stage::Answer { message },
                Action { output, next: Next::Ask("Send transaction? Type 'yes': ") },
            )
        } else {
            self.submit(message, output)
        }
    }

    fn ready(&self, limit: Option<u32>, quote: Option<(u64, u64)>, message: Vec<u8>) -> (step: (
        Stage,
        Action,
    ))
        requires
            self.instructions@.len() > 0,
        ensures
            (step.0@, step.1@) == self@.ready(limit, quote, message@),
            self@.sendable(message@) ==> self@.keeps(step.0@),
    {
        let output = self.summary(limit, quote);
        if self.security.simulate_before_send {
            let empty: [u8; 64] = [0;64];
            assert(empty@ =~= no_signature());
            let bytes = transaction_wire(&empty, message.as_slice());
            go_on(Stage::Simulation { message }, output, Rpc::simulate(bytes.as_slice()))
        } else {
            self.confirm(message, output)
        }
    }

    fn prepared(&self, blockhash: [u8; 32], limit: Option<u32>, quote: Option<(u64, u64)>) -> (step:
        (Stage, Action))
        requires
            self.instructions@.len() > 0,
        ensures
            (step.0@, step.1@) == self@.prepared(blockhash@, limit, quote),
            self@.own() ==> self@.keeps(step.0@),
    {
        let amount: Option<u64> = match quote {
            Some((_, amount)) => Some(amount),
            None => None,
        };
        let list = self.list(limit, amount);
        proof {
            if self@.own() {
                self@.lemma_list_own(limit, amount);
            }
        }
        let unsigned = match compile_unsigned(&self.signer.pubkey(), &list, &blockhash) {
            Ok(unsigned) => unsigned,
            Err(error) => return fail(nothing(), error),
        };
        match quote {
            Some((fee, amount)) => {
                let call = Rpc::fee_for_message(unsigned.message.as_slice());
                go_on(
                    Stage::FinalFee { limit, fee, amount, message: unsigned.message },
                    nothing(),
                    call,
                )
            },
            None => self.ready(limit, None, unsigned.message),
        }
    }

    fn limited(&self, blockhash: [u8; 32], limit: Option<u32>) -> (step: (Stage, Action))
        requires
            self.instructions@.len() > 0,
        ensures
            (step.0@, step.1@) == self@.limited(blockhash@, limit),
            self@.own() ==> self@.keeps(step.0@),
    {
        if self.spend_all.is_some() {
            let list = self.list(limit, None);
            match compile_unsigned(&self.signer.pubkey(), &list, &blockhash) {
                Ok(unsigned) => go_on(
                    Stage::Fee { blockhash, limit },
                    nothing(),
                    Rpc::fee_for_message(unsigned.message.as_slice()),
                ),
                Err(error) => fail(nothing(), error),
            }
        } else {
            self.prepared(blockhash, limit, None)
        }
    }

    fn after_blockhash(&self, reply: &Json) -> (step: (Stage, Action))
        requires
            self.instructions@.len() > 0,
        ensures
            (step.0@, step.1@) == self@.after_blockhash(*reply),
            self@.own() ==> self@.keeps(step.0@),
    {
        let blockhash = match latest_blockhash_result(reply) {
            Ok(blockhash) => blockhash,
            Err(error) => return fail(nothing(), error),
        };
        if self.security.optimizes() {
            let list = self.list(Some(MAX_COMPUTE_UNITS), None);
            match compile_unsigned(&self.signer.pubkey(), &list, &blockhash) {
                Ok(unsigned) => go_on(
                    Stage::Probe { blockhash },
                    nothing(),
                    Rpc::simulate(unsigned.wire.as_slice()),
                ),
                Err(error) => fail(nothing(), error),
            }
        } else {
            self.limited(blockhash, None)
        }
    }

    fn after_probe(&self, blockhash: [u8; 32], reply: &Json) -> (step: (Stage, Action))
        requires
            self.instructions@.len() > 0,
        ensures
            (step.0@, step.1@) == self@.after_probe(blockhash@, *reply),
            self@.own() ==> self@.keeps(step.0@),
    {
        let simulation = match simulate_result(reply) {
            Ok(simulation) => simulation,
            Err(error) => return fail(nothing(), error),
        };
        if let Err(error) = render_simulation(simulation, false, "CU probe").1 {
            return fail(nothing(), error);
        }
        let used: u64 = match simulation.get_u64("unitsConsumed") {
            Some(used) => used,
            None => return fail(nothing(), Error::ProbeNoUnits),
        };
        match tuned_compute_limit(used, self.security.compute_unit_margin_percent) {
            Ok(limit) => self.limited(blockhash, Some(limit)),
            Err(error) => fail(nothing(), error),
        }
    }

    fn after_fee(&self, blockhash: [u8; 32], limit: Option<u32>, reply: &Json) -> (step: (
        Stage,
        Action,
    ))
        requires
            self.instructions@.len() > 0,
            self.spend_all is Some,
        ensures
            (step.0@, step.1@) == self@.after_fee(blockhash@, limit, *reply),
            self@.own() ==> self@.keeps(step.0@),
    {
        let fee: u64 = match fee_from_response(reply) {
            Ok(fee) => fee,
            Err(error) => return fail(nothing(), error),
        };
        let balance: u64 = match &self.spend_all {
            Some(all) => all.balance,
            None => 0,
        };
        match spend_all_lamports(balance, fee) {
            Ok(amount) => self.prepared(blockhash, limit, Some((fee, amount))),
            Err(error) => fail(nothing(), error),
        }
    }

    fn after_final_fee(
        &self,
        limit: Option<u32>,
        fee: u64,
        amount: u64,
        message: Vec<u8>,
        reply: &Json,
    ) -> (step: (Stage, Action))
        requires
            self.instructions@.len() > 0,
        ensures
            (step.0@, step.1@) == self@.after_final_fee(limit, fee, amount, message@, *reply),
            self@.sendable(message@) ==> self@.keeps(step.0@),
    {
        match fee_from_response(reply) {
            Ok(found) => {
                if found != fee {
                    fail(nothing(), Error::FeeChanged)
                } else {
                    self.ready(limit, Some((fee, amount)), message)
                }
            },
            Err(error) => fail(nothing(), error),
        }
    }

    fn after_simulation(&self, message: Vec<u8>, reply: &Json) -> (step: (Stage, Action))
        ensures
            (step.0@, step.1@) == self@.after_simulation(message@, *reply),
            self@.sendable(message@) ==> self@.keeps(step.0@),
    {
        let simulation = match simulate_result(reply) {
            Ok(simulation) => simulation,
            Err(error) => return fail(nothing(), error),
        };
        let show: bool = self.security.show_simulation;
        let (shown, verdict) = render_simulation(simulation, show, "Simulation");
        if let Err(error) = verdict {
            return fail(shown, error);
        }
        let output = if show {
            shown
        } else {
            shown.concat("Simulation: OK\n")
        };
        if self.spend_all.is_some() {
            if let Err(error) = ensure_all_would_drain(simulation) {
                return fail(output, error);
            }
        }
        self.confirm(message, output)
    }

    fn after_answer(&self, message: Vec<u8>, line: Option<String>) -> (step: (Stage, Action))
        ensures
            (step.0@, step.1@) == self@.after_answer(
                message@,
                match line {
                    Some(text) => Some(text@),
                    None => None,
                },
            ),
            self@.sendable(message@) && agreed(
                self@,
                match line {
                    Some(text) => Some(text@),
                    None => None,
                },
            ) ==> step.0@ is Submit,
            self@.keeps(step.0@),
    {
        let text = match line {
            Some(text) => text,
            None => nothing(),
        };
        let agreement = if self.burn_confirmation {
            "BURN"
        } else {
            "yes"
        };
        if same(trim(text.as_str()), agreement) {
            self.submit(message, nothing())
        } else {
            fail(nothing(), Error::Cancelled)
        }
    }

    fn after_submit(&self, signature: String, reply: &Json) -> (step: (Stage, Action))
        ensures
            (step.0@, step.1@) == self@.after_submit(signature@, *reply),
    {
        match send_result(reply) {
            Err(error) => {
                let reason = error.message();
                fail(nothing(), Error::SendUnknown(signature, reason))
            },
            Ok(returned) => {
                if !same(returned, signature.as_str()) {
                    return fail(nothing(), Error::OtherSignature);
                }
                let output = "Submitted: ".to_owned().concat(signature.as_str()).concat("\n");
                let call = Rpc::confirm(signature.as_str());
                go_on(Stage::Status { signature, asked: 1 }, output, call)
            },
        }
    }

    fn after_status(&self, signature: String, asked: u8, reply: &Json) -> (step: (Stage, Action))
        ensures
            (step.0@, step.1@) == self@.after_status(signature@, asked, *reply),
    {
        match confirm_result(reply) {
            Err(error) => fail(nothing(), error),
            Ok(true) => (
                Stage::Over,
                Action {
                    output: "Confirmed: ".to_owned().concat(signature.as_str()).concat("\n"),
                    next: Next::Done(true),
                },
            ),
            Ok(false) => (
                Stage::Paused { signature, asked },
                Action { output: nothing(), next: Next::Pause(STATUS_PAUSE_SECS) },
            ),
        }
    }

    fn after_pause(&self, signature: String, asked: u8) -> (step: (Stage, Action))
        ensures
            (step.0@, step.1@) == self@.after_pause(signature@, asked),
    {
        if asked >= STATUS_POLLS {
            (
                Stage::Over,
                Action {
                    output: "Confirmation pending; check signature: ".to_owned().concat(
                        signature.as_str(),
                    ).concat("\n"),
                    next: Next::Done(false),
                },
            )
        } else {
            let call = Rpc::confirm(signature.as_str());
            go_on(Stage::Status { signature, asked: asked + 1 }, nothing(), call)
        }
    }
}

impl Sending {
    /// The plan.
    pub closed spec fn plan(&self) -> PlanView {
        self.plan@
    }

    /// How far the sending is.
    pub closed spec fn stage(&self) -> StageView {
        self.stage@
    }

    /// Past its start, a sending has instructions, and it asks for a fee only to send everything.
    /// Where only the payer's signature is asked for, its message can be signed and sent.
    pub open spec fn wf(&self) -> bool {
        &&& self.stage() is Start || self.stage() is Over || self.plan().instructions.len() > 0
        &&& self.stage() is Fee ==> self.plan().spend_all is Some
        &&& self.plan().own() ==> self.plan().keeps(self.stage())
    }

    /// A transaction that is to be sent.
    pub fn new(plan: SendPlan) -> (sending: Self)
        ensures
            sending.plan() == plan@,
            sending.stage() is Start,
            sending.wf(),
    {
        Sending { plan, stage: Stage::Start }
    }

    /// Takes what has happened and tells what to do next. Where only the payer's signature is asked
    /// for, what the user agrees to is sent.
    pub fn send_transaction(self, event: Event) -> (step: (Sending, Action))
        requires
            self.wf(),
            awaited(self.stage(), event@),
        ensures
            (step.0.stage(), step.1@) == self.plan().after(self.stage(), event@),
            step.0.plan() == self.plan(),
            step.0.wf(),
            self.plan().own() && (event@ matches EventView::Line(line) && agreed(self.plan(), line))
                ==> step.0.stage() is Submit,
    {
        let Sending { plan, stage } = self;
        let (stage, action) = match event {
            Event::Begin => {
                if plan.instructions.len() == 0 {
                    fail(nothing(), Error::NoInstructions)
                } else {
                    go_on(Stage::Blockhash, nothing(), Rpc::latest_blockhash())
                }
            },
            Event::Failed(error) => match stage {
                Stage::Submit { signature } => {
                    let reason = error.message();
                    fail(nothing(), Error::SendUnknown(signature, reason))
                },
                _ => fail(nothing(), error),
            },
            Event::Resumed => match stage {
                Stage::Paused { signature, asked } => plan.after_pause(signature, asked),
                _ => fail(nothing(), Error::Cancelled),
            },
            Event::Line(line) => match stage {
                Stage::Answer { message } => plan.after_answer(message, line),
                _ => fail(nothing(), Error::Cancelled),
            },
            Event::Reply(reply) => match stage {
                Stage::Blockhash => plan.after_blockhash(&reply),
                Stage::Probe { blockhash } => plan.after_probe(blockhash, &reply),
                Stage::Fee { blockhash, limit } => plan.after_fee(blockhash, limit, &reply),
                Stage::FinalFee { limit, fee, amount, message } => plan.after_final_fee(
                    limit,
                    fee,
                    amount,
                    message,
                    &reply,
                ),
                Stage::Simulation { message } => plan.after_simulation(message, &reply),
                Stage::Submit { signature } => plan.after_submit(signature, &reply),
                Stage::Status { signature, asked } => plan.after_status(signature, asked, &reply),
                _ => fail(nothing(), Error::Cancelled),
            },
        };
        (Sending { plan, stage }, action)
    }
}

// ---------------------------------------------------------------------------------------------
// Laws
// ---------------------------------------------------------------------------------------------
/// Where the user has to agree, a transaction is sent only in answer to a line that is the word of
/// agreement. Burning takes a word of its own, whatever is configured.
pub proof fn sent_only_after_agreement(plan: PlanView, stage: StageView, event: EventView)
    requires
        awaited(stage, event),
        plan.burn_confirmation || plan.security.confirm_every_transaction,
        plan.after(stage, event).0 is Submit,
    ensures
        stage is Answer,
        event matches EventView::Line(line) && agreed(plan, line),
{
}

/// A transaction that is sent is signed by the payer alone, fits into a packet, and is the message
/// of the stage before. Its signature is the one that is waited for.
pub proof fn what_is_sent(plan: PlanView, stage: StageView, event: EventView)
    requires
        awaited(stage, event),
        plan.after(stage, event).0 is Submit,
    ensures
        exists|message: Seq<u8>|
            {
                let signature = ed25519_signature(plan.secret, message);
                &&& #[trigger] only_signer(message, plan.payer())
                &&& wire(signature, message).len() <= MAX_TRANSACTION_BYTES
                &&& plan.after(stage, event).0 == (StageView::Submit {
                    signature: signature_text(signature),
                })
                &&& plan.after(stage, event).1.next == NextView::Call(
                    send_call(wire(signature, message)),
                )
                &&& stage matches StageView::Answer { message: m } ==> m == message
                &&& stage matches StageView::Simulation { message: m } ==> m == message
            },
{
    match event {
        EventView::Line(_) => {
            let message = stage->Answer_message;
            assert(only_signer(message, plan.payer()));
        },
        EventView::Reply(reply) => match stage {
            StageView::Simulation { message } => {
                assert(only_signer(message, plan.payer()));
            },
            StageView::FinalFee { message, .. } => {
                assert(only_signer(message, plan.payer()));
            },
            StageView::Blockhash => {
                let blockhash = blockhash_in(reply)->Ok_0;
                let message = plan.compiled(None, None, blockhash)->Ok_0.0;
                assert(only_signer(message, plan.payer()));
            },
            StageView::Probe { blockhash } => {},
            StageView::Fee { blockhash, limit } => {},
            _ => {},
        },
        _ => {},
    }
}

/// Where transactions are simulated, the user is asked and a transaction is sent only when the
/// simulation of the same message has succeeded and, where everything is sent, has left nothing.
pub proof fn sent_only_after_simulation(plan: PlanView, stage: StageView, event: EventView)
    requires
        awaited(stage, event),
        plan.security.simulate_before_send,
    ensures
        plan.after(stage, event).0 matches StageView::Simulation { message } ==> plan.after(
            stage,
            event,
        ).1.next == NextView::Call(simulate_call(wire(no_signature(), message))),
        plan.after(stage, event).0 matches StageView::Answer { message } ==> stage
            == (StageView::Simulation { message }),
        plan.after(stage, event).0 is Submit ==> stage is Answer || stage is Simulation,
        stage is Simulation && (plan.after(stage, event).0 is Answer || plan.after(
            stage,
            event,
        ).0 is Submit) ==> {
            &&& event matches EventView::Reply(reply)
            &&& simulation_in(reply) matches Ok(simulation)
            &&& simulation.member("err"@) matches Some(failure)
            &&& failure.kind is Null
            &&& plan.spend_all is Some ==> drain_refused(simulation) is None
        },
{
}

/// How many steps a sending can still take, at most.
pub open spec fn steps_left(stage: StageView) -> int {
    match stage {
        StageView::Start => 2 * STATUS_POLLS + 9,
        StageView::Blockhash => 2 * STATUS_POLLS + 8,
        StageView::Probe { .. } => 2 * STATUS_POLLS + 7,
        StageView::Fee { .. } => 2 * STATUS_POLLS + 6,
        StageView::FinalFee { .. } => 2 * STATUS_POLLS + 5,
        StageView::Simulation { .. } => 2 * STATUS_POLLS + 4,
        StageView::Answer { .. } => 2 * STATUS_POLLS + 3,
        StageView::Submit { .. } => 2 * STATUS_POLLS + 2,
        StageView::Status { asked, .. } => 2 * (STATUS_POLLS - asked) + 2,
        StageView::Paused { asked, .. } => 2 * (STATUS_POLLS - asked) + 1,
        StageView::Over => 0,
    }
}

/// A step leaves fewer steps than some number, and none if and only if it was the last.
pub open spec fn leaves_less(step: (StageView, ActionView), n: int) -> bool {
    &&& 0 <= steps_left(step.0) < n
    &&& steps_left(step.0) == 0 <==> step.0 is Over
    &&& step.0 is Over <==> (step.1.next is Done || step.1.next is Fail)
}

proof fn lemma_confirm_ends(plan: PlanView, message: Seq<u8>, output: Seq<char>)
    ensures
        leaves_less(plan.submit(message, output), 2 * STATUS_POLLS + 3),
        leaves_less(plan.confirm(message, output), 2 * STATUS_POLLS + 4),
{
}

proof fn lemma_prepared_ends(
    plan: PlanView,
    blockhash: Seq<u8>,
    limit: Option<u32>,
    quote: Option<(u64, u64)>,
)
    ensures
        leaves_less(plan.prepared(blockhash, limit, quote), 2 * STATUS_POLLS + 6),
        leaves_less(plan.limited(blockhash, limit), 2 * STATUS_POLLS + 7),
{
    assert forall|message: Seq<u8>, q: Option<(u64, u64)>| leaves_less(
        #[trigger] plan.ready(limit, q, message),
        2 * STATUS_POLLS + 5,
    ) by {
        lemma_confirm_ends(plan, message, summary(plan, limit, q));
    }
}

/// Every sending ends, whatever the network and the user answer: each step leaves fewer steps to
/// take, and the status is asked for only so often.
pub proof fn sending_ends(plan: PlanView, stage: StageView, event: EventView)
    requires
        awaited(stage, event),
        steps_left(stage) > 0,
    ensures
        leaves_less(plan.after(stage, event), steps_left(stage)),
{
    match event {
        EventView::Begin => {},
        EventView::Failed(_) => {},
        EventView::Resumed => {},
        EventView::Line(_) => {
            lemma_confirm_ends(plan, stage->Answer_message, ""@);
        },
        EventView::Reply(reply) => match stage {
            StageView::Blockhash => {
                if let Ok(blockhash) = blockhash_in(reply) {
                    lemma_prepared_ends(plan, blockhash, None, None);
                }
            },
            StageView::Probe { blockhash } => {
                assert forall|limit: Option<u32>| leaves_less(
                    #[trigger] plan.limited(blockhash, limit),
                    2 * STATUS_POLLS + 7,
                ) by {
                    lemma_prepared_ends(plan, blockhash, limit, None);
                }
            },
            StageView::Fee { blockhash, limit } => {
                assert forall|quote: Option<(u64, u64)>| leaves_less(
                    #[trigger] plan.prepared(blockhash, limit, quote),
                    2 * STATUS_POLLS + 6,
                ) by {
                    lemma_prepared_ends(plan, blockhash, limit, quote);
                }
            },
            StageView::FinalFee { limit, fee, amount, message } => {
                lemma_confirm_ends(plan, message, summary(plan, limit, Some((fee, amount))));
            },
            StageView::Simulation { message } => {
                assert forall|output: Seq<char>| leaves_less(
                    #[trigger] plan.confirm(message, output),
                    2 * STATUS_POLLS + 4,
                ) by {
                    lemma_confirm_ends(plan, message, output);
                }
            },
            _ => {},
        },
    }
}

/// A transfer of everything takes the whole balance: what is sent and the fee add up to it, and the
/// fee of the final message is the one that was reckoned with.
pub proof fn all_is_spent(plan: PlanView, stage: StageView, event: EventView)
    requires
        awaited(stage, event),
        plan.spend_all is Some,
    ensures
        plan.after(stage, event).0 matches StageView::FinalFee { fee, amount, .. } ==> fee + amount
            == plan.spend_all->Some_0.0 && amount > 0,
        stage is FinalFee && !(plan.after(stage, event).0 is Over) ==> {
            &&& event matches EventView::Reply(reply)
            &&& reply.member_unsigned("value"@) == Some(stage->FinalFee_fee)
        },
{
}

/// A list of instructions carries a plan: a compute limit of some units in front, where there is
/// one, and then the instructions of the plan, in order; the first of them is a transfer of the
/// amount to the recipient, where everything is sent.
pub open spec fn carries(
    plan: PlanView,
    list: Seq<InstructionView>,
    limit: Option<u32>,
    amount: Option<u64>,
) -> bool {
    let off = if limit is Some {
        1int
    } else {
        0int
    };
    let first = list[off];
    &&& list.len() == plan.instructions.len() + off
    &&& limit is Some ==> {
        &&& list[0].program_id == COMPUTE_BUDGET@
        &&& list[0].accounts.len() == 0
        &&& list[0].data.len() == 5
        &&& list[0].data[0] == 2
        &&& number_in(list[0].data.skip(1)) == limit->Some_0
    }
    &&& forall|i: int|
        1 <= i < plan.instructions.len() ==> list[off + i] == #[trigger] plan.instructions[i]
    &&& amount is None ==> first == plan.instructions[0]
    &&& amount is Some ==> {
        &&& first.program_id == SYSTEM@
        &&& first.accounts.len() == 2
        &&& first.accounts[0].pubkey == ed25519_public_key(plan.secret)
            && first.accounts[0].is_signer
        &&& first.accounts[1].pubkey == plan.spend_all->Some_0.1 && !first.accounts[1].is_signer
        &&& first.data.len() == 12
        &&& number_in(first.data.take(4)) == 2
        &&& number_in(first.data.skip(4)) == amount->Some_0
    }
}

/// What is compiled carries the plan.
pub proof fn what_is_compiled_carries_the_plan(
    plan: PlanView,
    limit: Option<u32>,
    amount: Option<u64>,
    blockhash: Seq<u8>,
)
    requires
        plan.instructions.len() > 0,
        amount is Some ==> plan.spend_all is Some,
    ensures
        carries(plan, plan.list(limit, amount), limit, amount),
        plan.compiled(limit, amount, blockhash) matches Ok((message, bytes)) ==> compiled_message(
            ed25519_public_key(plan.secret),
            plan.list(limit, amount),
            blockhash,
        ) == Ok::<Seq<u8>, Seq<char>>(message),
{
    let list = plan.list(limit, amount);
    let body = plan.list(None, amount);
    if amount is Some {
        lamports_go_from_the_source_to_the_target(
            ed25519_public_key(plan.secret),
            plan.spend_all->Some_0.1,
            amount->Some_0,
        );
    }
    if limit is Some {
        a_compute_limit_names_its_units(limit->Some_0);
        assert(list.skip(1) =~= body);
        assert forall|i: int| 0 <= i < body.len() implies list[1 + i] == #[trigger] body[i] by {}
        assert(list[1] == body[0]);
    }
    assert forall|i: int| 1 <= i < plan.instructions.len() implies body[i]
        == #[trigger] plan.instructions[i] by {}
    let off = if limit is Some {
        1int
    } else {
        0int
    };
    assert forall|i: int| 1 <= i < plan.instructions.len() implies list[off + i]
        == #[trigger] plan.instructions[i] by {
        assert(list[off + i] == body[i]);
    }
}

/// A message that is simulated, asked about or sent is the one that the stage before had, or it is
/// compiled then and there from the plan: with the blockhash of the network, the limit that a probe
/// of the same plan has led to, where one is set, and, where everything is sent, the balance without
/// the fee of the network.
pub open spec fn comes_from_the_plan(
    plan: PlanView,
    stage: StageView,
    event: EventView,
    message: Seq<u8>,
) -> bool {
    let key = ed25519_public_key(plan.secret);
    match stage {
        StageView::FinalFee { message: m, .. } => m == message,
        StageView::Simulation { message: m } => m == message,
        StageView::Answer { message: m } => m == message,
        StageView::Blockhash => {
            &&& event is Reply
            &&& blockhash_in(event->Reply_0) is Ok
            &&& !plan.security.tunes_limit()
            &&& compiled_message(key, plan.list(None, None), blockhash_in(event->Reply_0)->Ok_0)
                == Ok::<Seq<u8>, Seq<char>>(message)
        },
        StageView::Probe { blockhash } => {
            let simulation = event->Reply_0.member("value"@)->Some_0;
            let used = simulation.member_unsigned("unitsConsumed"@)->Some_0;
            let limit = compute_limit_for(used, plan.security.compute_unit_margin_percent);
            &&& event is Reply
            &&& event->Reply_0.member("value"@) is Some
            &&& simulation.member_unsigned("unitsConsumed"@) is Some
            &&& limit is Ok
            &&& compiled_message(key, plan.list(Some(limit->Ok_0), None), blockhash) == Ok::<
                Seq<u8>,
                Seq<char>,
            >(message)
        },
        StageView::Fee { blockhash, limit } => {
            let fee = event->Reply_0.member_unsigned("value"@)->Some_0;
            let balance = plan.spend_all->Some_0.0;
            &&& event is Reply
            &&& event->Reply_0.member_unsigned("value"@) is Some
            &&& fee < balance
            &&& compiled_message(key, plan.list(limit, Some((balance - fee) as u64)), blockhash)
                == Ok::<Seq<u8>, Seq<char>>(message)
        },
        _ => false,
    }
}

/// Every message on the way comes from the plan, and what is sent is its signature by the payer and
/// the message itself.
pub proof fn messages_come_from_the_plan(plan: PlanView, stage: StageView, event: EventView)
    requires
        awaited(stage, event),
        stage is Fee ==> plan.spend_all is Some,
    ensures
        ({
            let (after, action) = plan.after(stage, event);
            &&& after matches StageView::FinalFee { message, .. } ==> comes_from_the_plan(
                plan,
                stage,
                event,
                message,
            ) && action.next == NextView::Call(fee_call(message))
            &&& after matches StageView::Simulation { message } ==> comes_from_the_plan(
                plan,
                stage,
                event,
                message,
            )
            &&& after matches StageView::Answer { message } ==> comes_from_the_plan(
                plan,
                stage,
                event,
                message,
            )
            &&& after is Submit ==> exists|message: Seq<u8>|
                {
                    let signature = ed25519_signature(plan.secret, message);
                    &&& #[trigger] comes_from_the_plan(plan, stage, event, message)
                    &&& after == (StageView::Submit { signature: signature_text(signature) })
                    &&& action.next == NextView::Call(
                        send_call(seq![1u8] + signature + message),
                    )
                }
        }),
{
    let (after, action) = plan.after(stage, event);
    if after is Submit {
        let message = match stage {
            StageView::FinalFee { message, .. } => message,
            StageView::Simulation { message } => message,
            StageView::Answer { message } => message,
            StageView::Blockhash => plan.compiled(
                None,
                None,
                blockhash_in(event->Reply_0)->Ok_0,
            )->Ok_0.0,
            StageView::Probe { blockhash } => plan.compiled(
                Some(
                    compute_limit_for(
                        event->Reply_0.member("value"@)->Some_0.member_unsigned(
                            "unitsConsumed"@,
                        )->Some_0,
                        plan.security.compute_unit_margin_percent,
                    )->Ok_0,
                ),
                None,
                blockhash,
            )->Ok_0.0,
            _ => Seq::empty(),
        };
        assert(comes_from_the_plan(plan, stage, event, message));
    }
}

/// A sending counts as confirmed only when the network says so of the very transaction that was
/// sent: the status that is asked for is that of the signature that the network gave back, which is
/// the one that was sent. It counts as pending only after the status was asked for so often.
pub proof fn confirmation_is_about_what_was_sent(
    plan: PlanView,
    stage: StageView,
    event: EventView,
)
    requires
        awaited(stage, event),
    ensures
        ({
            let (after, action) = plan.after(stage, event);
            &&& action.next == NextView::Done(true) ==> stage is Status && event is Reply
                && status_in(event->Reply_0) == Ok::<bool, Seq<char>>(true)
            &&& action.next == NextView::Done(false) ==> stage is Paused && stage->Paused_asked
                >= 20
            &&& after matches StageView::Status { signature, asked } ==> {
                &&& action.next == NextView::Call(status_call(signature))
                &&& stage is Submit || stage is Paused
                &&& stage is Submit ==> stage->Submit_signature == signature && event is Reply
                    && event->Reply_0.string() == Some(signature) && asked == 1
                &&& stage is Paused ==> stage->Paused_signature == signature && asked
                    == stage->Paused_asked + 1
            }
            &&& after matches StageView::Paused { signature, asked } ==> stage == (
            StageView::Status { signature, asked }) && action.next == NextView::Pause(2)
        }),
{
}

/// The words of agreement: burning takes its own.
pub proof fn agreement_takes_the_right_word(plan: PlanView, line: Option<Seq<char>>)
    ensures
        plan.burn_confirmation ==> (agreed(plan, line) == (trimmed(
            match line {
                Some(text) => text,
                None => ""@,
            },
        ) == "BURN"@)),
        !plan.burn_confirmation ==> (agreed(plan, line) == (trimmed(
            match line {
                Some(text) => text,
                None => ""@,
            },
        ) == "yes"@)),
{
}

/// Where the user has to agree, the user is asked, and for burning with its own question.
pub proof fn the_user_is_asked(plan: PlanView, message: Seq<u8>, output: Seq<char>)
    ensures
        plan.burn_confirmation ==> plan.confirm(message, output).1.next == NextView::Ask(
            "Burn tokens and send transaction? Type 'BURN': "@,
        ),
        !plan.burn_confirmation && plan.security.confirm_every_transaction ==> plan.confirm(
            message,
            output,
        ).1.next == NextView::Ask("Send transaction? Type 'yes': "@),
        plan.burn_confirmation || plan.security.confirm_every_transaction ==> plan.confirm(
            message,
            output,
        ).0 == (StageView::Answer { message }),
        plan.confirm(message, output).1.output == output,
{
}

/// The summary begins with the network, the payer and what is to be done, and ends with a rule.
pub proof fn the_summary_says_what_is_done(
    plan: PlanView,
    limit: Option<u32>,
    quote: Option<(u64, u64)>,
)
    ensures
        ({
            let dashes = "------------------------------------------------"@;
            has_prefix(
                summary(plan, limit, quote),
                "\n"@ + dashes + "\nTransaction\n\nConfigured cluster: "@ + safe(plan.cluster, 80)
                    + "\nRPC host: "@ + safe(plan.endpoint, 150) + "\nFee payer: "@ + address_text(
                    ed25519_public_key(plan.secret),
                ) + "\n"@ + plan.details + "\n"@,
            ) && has_suffix(summary(plan, limit, quote), dashes + "\n"@)
        }),
{
    let dashes = "------------------------------------------------"@;
    let head = "\n"@ + dashes + "\nTransaction\n\nConfigured cluster: "@ + safe(plan.cluster, 80)
        + "\nRPC host: "@ + safe(plan.endpoint, 150) + "\nFee payer: "@ + address_text(
        ed25519_public_key(plan.secret),
    ) + "\n"@ + plan.details + "\n"@;
    let text = summary(plan, limit, quote);
    let tail = dashes + "\n"@;
    assert(text.subrange(0, head.len() as int) =~= head);
    assert(text.subrange(text.len() - tail.len(), text.len() as int) =~= tail);
}

/// The details of an instruction name its program and every account, with who signs and what is
/// written; instructions are numbered from one.
pub proof fn the_details_name_every_account(
    instructions: Seq<InstructionView>,
    instruction: InstructionView,
    accounts: Seq<AccountMetaView>,
    account: AccountMetaView,
)
    ensures
        instruction_lines(instructions.push(instruction)) == instruction_lines(instructions) + (
        "Instruction "@ + number_text(instructions.len() + 1) + ": "@ + address_text(
            instruction.program_id,
        ) + "\n"@ + account_lines(instruction.accounts)),
        account_lines(accounts.push(account)) == account_lines(accounts) + account_line(account),
        account.is_signer && account.is_writable ==> account_line(account) == "  "@
            + address_text(account.pubkey) + " signer"@ + " writable"@ + "\n"@,
        account.is_signer && !account.is_writable ==> account_line(account) == "  "@
            + address_text(account.pubkey) + " signer"@ + "\n"@,
        !account.is_signer && account.is_writable ==> account_line(account) == "  "@
            + address_text(account.pubkey) + " writable"@ + "\n"@,
        !account.is_signer && !account.is_writable ==> account_line(account) == "  "@
            + address_text(account.pubkey) + "\n"@,
{
    reveal_strlit("");
    let longer = instructions.push(instruction);
    assert(longer.drop_last() =~= instructions);
    assert(longer.last() == instruction);
    assert(accounts.push(account).drop_last() =~= accounts);
    let line = account_line(account);
    let shown = "  "@ + address_text(account.pubkey);
    if account.is_signer && !account.is_writable {
        assert(line =~= shown + " signer"@ + "\n"@);
    }
    if !account.is_signer && account.is_writable {
        assert(line =~= shown + " writable"@ + "\n"@);
    }
    if !account.is_signer && !account.is_writable {
        assert(line =~= shown + "\n"@);
    }
}

/// What is simulated and priced on the way carries the plan too: the probe asks for the most compute
/// units, with the blockhash of the network, and the fee is asked for under the limit that is set.
pub proof fn probes_and_fees_are_of_the_plan(plan: PlanView, stage: StageView, event: EventView)
    requires
        awaited(stage, event),
    ensures
        ({
            let (after, action) = plan.after(stage, event);
            let key = ed25519_public_key(plan.secret);
            &&& after is Blockhash ==> stage is Start && action.next == NextView::Call(
                blockhash_call(),
            )
            &&& after matches StageView::Probe { blockhash } ==> {
                let message = compiled_message(key, plan.list(Some(1_400_000), None), blockhash);
                &&& stage is Blockhash && event is Reply
                &&& blockhash_in(event->Reply_0) == Ok::<Seq<u8>, Seq<char>>(blockhash)
                &&& message is Ok
                &&& action.next == NextView::Call(
                    simulate_call(seq![1u8] + Seq::new(64, |i: int| 0u8) + message->Ok_0),
                )
            }
            &&& after matches StageView::Fee { blockhash, limit } ==> {
                let message = compiled_message(key, plan.list(limit, None), blockhash);
                &&& plan.spend_all is Some
                &&& message is Ok
                &&& action.next == NextView::Call(fee_call(message->Ok_0))
                &&& stage matches StageView::Probe { blockhash: b } ==> b == blockhash && limit is
                    Some
                &&& stage is Blockhash ==> limit is None && blockhash_in(event->Reply_0) == Ok::<
                    Seq<u8>,
                    Seq<char>,
                >(blockhash)
            }
            &&& after matches StageView::Simulation { message } ==> action.next == NextView::Call(
                simulate_call(seq![1u8] + Seq::new(64, |i: int| 0u8) + message),
            )
        }),
{
}

/// Whatever is not simulated first, where that is asked for, is not sent; and whatever fails stops
/// the sending with the reason.
pub proof fn failures_stop_the_sending(plan: PlanView, stage: StageView, message: Seq<char>)
    requires
        awaited(stage, EventView::Failed(message)),
    ensures
        ({
            let (after, action) = plan.after(stage, EventView::Failed(message));
            &&& after is Over
            &&& !(stage is Submit) ==> action.next == NextView::Fail(message)
            &&& stage is Submit ==> action.next == NextView::Fail(
                "send outcome unknown; check signature "@ + stage->Submit_signature
                    + " before retrying: "@ + message,
            )
        }),
{
}

} // verus!
