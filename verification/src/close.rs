//! Closing token accounts, in as few transactions as fit.
use vstd::prelude::*;
use vstd::string::*;

use crate::amount::{amount_text, format_amount};
use crate::error::Error;
use crate::instruction::{associated_account, ata, burn_checked, burn_checked_of, close_of,
    close_token_account, closes, compute_limit_of, instruction_views,
    lamports_of_a_closed_account_go_to_the_owner, number_in, set_compute_unit_limit,
    tokens_are_burned_from_the_account, Instruction, InstructionView, ASSOCIATED_TOKEN,
    MAX_COMPUTE_UNITS, NATIVE_MINT, NATIVE_MINT_2022, TOKEN, TOKEN_2022};
use crate::pubkey::{address_text, program_address, Pubkey};
use crate::rpc::{token_account_views, TokenAccount, TokenAccountView};
use crate::text::{decimal, has_prefix, number_text};
use crate::transaction::{compile_message, compiled_message, no_signature, only_payer_signs,
    transaction_wire, wire, MAX_TRANSACTION_BYTES};

verus! {

// ---------------------------------------------------------------------------------------------
// Candidates
// ---------------------------------------------------------------------------------------------
/// A token account to close.
pub struct CandidateView {
    pub mint: Seq<u8>,
    pub address: Seq<u8>,
    pub program: Seq<u8>,
    pub raw_amount: u64,
    pub decimals: u8,
}

/// A token account to close.
#[derive(Clone, Copy)]
pub struct CloseCandidate {
    pub mint: Pubkey,
    pub address: Pubkey,
    pub program: Pubkey,
    pub raw_amount: u64,
    pub decimals: u8,
}

impl View for CloseCandidate {
    type V = CandidateView;

    open spec fn view(&self) -> CandidateView {
        CandidateView {
            mint: self.mint@,
            address: self.address@,
            program: self.program@,
            raw_amount: self.raw_amount,
            decimals: self.decimals,
        }
    }
}

/// The views of candidates.
pub open spec fn candidate_views(candidates: Seq<CloseCandidate>) -> Seq<CandidateView> {
    candidates.map_values(|c: CloseCandidate| c@)
}

/// The mint of wrapped SOL of a token program.
pub open spec fn native_mint(mint: Seq<u8>, program: Seq<u8>) -> bool {
    (mint == NATIVE_MINT@ && program == TOKEN@) || (mint == NATIVE_MINT_2022@ && program
        == TOKEN_2022@)
}

/// Tells whether a mint is wrapped SOL, which comes back when its account is closed.
pub fn is_native_mint(mint: &Pubkey, program: &Pubkey) -> (yes: bool)
    ensures
        yes == native_mint(mint@, program@),
{
    (mint.same(&Pubkey { bytes: NATIVE_MINT }) && program.same(&Pubkey { bytes: TOKEN })) || (
    mint.same(&Pubkey { bytes: NATIVE_MINT_2022 }) && program.same(&Pubkey { bytes: TOKEN_2022 }))
}

impl CandidateView {
    /// What the account holds must be burned before it can be closed.
    pub open spec fn must_burn(self) -> bool {
        self.raw_amount != 0 && !native_mint(self.mint, self.program)
    }

    /// The instructions that close the account.
    pub open spec fn instructions(self, authority: Seq<u8>) -> Seq<InstructionView> {
        let close = close_of(self.address, authority, self.program);
        if self.must_burn() {
            seq![
                burn_checked_of(
                    self.address,
                    self.mint,
                    authority,
                    self.raw_amount,
                    self.decimals,
                    self.program,
                ),
                close,
            ]
        } else {
            seq![close]
        }
    }
}

impl CloseCandidate {
    /// Tells whether what the account holds must be burned before it can be closed.
    pub fn requires_burn(&self) -> (yes: bool)
        ensures
            yes == self@.must_burn(),
    {
        self.raw_amount != 0 && !is_native_mint(&self.mint, &self.program)
    }

    /// Appends the instructions that close the account.
    pub fn append_instructions(&self, authority: &Pubkey, instructions: &mut Vec<Instruction>)
        ensures
            instruction_views(final(instructions)@) == instruction_views(old(instructions)@)
                + self@.instructions(authority@),
    {
        if self.requires_burn() {
            instructions.push(
                burn_checked(
                    &self.address,
                    &self.mint,
                    authority,
                    self.raw_amount,
                    self.decimals,
                    self.program,
                ),
            );
        }
        instructions.push(close_token_account(&self.address, authority, self.program));
        assert(instruction_views(instructions@) =~= instruction_views(old(instructions)@)
            + self@.instructions(authority@));
    }
}

// ---------------------------------------------------------------------------------------------
// All accounts of an owner
// ---------------------------------------------------------------------------------------------
/// Whether a token account can be closed.
pub enum EligibilityView {
    Eligible(CandidateView),
    NonEmpty,
    NonAssociated,
}

/// Whether a token account can be closed.
pub enum CloseEligibility {
    Eligible(CloseCandidate),
    /// The account holds something that would have to be burned.
    NonEmpty,
    /// The account is not the associated one of its mint.
    NonAssociated,
}

impl View for CloseEligibility {
    type V = EligibilityView;

    open spec fn view(&self) -> EligibilityView {
        match self {
            CloseEligibility::Eligible(candidate) => EligibilityView::Eligible(candidate@),
            CloseEligibility::NonEmpty => EligibilityView::NonEmpty,
            CloseEligibility::NonAssociated => EligibilityView::NonAssociated,
        }
    }
}

/// Whether a token account of an owner can be closed.
pub open spec fn eligibility(
    owner: Seq<u8>,
    program: Seq<u8>,
    account: TokenAccountView,
    burn: bool,
) -> Result<EligibilityView, Error> {
    match associated_account(owner, account.mint, program) {
        None => Err(Error::NoProgramAddress),
        Some(address) => if account.address != address {
            Ok(EligibilityView::NonAssociated)
        } else if account.raw_amount != 0 && !burn {
            Ok(EligibilityView::NonEmpty)
        } else {
            Ok(
                EligibilityView::Eligible(
                    CandidateView {
                        mint: account.mint,
                        address: account.address,
                        program,
                        raw_amount: account.raw_amount,
                        decimals: account.decimals,
                    },
                ),
            )
        },
    }
}

/// Tells whether a token account of an owner can be closed.
pub fn close_eligibility(owner: &Pubkey, program: Pubkey, account: &TokenAccount, burn: bool) -> (
    outcome: Result<CloseEligibility, Error>)
    ensures
        match eligibility(owner@, program@, account@, burn) {
            Ok(e) => outcome matches Ok(r) && r@ == e,
            Err(error) => outcome == Err::<CloseEligibility, Error>(error),
        },
{
    let address = match ata(owner, &account.mint, &program) {
        Ok(address) => address,
        Err(error) => return Err(error),
    };
    if !account.address.same(&address) {
        Ok(CloseEligibility::NonAssociated)
    } else if account.raw_amount != 0 && !burn {
        Ok(CloseEligibility::NonEmpty)
    } else {
        Ok(
            CloseEligibility::Eligible(
                CloseCandidate {
                    mint: account.mint,
                    address: account.address,
                    program,
                    raw_amount: account.raw_amount,
                    decimals: account.decimals,
                },
            ),
        )
    }
}

/// The accounts that can be closed, and how many of the others there are.
pub struct EligibleView {
    pub candidates: Seq<CandidateView>,
    pub nonempty: nat,
    pub non_associated: nat,
}

/// One of some candidates has an address.
pub open spec fn has_address(candidates: Seq<CandidateView>, address: Seq<u8>) -> bool {
    exists|i: int| 0 <= i < candidates.len() && (#[trigger] candidates[i]).address == address
}

impl EligibleView {
    /// With one more account. An address is taken once.
    pub open spec fn with(self, account: EligibilityView) -> EligibleView {
        match account {
            EligibilityView::NonAssociated => EligibleView {
                non_associated: self.non_associated + 1,
                ..self
            },
            EligibilityView::NonEmpty => EligibleView { nonempty: self.nonempty + 1, ..self },
            EligibilityView::Eligible(candidate) => if has_address(
                self.candidates,
                candidate.address,
            ) {
                self
            } else {
                EligibleView { candidates: self.candidates.push(candidate), ..self }
            },
        }
    }

    /// With the accounts of an owner under a token program.
    pub open spec fn with_accounts(
        self,
        owner: Seq<u8>,
        program: Seq<u8>,
        accounts: Seq<TokenAccountView>,
        burn: bool,
    ) -> Result<EligibleView, Error>
        decreases accounts.len(),
    {
        if accounts.len() == 0 {
            Ok(self)
        } else {
            match self.with_accounts(owner, program, accounts.drop_last(), burn) {
                Err(error) => Err(error),
                Ok(front) => match eligibility(owner, program, accounts.last(), burn) {
                    Err(error) => Err(error),
                    Ok(outcome) => Ok(front.with(outcome)),
                },
            }
        }
    }
}

/// The accounts that can be closed, and how many of the others there are.
pub struct Eligible {
    pub candidates: Vec<CloseCandidate>,
    pub nonempty: usize,
    pub non_associated: usize,
}

impl View for Eligible {
    type V = EligibleView;

    open spec fn view(&self) -> EligibleView {
        EligibleView {
            candidates: candidate_views(self.candidates@),
            nonempty: self.nonempty as nat,
            non_associated: self.non_associated as nat,
        }
    }
}

proof fn lemma_with_accounts_err(
    start: EligibleView,
    owner: Seq<u8>,
    program: Seq<u8>,
    accounts: Seq<TokenAccountView>,
    burn: bool,
    n: int,
)
    requires
        0 <= n <= accounts.len(),
        start.with_accounts(owner, program, accounts.take(n), burn) is Err,
    ensures
        start.with_accounts(owner, program, accounts, burn) == start.with_accounts(
            owner,
            program,
            accounts.take(n),
            burn,
        ),
    decreases accounts.len() - n,
{
    if n == accounts.len() {
        assert(accounts.take(n) =~= accounts);
    } else {
        assert(accounts.take(n + 1).drop_last() =~= accounts.take(n));
        lemma_with_accounts_err(start, owner, program, accounts, burn, n + 1);
    }
}

impl Eligible {
    /// No accounts yet.
    pub fn new() -> (eligible: Self)
        ensures
            eligible@ == (EligibleView {
                candidates: Seq::empty(),
                nonempty: 0,
                non_associated: 0,
            }),
    {
        let eligible = Eligible { candidates: Vec::new(), nonempty: 0, non_associated: 0 };
        assert(eligible@.candidates =~= Seq::empty());
        eligible
    }

    /// Tells whether an address is taken.
    fn has(&self, address: &Pubkey) -> (yes: bool)
        ensures
            yes == has_address(self@.candidates, address@),
    {
        let mut i: usize = 0;
        while i < self.candidates.len()
            invariant
                i <= self.candidates@.len(),
                forall|k: int|
                    0 <= k < i ==> (#[trigger] self@.candidates[k]).address != address@,
            decreases self.candidates@.len() - i,
        {
            assert(self@.candidates[i as int] == self.candidates@[i as int]@);
            if self.candidates[i].address.same(address) {
                return true;
            }
            i += 1;
        }
        false
    }

    /// Adds the accounts of an owner under a token program.
    pub fn eligible_atas(
        self,
        owner: &Pubkey,
        program: &Pubkey,
        accounts: &Vec<TokenAccount>,
        burn: bool,
    ) -> (eligible: Result<Eligible, Error>)
        requires
            self.nonempty + accounts@.len() <= usize::MAX,
            self.non_associated + accounts@.len() <= usize::MAX,
        ensures
            match self@.with_accounts(owner@, program@, token_account_views(accounts@), burn) {
                Ok(e) => eligible matches Ok(r) && r@ == e,
                Err(error) => eligible == Err::<Eligible, Error>(error),
            },
    {
        let mut found = self;
        let ghost views = token_account_views(accounts@);
        let ghost start = self@;
        assert(views.take(0) =~= Seq::empty());
        let mut i: usize = 0;
        while i < accounts.len()
            invariant
                i <= accounts@.len(),
                views == token_account_views(accounts@),
                start == self@,
                self.nonempty + accounts@.len() <= usize::MAX,
                self.non_associated + accounts@.len() <= usize::MAX,
                found.nonempty <= self.nonempty + i,
                found.non_associated <= self.non_associated + i,
                start.with_accounts(owner@, program@, views.take(i as int), burn) == Ok::<
                    EligibleView,
                    Error,
                >(found@),
            decreases accounts@.len() - i,
        {
            proof {
                assert(views.take(i + 1).drop_last() =~= views.take(i as int));
                assert(views.take(i + 1).last() == accounts@[i as int]@);
            }
            let ghost before = found@;
            match close_eligibility(owner, *program, &accounts[i], burn) {
                Err(error) => {
                    proof {
                        lemma_with_accounts_err(start, owner@, program@, views, burn, i + 1);
                    }
                    return Err(error);
                },
                Ok(CloseEligibility::NonAssociated) => {
                    found.non_associated = found.non_associated + 1;
                },
                Ok(CloseEligibility::NonEmpty) => {
                    found.nonempty = found.nonempty + 1;
                },
                Ok(CloseEligibility::Eligible(candidate)) => {
                    if !found.has(&candidate.address) {
                        found.candidates.push(candidate);
                        assert(found@.candidates =~= before.candidates.push(candidate@));
                    }
                },
            }
            i += 1;
        }
        assert(views.take(i as int) =~= views);
        Ok(found)
    }

    /// The line that says what was found.
    pub fn found_text(&self) -> (text: String)
        ensures
            text@ == "Found "@ + number_text(self@.candidates.len()) + " eligible ATAs; skipped "@
                + number_text(self@.nonempty) + " non-empty and "@ + number_text(
                self@.non_associated,
            ) + " non-associated token accounts.\n"@,
    {
        "Found ".to_owned().concat(decimal(self.candidates.len() as u128).as_str()).concat(
            " eligible ATAs; skipped ",
        ).concat(decimal(self.nonempty as u128).as_str()).concat(" non-empty and ").concat(
            decimal(self.non_associated as u128).as_str(),
        ).concat(" non-associated token accounts.\n")
    }
}

// ---------------------------------------------------------------------------------------------
// Batches
// ---------------------------------------------------------------------------------------------
/// The instructions that close some accounts.
pub open spec fn batch_instructions(candidates: Seq<CandidateView>, owner: Seq<u8>) -> Seq<
    InstructionView,
>
    decreases candidates.len(),
{
    if candidates.len() == 0 {
        Seq::empty()
    } else {
        batch_instructions(candidates.drop_last(), owner) + candidates.last().instructions(owner)
    }
}

/// Instructions behind the largest compute limit, where one will be set.
pub open spec fn with_budget(instructions: Seq<InstructionView>, budget: bool) -> Seq<
    InstructionView,
> {
    if budget {
        seq![compute_limit_of(MAX_COMPUTE_UNITS)] + instructions
    } else {
        instructions
    }
}

/// Whether instructions fit into a transaction, or why they cannot be compiled.
pub open spec fn batch_fits(
    owner: Seq<u8>,
    instructions: Seq<InstructionView>,
    budget: bool,
) -> Result<bool, Seq<char>> {
    match compiled_message(owner, with_budget(instructions, budget), Seq::new(32, |i: int| 0u8)) {
        Err(message) => Err(message),
        Ok(message) => Ok(wire(no_signature(), message).len() <= MAX_TRANSACTION_BYTES),
    }
}

/// Tells whether instructions fit into a transaction.
pub fn close_batch_fits(owner: &Pubkey, instructions: &Vec<Instruction>, budget: bool) -> (fits:
    Result<bool, Error>)
    ensures
        match batch_fits(owner@, instruction_views(instructions@), budget) {
            Ok(yes) => fits == Ok::<bool, Error>(yes),
            Err(message) => fits matches Err(e) && e.text() == message,
        },
{
    let mut list: Vec<Instruction> = Vec::with_capacity(instructions.len());
    if budget {
        list.push(set_compute_unit_limit(MAX_COMPUTE_UNITS));
    }
    let ghost front = instruction_views(list@);
    let ghost views = instruction_views(instructions@);
    assert(instruction_views(list@) =~= front + views.take(0));
    let mut i: usize = 0;
    while i < instructions.len()
        invariant
            i <= instructions@.len(),
            views == instruction_views(instructions@),
            instruction_views(list@) == front + views.take(i as int),
        decreases instructions@.len() - i,
    {
        let ghost before = list@;
        list.push(instructions[i].copy());
        proof {
            assert(views[i as int] == instructions@[i as int]@);
            assert(instruction_views(list@) =~= instruction_views(before).push(views[i as int]));
            assert(front + views.take(i + 1) =~= (front + views.take(i as int)).push(
                views[i as int],
            ));
        }
        i += 1;
    }
    assert(views.take(i as int) =~= views);
    assert(instruction_views(list@) =~= with_budget(views, budget));
    let blockhash: [u8; 32] = [0;32];
    assert(blockhash@ =~= Seq::new(32, |i: int| 0u8));
    let message = match compile_message(owner, &list, &blockhash) {
        Ok(message) => message,
        Err(text) => return Err(Error::Outside(text)),
    };
    let empty: [u8; 64] = [0;64];
    assert(empty@ =~= no_signature());
    Ok(transaction_wire(&empty, message.as_slice()).len() <= MAX_TRANSACTION_BYTES)
}

/// Where a batch ends that has grown to `end`: accounts are added in order while they fit. A batch
/// has at least one account, or there is a message that says why not.
pub open spec fn batch_end(
    owner: Seq<u8>,
    candidates: Seq<CandidateView>,
    start: int,
    end: int,
    budget: bool,
) -> Result<int, Seq<char>>
    decreases candidates.len() - end,
{
    if end >= candidates.len() {
        Ok(end)
    } else {
        match batch_fits(
            owner,
            batch_instructions(candidates.subrange(start, end + 1), owner),
            budget,
        ) {
            Err(message) => Err(message),
            Ok(true) => batch_end(owner, candidates, start, end + 1, budget),
            Ok(false) => if end == start {
                Err(Error::CloseTooLarge.text())
            } else {
                Ok(end)
            },
        }
    }
}

/// A line for an account in a batch.
pub open spec fn candidate_line(candidate: CandidateView) -> Seq<char> {
    if candidate.raw_amount > 0 {
        if native_mint(candidate.mint, candidate.program) {
            "\nUnwrap "@ + number_text(candidate.raw_amount as nat) + " native units from mint "@
                + address_text(candidate.mint) + ", ATA: "@ + address_text(candidate.address)
        } else {
            "\nBURN "@ + amount_text(candidate.raw_amount, candidate.decimals) + " token units ("@
                + number_text(candidate.raw_amount as nat) + " base units) from mint "@
                + address_text(candidate.mint) + ", ATA: "@ + address_text(candidate.address)
        }
    } else {
        "\nMint: "@ + address_text(candidate.mint) + ", ATA: "@ + address_text(candidate.address)
            + " (empty)"@
    }
}

/// Lines for the accounts in a batch.
pub open spec fn candidate_lines(candidates: Seq<CandidateView>) -> Seq<char>
    decreases candidates.len(),
{
    if candidates.len() == 0 {
        Seq::empty()
    } else {
        candidate_lines(candidates.drop_last()) + candidate_line(candidates.last())
    }
}

/// Something in a batch must be burned.
pub open spec fn burns(candidates: Seq<CandidateView>) -> bool {
    exists|i: int| 0 <= i < candidates.len() && (#[trigger] candidates[i]).must_burn()
}

/// What the user sees of a batch.
pub open spec fn batch_details(name: Seq<char>, owner: Seq<u8>, candidates: Seq<CandidateView>) -> Seq<
    char,
> {
    let lines = "Close "@ + number_text(candidates.len())
        + " associated token account(s); reclaim account lamports\nOwner/destination: "@ + name
        + " ("@ + address_text(owner) + ")"@ + candidate_lines(candidates);
    if burns(candidates) {
        lines + "\nBurning destroys those tokens; only the ATA lamports are reclaimed."@
    } else {
        lines
    }
}

/// A line for an account in a batch.
fn line_of(candidate: &CloseCandidate) -> (line: String)
    ensures
        line@ == candidate_line(candidate@),
{
    let mint = candidate.mint.text();
    let address = candidate.address.text();
    if candidate.raw_amount > 0 {
        let raw = decimal(candidate.raw_amount as u128);
        if is_native_mint(&candidate.mint, &candidate.program) {
            "\nUnwrap ".to_owned().concat(raw.as_str()).concat(" native units from mint ").concat(
                mint.as_str(),
            ).concat(", ATA: ").concat(address.as_str())
        } else {
            "\nBURN ".to_owned().concat(
                format_amount(candidate.raw_amount, candidate.decimals).as_str(),
            ).concat(" token units (").concat(raw.as_str()).concat(" base units) from mint ").concat(
                mint.as_str(),
            ).concat(", ATA: ").concat(address.as_str())
        }
    } else {
        "\nMint: ".to_owned().concat(mint.as_str()).concat(", ATA: ").concat(
            address.as_str(),
        ).concat(" (empty)")
    }
}

/// Some accounts that are closed in one transaction.
pub struct Batch {
    pub instructions: Vec<Instruction>,
    pub details: String,
    pub burn_confirmation: bool,
}

/// What to do next about the accounts that are to be closed.
pub enum CloseNext {
    /// Send a transaction.
    Send(Batch),
    /// Nothing more: show the text.
    Finished(String),
    /// Stop.
    Fail(Error),
}

/// Accounts that are closed, batch by batch.
pub struct ClosingView {
    pub owner: Seq<u8>,
    pub name: Seq<char>,
    pub budget: bool,
    pub candidates: Seq<CandidateView>,
    /// Where the current batch starts and ends. The accounts before it are closed.
    pub start: nat,
    pub end: nat,
}

/// Accounts that are closed, batch by batch.
pub struct Closing {
    pub owner: Pubkey,
    pub name: String,
    pub budget: bool,
    pub candidates: Vec<CloseCandidate>,
    pub start: usize,
    pub end: usize,
}

impl View for Closing {
    type V = ClosingView;

    open spec fn view(&self) -> ClosingView {
        ClosingView {
            owner: self.owner@,
            name: self.name@,
            budget: self.budget,
            candidates: candidate_views(self.candidates@),
            start: self.start as nat,
            end: self.end as nat,
        }
    }
}

impl ClosingView {
    /// The batches before the current one were sent; it lies in the list.
    pub open spec fn wf(self) -> bool {
        self.start <= self.end <= self.candidates.len()
    }

    /// The current batch.
    pub open spec fn batch(self) -> Seq<CandidateView> {
        self.candidates.subrange(self.start as int, self.end as int)
    }

    /// What is sent for the current batch.
    pub open spec fn sends(self, next: CloseNext) -> bool {
        next matches CloseNext::Send(batch) && instruction_views(batch.instructions@)
            == batch_instructions(self.batch(), self.owner) && batch.details@ == batch_details(
            self.name,
            self.owner,
            self.batch(),
        ) && batch.burn_confirmation == burns(self.batch())
    }

    /// The next batch starts at a position.
    pub open spec fn moved(self, start: nat, after: ClosingView, next: CloseNext) -> bool {
        match batch_end(self.owner, self.candidates, start as int, start as int, self.budget) {
            Ok(end) => after == (ClosingView { start, end: end as nat, ..self }) && after.sends(
                next,
            ),
            Err(message) => next matches CloseNext::Fail(e) && e.text() == message,
        }
    }
}

proof fn lemma_batch_end(
    owner: Seq<u8>,
    candidates: Seq<CandidateView>,
    start: int,
    end: int,
    budget: bool,
)
    requires
        0 <= start <= end <= candidates.len(),
        start < candidates.len(),
    ensures
        batch_end(owner, candidates, start, end, budget) matches Ok(e) ==> end <= e
            <= candidates.len() && start < e,
    decreases candidates.len() - end,
{
    if end < candidates.len() {
        lemma_batch_end(owner, candidates, start, end + 1, budget);
    }
}

impl Closing {
    /// Accounts that are to be closed.
    pub fn new(owner: Pubkey, name: String, budget: bool, candidates: Vec<CloseCandidate>) -> (closing:
        Self)
        ensures
            closing@ == (ClosingView {
                owner: owner@,
                name: name@,
                budget,
                candidates: candidate_views(candidates@),
                start: 0,
                end: 0,
            }),
            closing@.wf(),
    {
        Closing { owner, name, budget, candidates, start: 0, end: 0 }
    }

    /// The transaction for the current batch.
    fn send_close_batch(&self, instructions: Vec<Instruction>) -> (batch: Batch)
        requires
            self@.wf(),
            instruction_views(instructions@) == batch_instructions(self@.batch(), self@.owner),
        ensures
            self@.sends(CloseNext::Send(batch)),
    {
        let mut details = "Close ".to_owned().concat(
            decimal((self.end - self.start) as u128).as_str(),
        ).concat(
            " associated token account(s); reclaim account lamports\nOwner/destination: ",
        ).concat(self.name.as_str()).concat(" (").concat(self.owner.text().as_str()).concat(")");
        let ghost head = details@;
        let ghost batch = self@.batch();
        let mut burn: bool = false;
        let mut i: usize = self.start;
        assert(batch.take(0) =~= Seq::empty());
        assert(details@ =~= head + candidate_lines(batch.take(0)));
        while i < self.end
            invariant
                self@.wf(),
                self.start <= i <= self.end,
                batch == self@.batch(),
                batch.len() == self.end - self.start,
                details@ == head + candidate_lines(batch.take(i - self.start)),
                burn == exists|k: int|
                    0 <= k < i - self.start && (#[trigger] batch[k]).must_burn(),
            decreases self.end - i,
        {
            let candidate = &self.candidates[i];
            let ghost k = i - self.start;
            proof {
                assert(batch[k] == candidate@);
                assert(batch.take(k + 1).drop_last() =~= batch.take(k));
                assert(batch.take(k + 1).last() == candidate@);
            }
            details.append(line_of(candidate).as_str());
            assert(details@ =~= head + candidate_lines(batch.take(k + 1)));
            if candidate.requires_burn() {
                burn = true;
            }
            i += 1;
        }
        assert(batch.take(i - self.start) =~= batch);
        if burn {
            details.append(
                "\nBurning destroys those tokens; only the ATA lamports are reclaimed.",
            );
        }
        assert(burn == burns(batch));
        Batch { instructions, details, burn_confirmation: burn }
    }

    /// Finds the next batch.
    fn next_batch(&mut self, start: usize) -> (next: CloseNext)
        requires
            old(self)@.wf(),
            start < old(self).candidates@.len(),
        ensures
            old(self)@.moved(start as nat, final(self)@, next),
            final(self)@.wf(),
            !(next is Fail) ==> start < final(self).end,
            !(next is Finished),
    {
        let ghost before = self@;
        let ghost views = self@.candidates;
        let mut instructions: Vec<Instruction> = Vec::new();
        let mut end: usize = start;
        assert(views.subrange(start as int, start as int) =~= Seq::empty());
        assert(instruction_views(instructions@) =~= Seq::empty());
        while end < self.candidates.len()
            invariant
                self@ == before,
                before.wf(),
                views == self@.candidates,
                start <= end <= self.candidates@.len(),
                start < self.candidates@.len(),
                instruction_views(instructions@) == batch_instructions(
                    views.subrange(start as int, end as int),
                    before.owner,
                ),
                batch_end(before.owner, views, start as int, start as int, before.budget)
                    == batch_end(before.owner, views, start as int, end as int, before.budget),
            ensures
                self@ == before,
                start < end <= self.candidates@.len(),
                instruction_views(instructions@) == batch_instructions(
                    views.subrange(start as int, end as int),
                    before.owner,
                ),
                batch_end(before.owner, views, start as int, start as int, before.budget) == Ok::<
                    int,
                    Seq<char>,
                >(end as int),
            decreases self.candidates@.len() - end,
        {
            let candidate = self.candidates[end];
            let before_len: usize = instructions.len();
            let ghost kept = instructions@;
            candidate.append_instructions(&self.owner, &mut instructions);
            proof {
                let longer = views.subrange(start as int, end + 1);
                assert(longer.drop_last() =~= views.subrange(start as int, end as int));
                assert(longer.last() == candidate@);
            }
            match close_batch_fits(&self.owner, &instructions, self.budget) {
                Err(error) => {
                    return CloseNext::Fail(error);
                },
                Ok(true) => {
                    end += 1;
                },
                Ok(false) => {
                    if end == start {
                        return CloseNext::Fail(Error::CloseTooLarge);
                    }
                    let ghost longer = instruction_views(instructions@);
                    instructions.truncate(before_len);
                    assert(instruction_views(instructions@) =~= longer.take(before_len as int));
                    assert(longer.take(before_len as int) =~= instruction_views(kept));
                    break;
                },
            }
        }
        self.start = start;
        self.end = end;
        let batch = self.send_close_batch(instructions);
        CloseNext::Send(batch)
    }

    /// Begins: the first batch, if there is anything to close.
    pub fn begin(&mut self) -> (next: CloseNext)
        requires
            old(self)@.wf(),
        ensures
            old(self)@.candidates.len() == 0 ==> final(self)@ == old(self)@ && (
            next matches CloseNext::Finished(text) && text@
                == "No eligible associated token accounts to close.\n"@),
            old(self)@.candidates.len() > 0 ==> old(self)@.moved(0, final(self)@, next),
            final(self)@.wf(),
    {
        if self.candidates.len() == 0 {
            return CloseNext::Finished(
                "No eligible associated token accounts to close.\n".to_owned(),
            );
        }
        self.next_batch(0)
    }

    /// Goes on after a batch was sent: with the next one, if it was confirmed.
    pub fn send_close_batches(&mut self, confirmed: bool) -> (next: CloseNext)
        requires
            old(self)@.wf(),
        ensures
            !confirmed ==> final(self)@ == old(self)@ && (next matches CloseNext::Finished(text)
                && text@
                == "Stopped after a pending batch; check its signature before retrying.\n"@),
            confirmed && old(self)@.end == old(self)@.candidates.len() ==> final(self)@ == old(self)@
                && (next matches CloseNext::Finished(text) && text@ == "Closed "@ + number_text(
                old(self)@.end,
            ) + " associated token account(s).\n"@),
            confirmed && old(self)@.end < old(self)@.candidates.len() ==> old(self)@.moved(
                old(self)@.end,
                final(self)@,
                next,
            ),
            final(self)@.wf(),
    {
        if !confirmed {
            return CloseNext::Finished(
                "Stopped after a pending batch; check its signature before retrying.\n".to_owned(),
            );
        }
        if self.end == self.candidates.len() {
            return CloseNext::Finished(
                "Closed ".to_owned().concat(decimal(self.end as u128).as_str()).concat(
                    " associated token account(s).\n",
                ),
            );
        }
        let start: usize = self.end;
        self.next_batch(start)
    }
}

// ---------------------------------------------------------------------------------------------
// Laws
// ---------------------------------------------------------------------------------------------
/// Every batch has at least one account, its transaction fits into a packet, and it could not take
/// the next account too.
pub proof fn batches_are_full(
    owner: Seq<u8>,
    candidates: Seq<CandidateView>,
    start: int,
    budget: bool,
)
    requires
        0 <= start < candidates.len(),
        batch_end(owner, candidates, start, start, budget) is Ok,
    ensures
        ({
            let end = batch_end(owner, candidates, start, start, budget)->Ok_0;
            let part = |e: int| batch_instructions(candidates.subrange(start, e), owner);
            &&& start < end <= candidates.len()
            &&& batch_fits(owner, part(end), budget) == Ok::<bool, Seq<char>>(true)
            &&& end < candidates.len() ==> batch_fits(owner, part(end + 1), budget) == Ok::<
                bool,
                Seq<char>,
            >(false)
        }),
{
    lemma_batch_end(owner, candidates, start, start, budget);
    lemma_batch_grown(owner, candidates, start, start, budget);
}

proof fn lemma_batch_grown(
    owner: Seq<u8>,
    candidates: Seq<CandidateView>,
    start: int,
    at: int,
    budget: bool,
)
    requires
        0 <= start <= at <= candidates.len(),
        start < candidates.len(),
        at > start ==> batch_fits(
            owner,
            batch_instructions(candidates.subrange(start, at), owner),
            budget,
        ) == Ok::<bool, Seq<char>>(true),
        batch_end(owner, candidates, start, at, budget) is Ok,
    ensures
        ({
            let end = batch_end(owner, candidates, start, at, budget)->Ok_0;
            &&& end > start ==> batch_fits(
                owner,
                batch_instructions(candidates.subrange(start, end), owner),
                budget,
            ) == Ok::<bool, Seq<char>>(true)
            &&& end < candidates.len() ==> batch_fits(
                owner,
                batch_instructions(candidates.subrange(start, end + 1), owner),
                budget,
            ) == Ok::<bool, Seq<char>>(false)
        }),
    decreases candidates.len() - at,
{
    if at < candidates.len() {
        match batch_fits(
            owner,
            batch_instructions(candidates.subrange(start, at + 1), owner),
            budget,
        ) {
            Ok(true) => {
                lemma_batch_grown(owner, candidates, start, at + 1, budget);
            },
            _ => {},
        }
    }
}

impl EligibleView {
    /// Only associated accounts of the owner are taken, no account is taken twice, and without leave
    /// to burn only empty accounts are.
    pub open spec fn sound(self, owner: Seq<u8>, burn: bool) -> bool {
        &&& forall|i: int, j: int|
            0 <= i < j < self.candidates.len() ==> (#[trigger] self.candidates[i]).address != (
            #[trigger] self.candidates[j]).address
        &&& forall|i: int|
            0 <= i < self.candidates.len() ==> {
                let c = #[trigger] self.candidates[i];
                associated_account(owner, c.mint, c.program) == Some(c.address) && (burn
                    || c.raw_amount == 0)
            }
    }
}

/// The accounts that can be closed stay sound with the accounts of every token program: only
/// associated accounts of the owner are taken, no account is taken twice, and without leave to
/// burn only empty accounts are.
pub proof fn eligible_accounts_stay_sound(
    eligible: EligibleView,
    owner: Seq<u8>,
    program: Seq<u8>,
    accounts: Seq<TokenAccountView>,
    burn: bool,
)
    requires
        eligible.sound(owner, burn),
    ensures
        eligible.with_accounts(owner, program, accounts, burn) matches Ok(e) ==> e.sound(
            owner,
            burn,
        ),
    decreases accounts.len(),
{
    if accounts.len() > 0 {
        eligible_accounts_stay_sound(eligible, owner, program, accounts.drop_last(), burn);
    }
}

/// Where all accounts are empty, closing them burns nothing.
pub proof fn empty_accounts_are_not_burned(candidates: Seq<CandidateView>)
    requires
        forall|i: int| 0 <= i < candidates.len() ==> (#[trigger] candidates[i]).raw_amount == 0,
    ensures
        !burns(candidates),
        forall|i: int|
            0 <= i < candidates.len() ==> !(#[trigger] candidates[i]).must_burn(),
{
}

/// Closing accounts takes no signature but the owner's.
pub proof fn closing_is_signed_by_the_owner(candidates: Seq<CandidateView>, owner: Seq<u8>)
    ensures
        only_payer_signs(owner, batch_instructions(candidates, owner)),
    decreases candidates.len(),
{
    if candidates.len() > 0 {
        closing_is_signed_by_the_owner(candidates.drop_last(), owner);
        let front = batch_instructions(candidates.drop_last(), owner);
        let last = candidates.last().instructions(owner);
        let all = batch_instructions(candidates, owner);
        assert forall|i: int, j: int|
            0 <= i < all.len() && 0 <= j < all[i].accounts.len() && (
            #[trigger] all[i].accounts[j]).is_signer implies all[i].accounts[j].pubkey
            == owner by {
            if i < front.len() {
                assert(all[i] == front[i]);
                assert(front[i].accounts[j].is_signer);
            } else {
                assert(all[i] == last[i - front.len()]);
            }
        }
    }
}

/// An instruction that burns some of an owner's tokens.
pub open spec fn burns_tokens(
    instruction: InstructionView,
    candidate: CandidateView,
    owner: Seq<u8>,
) -> bool {
    &&& instruction.program_id == candidate.program
    &&& instruction.accounts.len() == 3
    &&& instruction.accounts[0].pubkey == candidate.address
    &&& instruction.accounts[1].pubkey == candidate.mint
    &&& instruction.accounts[2].pubkey == owner && instruction.accounts[2].is_signer
    &&& instruction.data.len() == 10
    &&& instruction.data[0] == 15
    &&& number_in(instruction.data.subrange(1, 9)) == candidate.raw_amount
    &&& instruction.data[9] == candidate.decimals
}

/// What closes an account: its whole balance is burned first, if it has one of another mint than
/// the wrapped native one, and then it is closed. Its lamports go to the owner.
pub proof fn accounts_are_burned_and_closed(candidate: CandidateView, owner: Seq<u8>)
    ensures
        ({
            let list = candidate.instructions(owner);
            let native = (candidate.mint == NATIVE_MINT@ && candidate.program == TOKEN@) || (
            candidate.mint == NATIVE_MINT_2022@ && candidate.program == TOKEN_2022@);
            &&& list.len() == if candidate.raw_amount != 0 && !native {
                2int
            } else {
                1int
            }
            &&& list.len() == 2 ==> burns_tokens(list[0], candidate, owner)
            &&& closes(list.last(), candidate.address, owner, candidate.program)
            &&& list.last().accounts[1].pubkey == owner
            &&& candidate.address != owner ==> list.last().accounts[1].pubkey
                != list.last().accounts[0].pubkey
            &&& candidate.must_burn() <==> list.len() == 2
        }),
{
    tokens_are_burned_from_the_account(
        candidate.address,
        candidate.mint,
        owner,
        candidate.raw_amount,
        candidate.decimals,
        candidate.program,
    );
    lamports_of_a_closed_account_go_to_the_owner(candidate.address, owner, candidate.program);
}

/// Every account of a batch is closed, and its lamports go to the owner: at some place in the batch
/// stands the instruction that closes it.
pub proof fn every_account_of_a_batch_is_closed(
    candidates: Seq<CandidateView>,
    owner: Seq<u8>,
    k: int,
)
    requires
        0 <= k < candidates.len(),
    ensures
        ({
            let all = batch_instructions(candidates, owner);
            let end = batch_instructions(candidates.take(k + 1), owner).len();
            let c = candidates[k];
            &&& 0 < end <= all.len()
            &&& closes(all[end - 1], c.address, owner, c.program)
            &&& c.must_burn() ==> end > 1 && burns_tokens(all[end - 2], c, owner)
        }),
    decreases candidates.len(),
{
    let last = candidates.len() - 1;
    accounts_are_burned_and_closed(candidates[last], owner);
    if k == last {
        assert(candidates.take(k + 1) =~= candidates);
    } else {
        let front = candidates.drop_last();
        every_account_of_a_batch_is_closed(front, owner, k);
        assert(front.take(k + 1) =~= candidates.take(k + 1));
    }
}

/// A batch holds nothing else: each of its instructions closes an account of the batch, its lamports
/// going to the owner, or burns the whole balance of one that must be burned.
pub proof fn a_batch_only_burns_and_closes(candidates: Seq<CandidateView>, owner: Seq<u8>, i: int)
    requires
        0 <= i < batch_instructions(candidates, owner).len(),
    ensures
        exists|k: int|
            0 <= k < candidates.len() && {
                let c = #[trigger] candidates[k];
                let instruction = batch_instructions(candidates, owner)[i];
                closes(instruction, c.address, owner, c.program) || (c.must_burn()
                    && burns_tokens(instruction, c, owner))
            },
    decreases candidates.len(),
{
    let last = candidates.len() - 1;
    let front = candidates.drop_last();
    let head = batch_instructions(front, owner);
    let all = batch_instructions(candidates, owner);
    accounts_are_burned_and_closed(candidates[last], owner);
    if i < head.len() {
        a_batch_only_burns_and_closes(front, owner, i);
        let k = choose|k: int|
            0 <= k < front.len() && {
                let c = #[trigger] front[k];
                closes(head[i], c.address, owner, c.program) || (c.must_burn() && burns_tokens(
                    head[i],
                    c,
                    owner,
                ))
            };
        assert(candidates[k] == front[k]);
    } else {
        assert(all[i] == candidates[last].instructions(owner)[i - head.len()]);
    }
}

/// A batch that fits compiles, behind the largest compute limit where one will be set, and with room
/// for one signature it is no larger than a packet. One that does not fit is larger.
pub proof fn a_batch_that_fits_is_a_packet(
    owner: Seq<u8>,
    instructions: Seq<InstructionView>,
    budget: bool,
    list: Seq<InstructionView>,
)
    requires
        budget ==> list == seq![compute_limit_of(1_400_000)] + instructions,
        !budget ==> list == instructions,
    ensures
        ({
            let message = compiled_message(owner, list, Seq::new(32, |i: int| 0u8));
            &&& (batch_fits(owner, instructions, budget) == Ok::<bool, Seq<char>>(true)) == (
            message is Ok && 1 + 64 + message->Ok_0.len() <= 1232)
            &&& batch_fits(owner, instructions, budget) is Err == message is Err
        }),
{
}

/// The next batch starts where the last one ended, so no account is left out and none is closed
/// twice; the number that is told at the end is that of all accounts.
pub proof fn batches_follow_each_other(
    closing: ClosingView,
    after: ClosingView,
    next: CloseNext,
)
    requires
        closing.wf(),
        closing.end < closing.candidates.len(),
        closing.moved(closing.end, after, next),
        next is Send,
    ensures
        after.start == closing.end,
        after.start < after.end <= after.candidates.len(),
        after.candidates == closing.candidates,
        after.owner == closing.owner,
        after.name == closing.name,
        instruction_views(next->Send_0.instructions@) == batch_instructions(
            closing.candidates.subrange(closing.end as int, after.end as int),
            closing.owner,
        ),
        has_prefix(
            next->Send_0.details@,
            "Close "@ + number_text((after.end - closing.end) as nat)
                + " associated token account(s); reclaim account lamports\nOwner/destination: "@
                + closing.name + " ("@ + address_text(closing.owner) + ")"@,
        ),
        next->Send_0.burn_confirmation == (exists|i: int|
            after.start <= i < after.end && (#[trigger] after.candidates[i]).must_burn()),
{
    lemma_batch_end(
        closing.owner,
        closing.candidates,
        closing.end as int,
        closing.end as int,
        closing.budget,
    );
    let batch = after.batch();
    let head = "Close "@ + number_text((after.end - closing.end) as nat)
        + " associated token account(s); reclaim account lamports\nOwner/destination: "@
        + closing.name + " ("@ + address_text(closing.owner) + ")"@;
    assert(next->Send_0.details@.subrange(0, head.len() as int) =~= head);
    assert forall|i: int|
        after.start <= i < after.end && (#[trigger] after.candidates[i]).must_burn() implies burns(
        batch,
    ) by {
        assert(batch[i - after.start] == after.candidates[i]);
    }
    if burns(batch) {
        let k = choose|k: int| 0 <= k < batch.len() && (#[trigger] batch[k]).must_burn();
        assert(after.candidates[after.start + k].must_burn());
    }
}

/// An account is closed if and only if it is the owner's associated account for its mint, and empty
/// unless burning is allowed; what is closed is that account, with its whole balance.
pub proof fn only_own_accounts_are_eligible(
    owner: Seq<u8>,
    program: Seq<u8>,
    account: TokenAccountView,
    burn: bool,
)
    requires
        associated_account(owner, account.mint, program) is Some,
    ensures
        ({
            let own = program_address(seq![owner, program, account.mint], ASSOCIATED_TOKEN@)
                == Some(account.address);
            let outcome = eligibility(owner, program, account, burn)->Ok_0;
            &&& eligibility(owner, program, account, burn) is Ok
            &&& (outcome is NonAssociated <==> !own)
            &&& (outcome is NonEmpty <==> own && account.raw_amount > 0 && !burn)
            &&& (outcome is Eligible <==> own && (account.raw_amount == 0 || burn))
            &&& outcome matches EligibilityView::Eligible(c) ==> {
                &&& c.mint == account.mint
                &&& c.address == account.address
                &&& c.program == program
                &&& c.raw_amount == account.raw_amount
                &&& c.decimals == account.decimals
            }
        }),
{
}

/// Every account that can be closed is taken, and every other one is counted.
pub proof fn no_account_is_overlooked(
    eligible: EligibleView,
    owner: Seq<u8>,
    program: Seq<u8>,
    accounts: Seq<TokenAccountView>,
    burn: bool,
)
    requires
        eligible.with_accounts(owner, program, accounts, burn) is Ok,
    ensures
        ({
            let after = eligible.with_accounts(owner, program, accounts, burn)->Ok_0;
            &&& forall|i: int|
                0 <= i < accounts.len() && eligibility(
                    owner,
                    program,
                    #[trigger] accounts[i],
                    burn,
                )->Ok_0 is Eligible ==> has_address(
                    after.candidates,
                    accounts[i].address,
                )
            &&& forall|address: Seq<u8>| #[trigger]
                has_address(eligible.candidates, address) ==> has_address(after.candidates, address)
            &&& after.nonempty + after.non_associated + after.candidates.len() <= eligible.nonempty
                + eligible.non_associated + eligible.candidates.len() + accounts.len()
        }),
    decreases accounts.len(),
{
    if accounts.len() > 0 {
        let front = accounts.drop_last();
        no_account_is_overlooked(eligible, owner, program, front, burn);
        let before = eligible.with_accounts(owner, program, front, burn)->Ok_0;
        let after = eligible.with_accounts(owner, program, accounts, burn)->Ok_0;
        assert forall|address: Seq<u8>| #[trigger]
            has_address(before.candidates, address) implies has_address(
            after.candidates,
            address,
        ) by {
            let k = choose|k: int|
                0 <= k < before.candidates.len() && (#[trigger] before.candidates[k]).address
                    == address;
            assert(after.candidates[k].address == address);
        }
        assert forall|i: int|
            0 <= i < accounts.len() && eligibility(
                owner,
                program,
                #[trigger] accounts[i],
                burn,
            )->Ok_0 is Eligible implies has_address(
            after.candidates,
            accounts[i].address,
        ) by {
            if i < front.len() {
                assert(front[i] == accounts[i]);
            } else {
                let c = eligibility(owner, program, accounts[i], burn)->Ok_0->Eligible_0;
                if !has_address(before.candidates, c.address) {
                    assert(after.candidates[before.candidates.len() as int].address == c.address);
                }
            }
        }
    }
}

/// What the user is told about an account: burning is announced if and only if something is burned,
/// with the amount, the mint and the account.
pub proof fn burning_is_announced(candidate: CandidateView)
    ensures
        candidate.must_burn() ==> candidate_line(candidate) == "\nBURN "@ + amount_text(
            candidate.raw_amount,
            candidate.decimals,
        ) + " token units ("@ + number_text(candidate.raw_amount as nat)
            + " base units) from mint "@ + address_text(candidate.mint) + ", ATA: "@
            + address_text(candidate.address),
        !candidate.must_burn() && candidate.raw_amount > 0 ==> candidate_line(candidate)
            == "\nUnwrap "@ + number_text(candidate.raw_amount as nat)
            + " native units from mint "@ + address_text(candidate.mint) + ", ATA: "@
            + address_text(candidate.address),
        candidate.raw_amount == 0 ==> candidate_line(candidate) == "\nMint: "@ + address_text(
            candidate.mint,
        ) + ", ATA: "@ + address_text(candidate.address) + " (empty)"@,
{
}

} // verus!
