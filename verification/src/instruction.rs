//! Instructions of transactions.
use vstd::prelude::*;

use crate::codec::le32;
use crate::error::Error;
use crate::pubkey::{program_address, Pubkey};

verus! {

// ---------------------------------------------------------------------------------------------
// Addresses
// ---------------------------------------------------------------------------------------------
/// The system program: `11111111111111111111111111111111`.
pub const SYSTEM: [u8; 32] = [
    0, 0, 0, 0, 0, 0, 0, 0, 0, 0, 0, 0, 0, 0, 0, 0,
    0, 0, 0, 0, 0, 0, 0, 0, 0, 0, 0, 0, 0, 0, 0, 0,
];

/// The token program: `TokenkegQfeZyiNwAJbNbGKPFXCWuBvf9Ss623VQ5DA`.
pub const TOKEN: [u8; 32] = [
    6, 221, 246, 225, 215, 101, 161, 147, 217, 203, 225, 70, 206, 235, 121, 172,
    28, 180, 133, 237, 95, 91, 55, 145, 58, 140, 245, 133, 126, 255, 0, 169,
];

/// The token program of 2022: `TokenzQdBNbLqP5VEhdkAS6EPFLC1PHnBqCXEpPxuEb`.
pub const TOKEN_2022: [u8; 32] = [
    6, 221, 246, 225, 238, 117, 143, 222, 24, 66, 93, 188, 228, 108, 205, 218,
    182, 26, 252, 77, 131, 185, 13, 39, 254, 189, 249, 40, 216, 161, 139, 252,
];

/// The program of associated token accounts: `ATokenGPvbdGVxr1b2hvZbsiqW5xWH25efTNsLJA8knL`.
pub const ASSOCIATED_TOKEN: [u8; 32] = [
    140, 151, 37, 143, 78, 36, 137, 241, 187, 61, 16, 41, 20, 142, 13, 131,
    11, 90, 19, 153, 218, 255, 16, 132, 4, 142, 123, 216, 219, 233, 248, 89,
];

/// The compute budget program: `ComputeBudget111111111111111111111111111111`.
pub const COMPUTE_BUDGET: [u8; 32] = [
    3, 6, 70, 111, 229, 33, 23, 50, 255, 236, 173, 186, 114, 195, 155, 231,
    188, 140, 229, 187, 197, 247, 18, 107, 44, 67, 155, 58, 64, 0, 0, 0,
];

/// The mint of wrapped SOL: `So11111111111111111111111111111111111111112`.
pub const NATIVE_MINT: [u8; 32] = [
    6, 155, 136, 87, 254, 171, 129, 132, 251, 104, 127, 99, 70, 24, 192, 53,
    218, 196, 57, 220, 26, 235, 59, 85, 152, 160, 240, 0, 0, 0, 0, 1,
];

/// The mint of wrapped SOL under the token program of 2022: `9pan9bMn5HatX4EJdBwg9VgCa7Uz5HL8N1m5D3NdXejP`.
pub const NATIVE_MINT_2022: [u8; 32] = [
    131, 13, 252, 159, 222, 95, 230, 184, 170, 124, 4, 164, 118, 233, 30, 138,
    198, 187, 38, 74, 173, 144, 250, 25, 201, 223, 73, 216, 92, 62, 91, 94,
];

// ---------------------------------------------------------------------------------------------
// Instructions
// ---------------------------------------------------------------------------------------------
/// An account that an instruction reads or writes.
pub struct AccountMetaView {
    pub pubkey: Seq<u8>,
    pub is_signer: bool,
    pub is_writable: bool,
}

/// An instruction to a program.
pub struct InstructionView {
    pub program_id: Seq<u8>,
    pub accounts: Seq<AccountMetaView>,
    pub data: Seq<u8>,
}

/// An account that an instruction reads or writes.
#[derive(Clone, Copy, Debug, PartialEq, Eq)]
pub struct AccountMeta {
    pub pubkey: Pubkey,
    pub is_signer: bool,
    pub is_writable: bool,
}

impl View for AccountMeta {
    type V = AccountMetaView;

    open spec fn view(&self) -> AccountMetaView {
        AccountMetaView {
            pubkey: self.pubkey@,
            is_signer: self.is_signer,
            is_writable: self.is_writable,
        }
    }
}

/// An instruction to a program.
#[derive(Debug, PartialEq, Eq)]
pub struct Instruction {
    pub program_id: Pubkey,
    pub accounts: Vec<AccountMeta>,
    pub data: Vec<u8>,
}

/// The views of some accounts.
pub open spec fn meta_views(accounts: Seq<AccountMeta>) -> Seq<AccountMetaView> {
    accounts.map_values(|a: AccountMeta| a@)
}

impl View for Instruction {
    type V = InstructionView;

    open spec fn view(&self) -> InstructionView {
        InstructionView {
            program_id: self.program_id@,
            accounts: meta_views(self.accounts@),
            data: self.data@,
        }
    }
}

/// The views of some instructions.
pub open spec fn instruction_views(instructions: Seq<Instruction>) -> Seq<InstructionView> {
    instructions.map_values(|i: Instruction| i@)
}

/// An account that is written.
pub open spec fn writable(pubkey: Seq<u8>, is_signer: bool) -> AccountMetaView {
    AccountMetaView { pubkey, is_signer, is_writable: true }
}

/// An account that is only read.
pub open spec fn readonly(pubkey: Seq<u8>, is_signer: bool) -> AccountMetaView {
    AccountMetaView { pubkey, is_signer, is_writable: false }
}

impl AccountMeta {
    /// An account that is written.
    pub fn new(pubkey: Pubkey, is_signer: bool) -> (meta: Self)
        ensures
            meta@ == writable(pubkey@, is_signer),
    {
        AccountMeta { pubkey, is_signer, is_writable: true }
    }

    /// An account that is only read.
    pub fn new_readonly(pubkey: Pubkey, is_signer: bool) -> (meta: Self)
        ensures
            meta@ == readonly(pubkey@, is_signer),
    {
        AccountMeta { pubkey, is_signer, is_writable: false }
    }
}

impl Instruction {
    /// A copy of the instruction.
    pub fn copy(&self) -> (instruction: Instruction)
        ensures
            instruction@ == self@,
    {
        let mut accounts: Vec<AccountMeta> = Vec::with_capacity(self.accounts.len());
        accounts.extend_from_slice(self.accounts.as_slice());
        let mut data: Vec<u8> = Vec::with_capacity(self.data.len());
        data.extend_from_slice(self.data.as_slice());
        assert(meta_views(accounts@) =~= meta_views(self.accounts@));
        assert(data@ =~= self.data@);
        Instruction { program_id: self.program_id, accounts, data }
    }
}

/// A number in eight little-endian bytes.
pub open spec fn le64(n: u64) -> Seq<u8> {
    seq![
        (n % 0x100) as u8,
        (n / 0x100 % 0x100) as u8,
        (n / 0x1_0000 % 0x100) as u8,
        (n / 0x100_0000 % 0x100) as u8,
        (n / 0x1_0000_0000 % 0x100) as u8,
        (n / 0x100_0000_0000 % 0x100) as u8,
        (n / 0x1_0000_0000_0000 % 0x100) as u8,
        (n / 0x100_0000_0000_0000 % 0x100) as u8,
    ]
}

fn push_le64(data: &mut Vec<u8>, n: u64)
    ensures
        final(data)@ == old(data)@ + le64(n),
{
    data.push((n % 0x100) as u8);
    data.push((n / 0x100 % 0x100) as u8);
    data.push((n / 0x1_0000 % 0x100) as u8);
    data.push((n / 0x100_0000 % 0x100) as u8);
    data.push((n / 0x1_0000_0000 % 0x100) as u8);
    data.push((n / 0x100_0000_0000 % 0x100) as u8);
    data.push((n / 0x1_0000_0000_0000 % 0x100) as u8);
    data.push((n / 0x100_0000_0000_0000 % 0x100) as u8);
    assert(data@ =~= old(data)@ + le64(n));
}

fn push_le32(data: &mut Vec<u8>, n: u32)
    ensures
        final(data)@ == old(data)@ + le32(n),
{
    data.push((n % 256) as u8);
    data.push((n / 256 % 256) as u8);
    data.push((n / 65536 % 256) as u8);
    data.push((n / 16777216 % 256) as u8);
    assert(data@ =~= old(data)@ + le32(n));
}

// ---------------------------------------------------------------------------------------------
// SOL
// ---------------------------------------------------------------------------------------------
/// The system program moves lamports.
pub open spec fn system_transfer_of(source: Seq<u8>, target: Seq<u8>, lamports: u64) -> InstructionView {
    InstructionView {
        program_id: SYSTEM@,
        accounts: seq![writable(source, true), writable(target, false)],
        data: le32(2) + le64(lamports),
    }
}

/// The instruction that moves lamports.
pub fn system_transfer(source: &Pubkey, target: &Pubkey, lamports: u64) -> (instruction: Instruction)
    ensures
        instruction@ == system_transfer_of(source@, target@, lamports),
{
    let mut data: Vec<u8> = Vec::with_capacity(12);
    push_le32(&mut data, 2);
    push_le64(&mut data, lamports);
    let mut accounts: Vec<AccountMeta> = Vec::with_capacity(2);
    accounts.push(AccountMeta::new(*source, true));
    accounts.push(AccountMeta::new(*target, false));
    let instruction = Instruction { program_id: Pubkey { bytes: SYSTEM }, accounts, data };
    assert(instruction@.accounts =~= system_transfer_of(source@, target@, lamports).accounts);
    assert(instruction@.data =~= system_transfer_of(source@, target@, lamports).data);
    instruction
}

// ---------------------------------------------------------------------------------------------
// Tokens
// ---------------------------------------------------------------------------------------------
/// The associated token account of an owner for a mint, where there is one.
pub open spec fn associated_account(owner: Seq<u8>, mint: Seq<u8>, program: Seq<u8>) -> Option<
    Seq<u8>,
> {
    program_address(seq![owner, program, mint], ASSOCIATED_TOKEN@)
}

/// The associated token account of an owner for a mint.
pub fn ata(owner: &Pubkey, mint: &Pubkey, token_program: &Pubkey) -> (address: Result<Pubkey, Error>)
    ensures
        match associated_account(owner@, mint@, token_program@) {
            Some(bytes) => address matches Ok(a) && a@ == bytes,
            None => address == Err::<Pubkey, Error>(Error::NoProgramAddress),
        },
{
    Pubkey::find_program_address(owner, token_program, mint, &Pubkey { bytes: ASSOCIATED_TOKEN })
}

/// Creates an associated token account, unless it exists.
pub open spec fn create_ata_of(
    payer: Seq<u8>,
    owner: Seq<u8>,
    mint: Seq<u8>,
    token_program: Seq<u8>,
    account: Seq<u8>,
) -> InstructionView {
    InstructionView {
        program_id: ASSOCIATED_TOKEN@,
        accounts: seq![
            writable(payer, true),
            writable(account, false),
            readonly(owner, false),
            readonly(mint, false),
            readonly(SYSTEM@, false),
            readonly(token_program, false),
        ],
        data: seq![1u8],
    }
}

/// The instruction that creates an associated token account, unless it exists.
pub fn create_ata_idempotent(
    payer: &Pubkey,
    owner: &Pubkey,
    mint: &Pubkey,
    token_program: &Pubkey,
) -> (instruction: Result<Instruction, Error>)
    ensures
        match associated_account(owner@, mint@, token_program@) {
            Some(account) => instruction matches Ok(i) && i@ == create_ata_of(
                payer@,
                owner@,
                mint@,
                token_program@,
                account,
            ),
            None => instruction == Err::<Instruction, Error>(Error::NoProgramAddress),
        },
{
    let account = match ata(owner, mint, token_program) {
        Ok(account) => account,
        Err(error) => return Err(error),
    };
    let mut accounts: Vec<AccountMeta> = Vec::with_capacity(6);
    accounts.push(AccountMeta::new(*payer, true));
    accounts.push(AccountMeta::new(account, false));
    accounts.push(AccountMeta::new_readonly(*owner, false));
    accounts.push(AccountMeta::new_readonly(*mint, false));
    accounts.push(AccountMeta::new_readonly(Pubkey { bytes: SYSTEM }, false));
    accounts.push(AccountMeta::new_readonly(*token_program, false));
    let mut data: Vec<u8> = Vec::with_capacity(1);
    data.push(1);
    let instruction = Instruction { program_id: Pubkey { bytes: ASSOCIATED_TOKEN }, accounts, data };
    proof {
        let expected = create_ata_of(payer@, owner@, mint@, token_program@, account@);
        assert(instruction@.accounts =~= expected.accounts);
        assert(instruction@.data =~= expected.data);
    }
    Ok(instruction)
}

/// A token program moves tokens, after it has checked the decimals.
pub open spec fn transfer_checked_of(
    source: Seq<u8>,
    mint: Seq<u8>,
    destination: Seq<u8>,
    authority: Seq<u8>,
    amount: u64,
    decimals: u8,
    program: Seq<u8>,
) -> InstructionView {
    InstructionView {
        program_id: program,
        accounts: seq![
            writable(source, false),
            readonly(mint, false),
            writable(destination, false),
            readonly(authority, true),
        ],
        data: seq![12u8] + le64(amount) + seq![decimals],
    }
}

/// The instruction that moves tokens.
pub fn transfer_checked(
    source: &Pubkey,
    mint: &Pubkey,
    destination: &Pubkey,
    authority: &Pubkey,
    amount: u64,
    decimals: u8,
    program: Pubkey,
) -> (instruction: Instruction)
    ensures
        instruction@ == transfer_checked_of(
            source@,
            mint@,
            destination@,
            authority@,
            amount,
            decimals,
            program@,
        ),
{
    let mut data: Vec<u8> = Vec::with_capacity(10);
    data.push(12);
    push_le64(&mut data, amount);
    data.push(decimals);
    let mut accounts: Vec<AccountMeta> = Vec::with_capacity(4);
    accounts.push(AccountMeta::new(*source, false));
    accounts.push(AccountMeta::new_readonly(*mint, false));
    accounts.push(AccountMeta::new(*destination, false));
    accounts.push(AccountMeta::new_readonly(*authority, true));
    let instruction = Instruction { program_id: program, accounts, data };
    proof {
        let expected = transfer_checked_of(
            source@,
            mint@,
            destination@,
            authority@,
            amount,
            decimals,
            program@,
        );
        assert(instruction@.accounts =~= expected.accounts);
        assert(instruction@.data =~= expected.data);
    }
    instruction
}

/// A token program burns tokens, after it has checked the decimals.
pub open spec fn burn_checked_of(
    account: Seq<u8>,
    mint: Seq<u8>,
    authority: Seq<u8>,
    amount: u64,
    decimals: u8,
    program: Seq<u8>,
) -> InstructionView {
    InstructionView {
        program_id: program,
        accounts: seq![
            writable(account, false),
            writable(mint, false),
            readonly(authority, true),
        ],
        data: seq![15u8] + le64(amount) + seq![decimals],
    }
}

/// The instruction that burns tokens.
pub fn burn_checked(
    account: &Pubkey,
    mint: &Pubkey,
    authority: &Pubkey,
    amount: u64,
    decimals: u8,
    program: Pubkey,
) -> (instruction: Instruction)
    ensures
        instruction@ == burn_checked_of(
            account@,
            mint@,
            authority@,
            amount,
            decimals,
            program@,
        ),
{
    let mut data: Vec<u8> = Vec::with_capacity(10);
    data.push(15);
    push_le64(&mut data, amount);
    data.push(decimals);
    let mut accounts: Vec<AccountMeta> = Vec::with_capacity(3);
    accounts.push(AccountMeta::new(*account, false));
    accounts.push(AccountMeta::new(*mint, false));
    accounts.push(AccountMeta::new_readonly(*authority, true));
    let instruction = Instruction { program_id: program, accounts, data };
    proof {
        let expected = burn_checked_of(account@, mint@, authority@, amount, decimals, program@);
        assert(instruction@.accounts =~= expected.accounts);
        assert(instruction@.data =~= expected.data);
    }
    instruction
}

/// A token program closes a token account.
pub open spec fn close_of(account: Seq<u8>, authority: Seq<u8>, program: Seq<u8>) -> InstructionView {
    InstructionView {
        program_id: program,
        accounts: seq![
            writable(account, false),
            writable(authority, false),
            readonly(authority, true),
        ],
        data: seq![9u8],
    }
}

/// The instruction that closes a token account and gives its lamports to the owner.
pub fn close_token_account(account: &Pubkey, authority: &Pubkey, program: Pubkey) -> (instruction:
    Instruction)
    ensures
        instruction@ == close_of(account@, authority@, program@),
        closes(instruction@, account@, authority@, program@),
{
    let mut data: Vec<u8> = Vec::with_capacity(1);
    data.push(9);
    let mut accounts: Vec<AccountMeta> = Vec::with_capacity(3);
    accounts.push(AccountMeta::new(*account, false));
    accounts.push(AccountMeta::new(*authority, false));
    accounts.push(AccountMeta::new_readonly(*authority, true));
    let instruction = Instruction { program_id: program, accounts, data };
    proof {
        let expected = close_of(account@, authority@, program@);
        assert(instruction@.accounts =~= expected.accounts);
        assert(instruction@.data =~= expected.data);
    }
    instruction
}

// ---------------------------------------------------------------------------------------------
// Compute units
// ---------------------------------------------------------------------------------------------
/// The most compute units that a transaction can ask for.
pub const MAX_COMPUTE_UNITS: u32 = 1_400_000;

/// A transaction asks for compute units.
pub open spec fn compute_limit_of(limit: u32) -> InstructionView {
    InstructionView {
        program_id: COMPUTE_BUDGET@,
        accounts: Seq::empty(),
        data: seq![2u8] + le32(limit),
    }
}

/// The instruction that asks for compute units.
pub fn set_compute_unit_limit(limit: u32) -> (instruction: Instruction)
    ensures
        instruction@ == compute_limit_of(limit),
{
    let mut data: Vec<u8> = Vec::with_capacity(5);
    data.push(2);
    push_le32(&mut data, limit);
    let instruction = Instruction { program_id: Pubkey { bytes: COMPUTE_BUDGET }, accounts: Vec::new(), data };
    assert(instruction@.accounts =~= Seq::empty());
    assert(instruction@.data =~= compute_limit_of(limit).data);
    instruction
}

/// The compute units to ask for, when a simulation has used some: a margin of at least 1000 is
/// added, rounded up, and the sum is capped.
pub open spec fn compute_limit_for(used: u64, margin_percent: u8) -> Result<u32, Error> {
    if used == 0 || used > MAX_COMPUTE_UNITS {
        Err(Error::ComputeUsage)
    } else {
        let share = (used * margin_percent + 99) / 100;
        let margin = if share < 1000 {
            1000
        } else {
            share
        };
        if used + margin > MAX_COMPUTE_UNITS {
            Ok(MAX_COMPUTE_UNITS)
        } else {
            Ok((used + margin) as u32)
        }
    }
}

/// The compute units to ask for, when a simulation has used some.
pub fn tuned_compute_limit(used: u64, margin_percent: u8) -> (limit: Result<u32, Error>)
    ensures
        limit == compute_limit_for(used, margin_percent),
{
    if used == 0 || used > MAX_COMPUTE_UNITS as u64 {
        return Err(Error::ComputeUsage);
    }
    assert(used * margin_percent <= 1_400_000 * 255) by (nonlinear_arith)
        requires
            used <= 1_400_000,
            margin_percent <= 255,
    ;
    assert(used * margin_percent >= 0) by (nonlinear_arith);
    let share: u64 = (used * (margin_percent as u64) + 99) / 100;
    let margin: u64 = if share < 1000 {
        1000
    } else {
        share
    };
    let limit: u64 = used + margin;
    if limit > MAX_COMPUTE_UNITS as u64 {
        Ok(MAX_COMPUTE_UNITS)
    } else {
        Ok(limit as u32)
    }
}

/// A tuned limit covers what was used and does not exceed the cap.
pub proof fn tuned_limit_covers_usage(used: u64, margin_percent: u8)
    ensures
        compute_limit_for(used, margin_percent) is Ok <==> 1 <= used <= MAX_COMPUTE_UNITS,
        compute_limit_for(used, margin_percent) matches Ok(limit) ==> used <= limit
            <= MAX_COMPUTE_UNITS,
{
    if 1 <= used <= MAX_COMPUTE_UNITS {
        assert(used * margin_percent >= 0) by (nonlinear_arith);
    }
}

// ---------------------------------------------------------------------------------------------
// Laws
// ---------------------------------------------------------------------------------------------
/// The number that some bytes hold, the lowest byte first.
pub open spec fn number_in(bytes: Seq<u8>) -> nat
    decreases bytes.len(),
{
    if bytes.len() == 0 {
        0
    } else {
        bytes[0] as nat + 256 * number_in(bytes.skip(1))
    }
}

/// Four bytes hold the number that they were made of.
pub proof fn lemma_number_in_le32(n: u32)
    ensures
        le32(n).len() == 4,
        number_in(le32(n)) == n,
{
    let b = le32(n);
    let rest = b.skip(1).skip(1).skip(1).skip(1);
    assert(b.skip(1)[0] == b[1]);
    assert(b.skip(1).skip(1)[0] == b[2]);
    assert(b.skip(1).skip(1).skip(1)[0] == b[3]);
    assert(rest.len() == 0);
    reveal_with_fuel(number_in, 5);
    assert(number_in(b) == b[0] as nat + 256 * (b[1] as nat + 256 * (b[2] as nat + 256 * (
    b[3] as nat))));
    let q1 = n / 256;
    let q2 = q1 / 256;
    let q3 = q2 / 256;
    assert(n / 65536 == q2 && n / 16777216 == q3);
    assert(q3 % 256 == q3);
}

proof fn lemma_number_in_le64(n: u64)
    ensures
        le64(n).len() == 8,
        number_in(le64(n)) == n,
{
    let b = le64(n);
    reveal_with_fuel(number_in, 9);
    let b1 = b.skip(1);
    let b2 = b1.skip(1);
    let b3 = b2.skip(1);
    let b4 = b3.skip(1);
    let b5 = b4.skip(1);
    let b6 = b5.skip(1);
    let b7 = b6.skip(1);
    assert(b1[0] == b[1] && b2[0] == b[2] && b3[0] == b[3] && b4[0] == b[4]);
    assert(b5[0] == b[5] && b6[0] == b[6] && b7[0] == b[7]);
    assert(b7.skip(1).len() == 0);
    assert(number_in(b7) == b[7] as nat);
    assert(number_in(b6) == b[6] as nat + 256 * number_in(b7));
    assert(number_in(b5) == b[5] as nat + 256 * number_in(b6));
    assert(number_in(b4) == b[4] as nat + 256 * number_in(b5));
    assert(number_in(b3) == b[3] as nat + 256 * number_in(b4));
    assert(number_in(b2) == b[2] as nat + 256 * number_in(b3));
    assert(number_in(b1) == b[1] as nat + 256 * number_in(b2));
    let q1 = n / 0x100;
    let q2 = q1 / 0x100;
    let q3 = q2 / 0x100;
    let q4 = q3 / 0x100;
    let q5 = q4 / 0x100;
    let q6 = q5 / 0x100;
    let q7 = q6 / 0x100;
    assert(n / 0x1_0000 == q2);
    assert(n / 0x100_0000 == q3);
    assert(n / 0x1_0000_0000 == q4);
    assert(n / 0x100_0000_0000 == q5);
    assert(n / 0x1_0000_0000_0000 == q6);
    assert(n / 0x100_0000_0000_0000 == q7);
    assert(q7 % 0x100 == q7);
    assert(number_in(b7) == q7);
    assert(number_in(b6) == q6);
    assert(number_in(b5) == q5);
    assert(number_in(b4) == q4);
    assert(number_in(b3) == q3);
    assert(number_in(b2) == q2);
    assert(number_in(b1) == q1);
}

/// A transfer of lamports is asked of the system program: it takes them from the source, which
/// signs, gives them to the target, and names how many.
pub proof fn lamports_go_from_the_source_to_the_target(
    source: Seq<u8>,
    target: Seq<u8>,
    lamports: u64,
)
    ensures
        ({
            let i = system_transfer_of(source, target, lamports);
            &&& i.program_id == SYSTEM@
            &&& i.accounts.len() == 2
            &&& i.accounts[0].pubkey == source && i.accounts[0].is_signer
                && i.accounts[0].is_writable
            &&& i.accounts[1].pubkey == target && !i.accounts[1].is_signer
                && i.accounts[1].is_writable
            &&& i.data.len() == 12
            &&& number_in(i.data.take(4)) == 2
            &&& number_in(i.data.skip(4)) == lamports
        }),
{
    lemma_number_in_le32(2);
    lemma_number_in_le64(lamports);
    let i = system_transfer_of(source, target, lamports);
    assert(i.data.take(4) =~= le32(2));
    assert(i.data.skip(4) =~= le64(lamports));
}

/// A transfer of tokens takes them from one account to another, under the signature of the
/// authority alone, and names the mint, how many, and how many decimals the mint has.
pub proof fn tokens_go_from_one_account_to_the_other(
    source: Seq<u8>,
    mint: Seq<u8>,
    destination: Seq<u8>,
    authority: Seq<u8>,
    amount: u64,
    decimals: u8,
    program: Seq<u8>,
)
    ensures
        ({
            let i = transfer_checked_of(
                source,
                mint,
                destination,
                authority,
                amount,
                decimals,
                program,
            );
            &&& i.program_id == program
            &&& i.accounts.len() == 4
            &&& i.accounts[0].pubkey == source && !i.accounts[0].is_signer
                && i.accounts[0].is_writable
            &&& i.accounts[1].pubkey == mint && !i.accounts[1].is_signer
                && !i.accounts[1].is_writable
            &&& i.accounts[2].pubkey == destination && !i.accounts[2].is_signer
                && i.accounts[2].is_writable
            &&& i.accounts[3].pubkey == authority && i.accounts[3].is_signer
                && !i.accounts[3].is_writable
            &&& i.data.len() == 10
            &&& i.data[0] == 12
            &&& number_in(i.data.subrange(1, 9)) == amount
            &&& i.data[9] == decimals
        }),
{
    lemma_number_in_le64(amount);
    let i = transfer_checked_of(source, mint, destination, authority, amount, decimals, program);
    assert(i.data.subrange(1, 9) =~= le64(amount));
}

/// Burning takes tokens out of an account and out of their mint, both of which change, under the
/// signature of the authority alone, and names how many, and how many decimals the mint has.
pub proof fn tokens_are_burned_from_the_account(
    account: Seq<u8>,
    mint: Seq<u8>,
    authority: Seq<u8>,
    amount: u64,
    decimals: u8,
    program: Seq<u8>,
)
    ensures
        ({
            let i = burn_checked_of(account, mint, authority, amount, decimals, program);
            &&& i.program_id == program
            &&& i.accounts.len() == 3
            &&& i.accounts[0].pubkey == account && !i.accounts[0].is_signer
                && i.accounts[0].is_writable
            &&& i.accounts[1].pubkey == mint && !i.accounts[1].is_signer
                && i.accounts[1].is_writable
            &&& i.accounts[2].pubkey == authority && i.accounts[2].is_signer
                && !i.accounts[2].is_writable
            &&& i.data.len() == 10
            &&& i.data[0] == 15
            &&& number_in(i.data.subrange(1, 9)) == amount
            &&& i.data[9] == decimals
        }),
{
    lemma_number_in_le64(amount);
    let i = burn_checked_of(account, mint, authority, amount, decimals, program);
    assert(i.data.subrange(1, 9) =~= le64(amount));
}

/// An instruction that closes an account of an owner: the account is emptied, its lamports go to the
/// owner, and the owner alone signs.
pub open spec fn closes(
    instruction: InstructionView,
    account: Seq<u8>,
    owner: Seq<u8>,
    program: Seq<u8>,
) -> bool {
    &&& instruction.program_id == program
    &&& instruction.data == seq![9u8]
    &&& instruction.accounts.len() == 3
    &&& instruction.accounts[0].pubkey == account && instruction.accounts[0].is_writable
        && !instruction.accounts[0].is_signer
    &&& instruction.accounts[1].pubkey == owner && instruction.accounts[1].is_writable
        && !instruction.accounts[1].is_signer
    &&& instruction.accounts[2].pubkey == owner && instruction.accounts[2].is_signer
        && !instruction.accounts[2].is_writable
}

/// Closing an account gives its lamports to the owner, who is not the closed account.
pub proof fn lamports_of_a_closed_account_go_to_the_owner(
    account: Seq<u8>,
    owner: Seq<u8>,
    program: Seq<u8>,
)
    ensures
        closes(close_of(account, owner, program), account, owner, program),
        close_of(account, owner, program).accounts[1].pubkey == owner,
        account != owner ==> close_of(account, owner, program).accounts[1].pubkey != close_of(
            account,
            owner,
            program,
        ).accounts[0].pubkey,
{
}

/// Creating an associated account is asked of its program, paid for by the payer, who signs, and
/// names the account, its owner, the mint, the system program and the token program.
pub proof fn an_account_is_created_for_its_owner(
    payer: Seq<u8>,
    owner: Seq<u8>,
    mint: Seq<u8>,
    token_program: Seq<u8>,
    account: Seq<u8>,
)
    ensures
        ({
            let i = create_ata_of(payer, owner, mint, token_program, account);
            &&& i.program_id == ASSOCIATED_TOKEN@
            &&& i.data == seq![1u8]
            &&& i.accounts.len() == 6
            &&& i.accounts[0].pubkey == payer && i.accounts[0].is_signer
                && i.accounts[0].is_writable
            &&& i.accounts[1].pubkey == account && i.accounts[1].is_writable
            &&& i.accounts[2].pubkey == owner
            &&& i.accounts[3].pubkey == mint
            &&& i.accounts[4].pubkey == SYSTEM@
            &&& i.accounts[5].pubkey == token_program
            &&& forall|k: int|
                1 <= k < 6 ==> !(#[trigger] i.accounts[k]).is_signer && (k > 1
                    ==> !i.accounts[k].is_writable)
        }),
{
}

/// An associated account belongs to one owner, mint and token program, in the order in which its
/// program takes them.
pub proof fn associated_accounts_are_program_addresses(
    owner: Seq<u8>,
    mint: Seq<u8>,
    program: Seq<u8>,
    seeds: Seq<Seq<u8>>,
)
    requires
        seeds.len() == 3,
        seeds[0] == owner,
        seeds[1] == program,
        seeds[2] == mint,
    ensures
        associated_account(owner, mint, program) == program_address(seeds, ASSOCIATED_TOKEN@),
{
    assert(seeds =~= seq![owner, program, mint]);
}

/// The compute limit is asked of its program, with no accounts, and names how many units.
pub proof fn a_compute_limit_names_its_units(units: u32)
    ensures
        compute_limit_of(units).program_id == COMPUTE_BUDGET@,
        compute_limit_of(units).accounts.len() == 0,
        compute_limit_of(units).data.len() == 5,
        compute_limit_of(units).data[0] == 2,
        number_in(compute_limit_of(units).data.skip(1)) == units,
{
    lemma_number_in_le32(units);
    assert(compute_limit_of(units).data.skip(1) =~= le32(units));
}

/// A tuned limit leaves room: the wanted share of what was used, and at least a thousand units,
/// unless the cap is reached. It is no larger than that takes.
pub proof fn a_tuned_limit_leaves_room(used: u64, margin_percent: u8)
    requires
        1 <= used <= MAX_COMPUTE_UNITS,
    ensures
        ({
            let limit = compute_limit_for(used, margin_percent)->Ok_0;
            let room = limit - used;
            &&& limit < MAX_COMPUTE_UNITS ==> room >= 1000 && 100 * room >= used * margin_percent
            &&& room <= 1000 || 100 * (room - 1) < used * margin_percent
        }),
{
    let product = used * margin_percent;
    assert(product >= 0) by (nonlinear_arith)
        requires
            product == used * margin_percent,
    ;
}

} // verus!
