//! Transfers of SOL and tokens: what is checked and asked before a transaction is made.
use vstd::prelude::*;
use vstd::string::*;

use crate::amount::{amount_of, amount_text, format_amount, parse_amount};
use crate::args::{option_value, Options};
use crate::error::Error;
use crate::instruction::{an_account_is_created_for_its_owner, associated_account, ata,
    create_ata_idempotent, create_ata_of, instruction_views,
    lamports_go_from_the_source_to_the_target, number_in, system_transfer, system_transfer_of,
    tokens_go_from_one_account_to_the_other, transfer_checked, transfer_checked_of, Instruction,
    InstructionView, ASSOCIATED_TOKEN, SYSTEM, TOKEN, TOKEN_2022};
use crate::json::Json;
use crate::pubkey::{address_of_text, address_text, program_address, Pubkey};
use crate::rpc::{account_info_call, account_info_in, account_info_result, address_call,
    balance_result, token_balance_in, token_balance_result, token_decimals_in,
    token_decimals_result, CallView, Rpc, RpcCall};
use crate::send::SpendAll;
use crate::signer::{ed25519_public_key, Keypair};
use crate::text::{has_suffix, number_of, same};
use crate::transaction::only_payer_signs;
use crate::vault::{Vault, VaultView, MAX_RECIPIENTS};

verus! {

// ---------------------------------------------------------------------------------------------
// What is needed next
// ---------------------------------------------------------------------------------------------
/// What is needed next.
pub enum NeedView {
    Call(CallView),
    Ready,
    Fail(Seq<char>),
}

/// What is needed next: the answer to a call, or nothing more, or it has failed.
pub enum Need {
    Call(RpcCall),
    Ready,
    Fail(Error),
}

impl View for Need {
    type V = NeedView;

    open spec fn view(&self) -> NeedView {
        match self {
            Need::Call(call) => NeedView::Call(call@),
            Need::Ready => NeedView::Ready,
            Need::Fail(error) => NeedView::Fail(error.text()),
        }
    }
}

// ---------------------------------------------------------------------------------------------
// Addresses
// ---------------------------------------------------------------------------------------------
/// The address that a recipient stands for: a wallet of the vault, or an address.
pub open spec fn target_of(vault: VaultView, value: Seq<char>) -> Result<Seq<u8>, Seq<char>> {
    match vault.account(value) {
        Some(account) => Ok(account.pubkey),
        None => address_of_text(value),
    }
}

/// The address that a recipient stands for: a wallet of the vault, or an address.
pub fn target_address(vault: &Vault, value: &str) -> (target: Result<Pubkey, Error>)
    ensures
        match target_of(vault@, value@) {
            Ok(key) => target matches Ok(t) && t@ == key,
            Err(message) => target matches Err(e) && e.text() == message,
        },
{
    match vault.account(value) {
        Ok(account) => Ok(account.pubkey),
        Err(_) => Pubkey::parse(value),
    }
}

/// The token program of a mint, by the answer about its account.
pub open spec fn mint_program_in(reply: Json) -> Result<Seq<u8>, Seq<char>> {
    match account_info_in(reply) {
        Err(error) => Err(error.text()),
        Ok(None) => Err(Error::MintMissing.text()),
        Ok(Some(info)) => match info.member_string("owner"@) {
            None => Err(Error::InvalidMintOwner.text()),
            Some(owner) => match address_of_text(owner) {
                Err(message) => Err(message),
                Ok(program) => if program != TOKEN@ && program != TOKEN_2022@ {
                    Err(Error::MintNotToken.text())
                } else {
                    Ok(program)
                },
            },
        },
    }
}

/// The token program of a mint, by the answer about its account.
pub fn mint_program(reply: &Json) -> (program: Result<Pubkey, Error>)
    ensures
        match mint_program_in(*reply) {
            Ok(key) => program matches Ok(p) && p@ == key,
            Err(message) => program matches Err(e) && e.text() == message,
        },
{
    let info = match account_info_result(reply) {
        Ok(Some(info)) => info,
        Ok(None) => return Err(Error::MintMissing),
        Err(error) => return Err(error),
    };
    let owner = match info.get_str("owner") {
        Some(owner) => owner,
        None => return Err(Error::InvalidMintOwner),
    };
    let program = match Pubkey::parse(owner) {
        Ok(program) => program,
        Err(error) => return Err(error),
    };
    if !program.same(&Pubkey { bytes: TOKEN }) && !program.same(&Pubkey { bytes: TOKEN_2022 }) {
        return Err(Error::MintNotToken);
    }
    Ok(program)
}

/// The warning before the first transfer to an address.
pub open spec fn first_transfer_warning(known: bool, target: Seq<u8>) -> Seq<char> {
    if known {
        ""@
    } else {
        "Warning: first transfer to "@ + address_text(target) + "\n"@
    }
}

/// The warning about a recipient without SOL.
pub open spec fn zero_balance_warning(balance: u64) -> Seq<char> {
    if balance == 0 {
        "Warning: recipient has zero SOL balance\n"@
    } else {
        ""@
    }
}

fn warn_first(known: bool, target: &Pubkey) -> (text: String)
    ensures
        text@ == first_transfer_warning(known, target@),
{
    if known {
        "".to_owned()
    } else {
        "Warning: first transfer to ".to_owned().concat(target.text().as_str()).concat("\n")
    }
}

fn warn_zero(balance: u64) -> (text: String)
    ensures
        text@ == zero_balance_warning(balance),
{
    if balance == 0 {
        "Warning: recipient has zero SOL balance\n".to_owned()
    } else {
        "".to_owned()
    }
}

/// The wallet and the key that a transfer comes from: the one that is named, or the first.
pub open spec fn source_of(vault: VaultView, wallet: Option<Seq<char>>) -> Result<
    (Seq<char>, Seq<u8>),
    Seq<char>,
> {
    if wallet is None && vault.accounts.len() == 0 {
        Err(Error::NoAccounts.text())
    } else {
        let name = match wallet {
            Some(name) => name,
            None => vault.accounts[0].name,
        };
        match vault.signing_secret(name) {
            Ok(secret) => Ok((name, secret)),
            Err(error) => Err(error.text()),
        }
    }
}

/// The wallet and the key that a command signs with: the one that is named, or the first.
pub fn source_wallet(vault: &Vault, wallet: Option<&str>) -> (source: Result<(String, Keypair), Error>)
    ensures
        match source_of(
            vault@,
            match wallet {
                Some(name) => Some(name@),
                None => None,
            },
        ) {
            Ok((name, secret)) => source matches Ok(s) && s.0@ == name && s.1@ == secret,
            Err(message) => source matches Err(e) && e.text() == message,
        },
{
    let name = match vault.name_or_first(wallet) {
        Ok(name) => name,
        Err(error) => return Err(error),
    };
    match vault.signer(name) {
        Ok(signer) => Ok((name.to_owned(), signer)),
        Err(error) => Err(error),
    }
}

// ---------------------------------------------------------------------------------------------
// Recipients
// ---------------------------------------------------------------------------------------------
/// The vault after a transfer to an address was sent: the address joins the known recipients if the
/// transfer was confirmed and the address was not known, as long as there is room.
pub open spec fn after_send(
    vault: VaultView,
    known: bool,
    target: Seq<u8>,
    confirmed: bool,
) -> VaultView {
    if confirmed && !known && !vault.recipients.contains(target) && vault.recipients.len()
        < MAX_RECIPIENTS {
        VaultView { recipients: vault.recipients.push(target), ..vault }
    } else {
        vault
    }
}

// ---------------------------------------------------------------------------------------------
// SOL
// ---------------------------------------------------------------------------------------------
/// A transfer of SOL.
pub struct TransferView {
    pub source_name: Seq<char>,
    pub secret: Seq<u8>,
    pub target: Seq<u8>,
    pub known: bool,
    /// The lamports to send; none for everything.
    pub lamports: Option<u64>,
}

/// The transfer that some options ask for, or the message that says what is wrong.
pub open spec fn transfer_of(vault: VaultView, options: Seq<(Seq<char>, Seq<char>)>) -> Result<
    TransferView,
    Seq<char>,
> {
    match source_of(vault, option_value(options, "wallet"@)) {
        Err(message) => Err(message),
        Ok((source_name, secret)) => match option_value(options, "to"@) {
            None => Err("missing --"@ + "to"@),
            Some(to) => match target_of(vault, to) {
                Err(message) => Err(message),
                Ok(target) => match option_value(options, "amount"@) {
                    None => Err("missing --"@ + "amount"@),
                    Some(amount) => {
                        let lamports = if amount == "ALL"@ {
                            Ok(None)
                        } else {
                            match amount_of(amount, 9) {
                                Err(error) => Err(error),
                                Ok(0) => Err(Error::AmountPositive),
                                Ok(n) => Ok(Some(n)),
                            }
                        };
                        match lamports {
                            Err(error) => Err(error.text()),
                            Ok(lamports) => if ed25519_public_key(secret) == target {
                                Err(Error::SameWallet.text())
                            } else {
                                Ok(
                                    TransferView {
                                        source_name,
                                        secret,
                                        target,
                                        known: vault.recipients.contains(target),
                                        lamports,
                                    },
                                )
                            },
                        }
                    },
                },
            },
        },
    }
}

/// A transfer of SOL.
pub struct Transfer {
    pub source_name: String,
    pub signer: Keypair,
    pub target: Pubkey,
    pub known: bool,
    /// The lamports to send; none for everything.
    pub lamports: Option<u64>,
    /// The balance of the source, once it is known.
    pub balance: Option<u64>,
    /// The recipient was looked at.
    pub looked: bool,
}

impl View for Transfer {
    type V = TransferView;

    open spec fn view(&self) -> TransferView {
        TransferView {
            source_name: self.source_name@,
            secret: self.signer@,
            target: self.target@,
            known: self.known,
            lamports: self.lamports,
        }
    }
}

impl TransferView {
    /// The source of the transfer.
    pub open spec fn source(self) -> Seq<u8> {
        ed25519_public_key(self.secret)
    }

    /// The instruction of the transfer. The amount of a transfer of everything is set later.
    pub open spec fn instruction(self) -> InstructionView {
        system_transfer_of(
            self.source(),
            self.target,
            match self.lamports {
                Some(n) => n,
                None => 0,
            },
        )
    }

    /// What the user sees of the transfer.
    pub open spec fn details(self) -> Seq<char> {
        "SOL transfer: "@ + (match self.lamports {
            Some(n) => amount_text(n, 9) + " SOL"@,
            None => "ALL"@,
        }) + "\nFrom: "@ + self.source_name + " ("@ + address_text(self.source()) + ")\nTo: "@
            + address_text(self.target)
    }
}

impl Transfer {
    /// The transfer that some options ask for.
    pub fn new(vault: &Vault, options: &Options) -> (transfer: Result<Transfer, Error>)
        ensures
            match transfer_of(vault@, options@) {
                Ok(t) => transfer matches Ok(r) && r@ == t && r.balance is None && !r.looked,
                Err(message) => transfer matches Err(e) && e.text() == message,
            },
    {
        let (source_name, signer) = match source_wallet(vault, options.get("wallet")) {
            Ok(source) => source,
            Err(error) => return Err(error),
        };
        let to = match options.required("to") {
            Ok(to) => to,
            Err(error) => return Err(error),
        };
        let target = match target_address(vault, to) {
            Ok(target) => target,
            Err(error) => return Err(error),
        };
        let amount = match options.required("amount") {
            Ok(amount) => amount,
            Err(error) => return Err(error),
        };
        let lamports: Option<u64> = if same(amount, "ALL") {
            None
        } else {
            match parse_amount(amount, 9) {
                Ok(n) => {
                    if n == 0 {
                        return Err(Error::AmountPositive);
                    }
                    Some(n)
                },
                Err(error) => return Err(error),
            }
        };
        if signer.pubkey().same(&target) {
            return Err(Error::SameWallet);
        }
        let known = vault.is_known_recipient(&target);
        Ok(Transfer { source_name, signer, target, known, lamports, balance: None, looked: false })
    }

    /// Begins: the recipient is looked at. A first transfer to an address is warned of.
    pub fn begin(&self) -> (step: (String, Need))
        ensures
            step.0@ == first_transfer_warning(self@.known, self@.target),
            step.1@ == NeedView::Call(address_call("getBalance"@, self@.target)),
    {
        (warn_first(self.known, &self.target), Need::Call(Rpc::balance(&self.target)))
    }

    /// Takes the answer to the last call. For a transfer of everything the own balance is needed.
    pub fn transfer(&mut self, reply: &Json) -> (step: (String, Need))
        ensures
            final(self)@ == old(self)@,
            match reply.member_unsigned("value"@) {
                None => step.0@ == ""@ && step.1@ == NeedView::Fail(Error::InvalidBalance.text())
                    && final(self).looked == old(self).looked && final(self).balance
                    == old(self).balance,
                Some(n) => if !old(self).looked {
                    &&& final(self).looked
                    &&& final(self).balance == old(self).balance
                    &&& step.0@ == zero_balance_warning(n)
                    &&& step.1@ == if old(self)@.lamports is None {
                        NeedView::Call(address_call("getBalance"@, old(self)@.source()))
                    } else {
                        NeedView::Ready
                    }
                } else {
                    &&& final(self).looked
                    &&& final(self).balance == Some(n)
                    &&& step.0@ == ""@
                    &&& step.1@ == NeedView::Ready
                },
            },
    {
        let n: u64 = match balance_result(reply) {
            Ok(n) => n,
            Err(error) => return ("".to_owned(), Need::Fail(error)),
        };
        if !self.looked {
            self.looked = true;
            let warning = warn_zero(n);
            if self.lamports.is_none() {
                let source = self.signer.pubkey();
                (warning, Need::Call(Rpc::balance(&source)))
            } else {
                (warning, Need::Ready)
            }
        } else {
            self.balance = Some(n);
            ("".to_owned(), Need::Ready)
        }
    }

    /// The instructions of the transfer.
    pub fn instructions(&self) -> (list: Vec<Instruction>)
        ensures
            instruction_views(list@) == seq![self@.instruction()],
            list@.len() == 1,
            list@[0]@.accounts[0].pubkey == ed25519_public_key(self@.secret),
            list@[0]@.accounts[1].pubkey == self@.target,
    {
        let lamports: u64 = match self.lamports {
            Some(n) => n,
            None => 0,
        };
        let mut list: Vec<Instruction> = Vec::with_capacity(1);
        list.push(system_transfer(&self.signer.pubkey(), &self.target, lamports));
        assert(instruction_views(list@) =~= seq![self@.instruction()]);
        assert(instruction_views(list@)[0] == list@[0]@);
        list
    }

    /// What the user sees of the transfer.
    pub fn details(&self) -> (text: String)
        ensures
            text@ == self@.details(),
    {
        let amount = match self.lamports {
            Some(n) => format_amount(n, 9).concat(" SOL"),
            None => "ALL".to_owned(),
        };
        "SOL transfer: ".to_owned().concat(amount.as_str()).concat("\nFrom: ").concat(
            self.source_name.as_str(),
        ).concat(" (").concat(self.signer.pubkey().text().as_str()).concat(")\nTo: ").concat(
            self.target.text().as_str(),
        )
    }

    /// The balance to be spent, for a transfer of everything.
    pub fn spend_all(&self) -> (all: Option<SpendAll>)
        ensures
            match (self.lamports, self.balance) {
                (None, Some(balance)) => all matches Some(a) && a.balance == balance && a.target@
                    == self@.target,
                _ => all is None,
            },
    {
        match (self.lamports, self.balance) {
            (None, Some(balance)) => Some(SpendAll { balance, target: self.target }),
            _ => None,
        }
    }

    /// Tells whether the recipient is to be remembered: the transfer was confirmed, and it was the
    /// first one to this address.
    pub fn remembers(&self, confirmed: bool) -> (yes: bool)
        ensures
            yes == (confirmed && !self@.known),
    {
        confirmed && !self.known
    }

    /// Takes whether the transfer was confirmed, and remembers the recipient in the vault as it is by
    /// then. Tells whether the vault is to be saved.
    pub fn sent(&self, vault: &mut Vault, confirmed: bool) -> (save: bool)
        ensures
            save == (confirmed && !self@.known && !old(vault)@.recipients.contains(self@.target)),
            final(vault)@ == after_send(old(vault)@, self@.known, self@.target, confirmed),
            final(vault)@.recipients == if save && old(vault)@.recipients.len() < MAX_RECIPIENTS {
                old(vault)@.recipients.push(self@.target)
            } else {
                old(vault)@.recipients
            },
            final(vault)@.masters == old(vault)@.masters,
            final(vault)@.accounts == old(vault)@.accounts,
            final(vault).source_bytes == old(vault).source_bytes,
            old(vault)@.wf() ==> final(vault)@.wf(),
    {
        if !self.remembers(confirmed) || vault.is_known_recipient(&self.target) {
            return false;
        }
        vault.remember_recipient(&self.target);
        true
    }
}

// ---------------------------------------------------------------------------------------------
// Tokens
// ---------------------------------------------------------------------------------------------
/// A transfer of tokens, as it was asked for.
pub struct TokenTransferView {
    pub source_name: Seq<char>,
    pub secret: Seq<u8>,
    pub mint: Seq<u8>,
    pub target: Seq<u8>,
    pub known: bool,
    pub amount: Option<Seq<char>>,
}

/// The transfer of tokens that some options ask for, or the message that says what is wrong.
pub open spec fn token_transfer_of(vault: VaultView, options: Seq<(Seq<char>, Seq<char>)>) -> Result<
    TokenTransferView,
    Seq<char>,
> {
    match source_of(vault, option_value(options, "wallet"@)) {
        Err(message) => Err(message),
        Ok((source_name, secret)) => match option_value(options, "mint"@) {
            None => Err("missing --"@ + "mint"@),
            Some(mint) => match address_of_text(mint) {
                Err(message) => Err(message),
                Ok(mint) => match option_value(options, "to"@) {
                    None => Err("missing --"@ + "to"@),
                    Some(to) => match target_of(vault, to) {
                        Err(message) => Err(message),
                        Ok(target) => if ed25519_public_key(secret) == target {
                            Err(Error::SameWallet.text())
                        } else {
                            Ok(
                                TokenTransferView {
                                    source_name,
                                    secret,
                                    mint,
                                    target,
                                    known: vault.recipients.contains(target),
                                    amount: option_value(options, "amount"@),
                                },
                            )
                        },
                    },
                },
            },
        },
    }
}

/// What is known of a transfer of tokens once the mint was looked at.
pub struct TokenTermsView {
    pub program: Seq<u8>,
    pub decimals: u8,
    pub amount: u64,
    pub source_ata: Seq<u8>,
    pub destination_ata: Seq<u8>,
}

/// How far a transfer of tokens is.
pub enum TokenStageView {
    Mint,
    Supply { program: Seq<u8> },
    SourceInfo { terms: TokenTermsView },
    SourceBalance { terms: TokenTermsView },
    Recipient { terms: TokenTermsView },
    Ready { terms: TokenTermsView },
    Over,
}

/// A step of a transfer of tokens: the stage, what to show, and what is needed.
pub struct TokenStepView {
    pub stage: TokenStageView,
    pub warning: Seq<char>,
    pub need: NeedView,
}

/// The transfer stops with a message.
pub open spec fn token_stop(message: Seq<char>) -> TokenStepView {
    TokenStepView { stage: TokenStageView::Over, warning: ""@, need: NeedView::Fail(message) }
}

/// The transfer goes on with a call.
pub open spec fn token_ask(stage: TokenStageView, warning: Seq<char>, call: CallView) -> TokenStepView {
    TokenStepView { stage, warning, need: NeedView::Call(call) }
}

impl TokenTransferView {
    /// The source of the transfer.
    pub open spec fn source(self) -> Seq<u8> {
        ed25519_public_key(self.secret)
    }

    /// The terms of the transfer, by the token program and the decimals of the mint.
    pub open spec fn terms(self, program: Seq<u8>, decimals: u8) -> Result<
        TokenTermsView,
        Seq<char>,
    > {
        match self.amount {
            None => Err("missing --"@ + "amount"@),
            Some(text) => match amount_of(text, decimals) {
                Err(error) => Err(error.text()),
                Ok(amount) => if amount == 0 {
                    Err(Error::AmountPositive.text())
                } else {
                    match associated_account(self.source(), self.mint, program) {
                        None => Err(Error::NoProgramAddress.text()),
                        Some(source_ata) => match associated_account(
                            self.target,
                            self.mint,
                            program,
                        ) {
                            None => Err(Error::NoProgramAddress.text()),
                            Some(destination_ata) => Ok(
                                TokenTermsView {
                                    program,
                                    decimals,
                                    amount,
                                    source_ata,
                                    destination_ata,
                                },
                            ),
                        },
                    }
                },
            },
        }
    }

    /// What follows a stage when the last call was answered.
    pub open spec fn after(self, stage: TokenStageView, reply: Json) -> TokenStepView {
        match stage {
            TokenStageView::Mint => match mint_program_in(reply) {
                Err(message) => token_stop(message),
                Ok(program) => token_ask(
                    TokenStageView::Supply { program },
                    ""@,
                    address_call("getTokenSupply"@, self.mint),
                ),
            },
            TokenStageView::Supply { program } => match token_decimals_in(reply) {
                Err(error) => token_stop(error.text()),
                Ok(decimals) => match self.terms(program, decimals) {
                    Err(message) => token_stop(message),
                    Ok(terms) => token_ask(
                        TokenStageView::SourceInfo { terms },
                        ""@,
                        account_info_call(terms.source_ata),
                    ),
                },
            },
            TokenStageView::SourceInfo { terms } => match account_info_in(reply) {
                Err(error) => token_stop(error.text()),
                Ok(None) => token_stop(Error::SourceAtaMissing.text()),
                Ok(Some(_)) => token_ask(
                    TokenStageView::SourceBalance { terms },
                    ""@,
                    address_call("getTokenAccountBalance"@, terms.source_ata),
                ),
            },
            TokenStageView::SourceBalance { terms } => match token_balance_in(reply) {
                Err(error) => token_stop(error.text()),
                Ok(balance) => if balance < terms.amount {
                    token_stop(Error::InsufficientTokens.text())
                } else {
                    token_ask(
                        TokenStageView::Recipient { terms },
                        first_transfer_warning(self.known, self.target),
                        address_call("getBalance"@, self.target),
                    )
                },
            },
            TokenStageView::Recipient { terms } => match reply.member_unsigned("value"@) {
                None => token_stop(Error::InvalidBalance.text()),
                Some(balance) => TokenStepView {
                    stage: TokenStageView::Ready { terms },
                    warning: zero_balance_warning(balance),
                    need: NeedView::Ready,
                },
            },
            _ => token_stop(""@),
        }
    }

    /// The instructions of the transfer, of which the first creates an account.
    pub open spec fn instructions(self, terms: TokenTermsView, created: Seq<u8>) -> Seq<
        InstructionView,
    > {
        seq![
            create_ata_of(self.source(), self.target, self.mint, terms.program, created),
            transfer_checked_of(
                terms.source_ata,
                self.mint,
                terms.destination_ata,
                self.source(),
                terms.amount,
                terms.decimals,
                terms.program,
            ),
        ]
    }

    /// What the user sees of the transfer.
    pub open spec fn details(self, terms: TokenTermsView) -> Seq<char> {
        "Token transfer: "@ + amount_text(terms.amount, terms.decimals) + " units\nMint: "@
            + address_text(self.mint) + "\nFrom: "@ + self.source_name + " ("@ + address_text(
            self.source(),
        ) + ")\nTo: "@ + address_text(self.target) + "\nDestination ATA: "@ + address_text(
            terms.destination_ata,
        ) + "\nMay fund recipient ATA rent"@
    }
}

/// What is known of a transfer of tokens once the mint was looked at.
#[derive(Clone, Copy)]
pub struct TokenTerms {
    pub program: Pubkey,
    pub decimals: u8,
    pub amount: u64,
    pub source_ata: Pubkey,
    pub destination_ata: Pubkey,
}

impl View for TokenTerms {
    type V = TokenTermsView;

    open spec fn view(&self) -> TokenTermsView {
        TokenTermsView {
            program: self.program@,
            decimals: self.decimals,
            amount: self.amount,
            source_ata: self.source_ata@,
            destination_ata: self.destination_ata@,
        }
    }
}

/// How far a transfer of tokens is: which answer it waits for.
pub enum TokenStage {
    Mint,
    Supply { program: Pubkey },
    SourceInfo { terms: TokenTerms },
    SourceBalance { terms: TokenTerms },
    Recipient { terms: TokenTerms },
    Ready { terms: TokenTerms },
    Over,
}

impl View for TokenStage {
    type V = TokenStageView;

    open spec fn view(&self) -> TokenStageView {
        match self {
            TokenStage::Mint => TokenStageView::Mint,
            TokenStage::Supply { program } => TokenStageView::Supply { program: program@ },
            TokenStage::SourceInfo { terms } => TokenStageView::SourceInfo { terms: terms@ },
            TokenStage::SourceBalance { terms } => TokenStageView::SourceBalance { terms: terms@ },
            TokenStage::Recipient { terms } => TokenStageView::Recipient { terms: terms@ },
            TokenStage::Ready { terms } => TokenStageView::Ready { terms: terms@ },
            TokenStage::Over => TokenStageView::Over,
        }
    }
}

/// A step of a transfer of tokens.
struct TokenStep {
    stage: TokenStage,
    warning: String,
    need: Need,
}

impl View for TokenStep {
    type V = TokenStepView;

    closed spec fn view(&self) -> TokenStepView {
        TokenStepView { stage: self.stage@, warning: self.warning@, need: self.need@ }
    }
}

fn token_fail(error: Error) -> (step: TokenStep)
    ensures
        step@ == token_stop(error.text()),
{
    TokenStep { stage: TokenStage::Over, warning: "".to_owned(), need: Need::Fail(error) }
}

fn token_call(stage: TokenStage, call: RpcCall) -> (step: TokenStep)
    ensures
        step@ == token_ask(stage@, ""@, call@),
{
    TokenStep { stage, warning: "".to_owned(), need: Need::Call(call) }
}

/// A transfer of tokens.
pub struct TokenTransfer {
    pub source_name: String,
    pub signer: Keypair,
    pub mint: Pubkey,
    pub target: Pubkey,
    pub known: bool,
    pub amount: Option<String>,
    pub stage: TokenStage,
}

impl View for TokenTransfer {
    type V = TokenTransferView;

    open spec fn view(&self) -> TokenTransferView {
        TokenTransferView {
            source_name: self.source_name@,
            secret: self.signer@,
            mint: self.mint@,
            target: self.target@,
            known: self.known,
            amount: match self.amount {
                Some(text) => Some(text@),
                None => None,
            },
        }
    }
}

impl TokenTransfer {
    /// The transfer of tokens that some options ask for.
    pub fn new(vault: &Vault, options: &Options) -> (transfer: Result<TokenTransfer, Error>)
        ensures
            match token_transfer_of(vault@, options@) {
                Ok(t) => transfer matches Ok(r) && r@ == t && r.stage is Mint,
                Err(message) => transfer matches Err(e) && e.text() == message,
            },
    {
        let (source_name, signer) = match source_wallet(vault, options.get("wallet")) {
            Ok(source) => source,
            Err(error) => return Err(error),
        };
        let mint = match options.required("mint") {
            Ok(mint) => mint,
            Err(error) => return Err(error),
        };
        let mint = match Pubkey::parse(mint) {
            Ok(mint) => mint,
            Err(error) => return Err(error),
        };
        let to = match options.required("to") {
            Ok(to) => to,
            Err(error) => return Err(error),
        };
        let target = match target_address(vault, to) {
            Ok(target) => target,
            Err(error) => return Err(error),
        };
        if signer.pubkey().same(&target) {
            return Err(Error::SameWallet);
        }
        let known = vault.is_known_recipient(&target);
        let amount = match options.get("amount") {
            Some(text) => Some(text.to_owned()),
            None => None,
        };
        Ok(
            TokenTransfer {
                source_name,
                signer,
                mint,
                target,
                known,
                amount,
                stage: TokenStage::Mint,
            },
        )
    }

    /// Begins: the mint is looked at.
    pub fn begin(&self) -> (need: Need)
        ensures
            need@ == NeedView::Call(account_info_call(self@.mint)),
    {
        Need::Call(Rpc::account_info(&self.mint))
    }

    /// The terms of the transfer.
    fn terms(&self, program: Pubkey, decimals: u8) -> (terms: Result<TokenTerms, Error>)
        ensures
            match self@.terms(program@, decimals) {
                Ok(t) => terms matches Ok(r) && r@ == t,
                Err(message) => terms matches Err(e) && e.text() == message,
            },
    {
        let amount: u64 = match &self.amount {
            Some(text) => match parse_amount(text.as_str(), decimals) {
                Ok(amount) => amount,
                Err(error) => return Err(error),
            },
            None => return Err(Error::MissingOption("amount".to_owned())),
        };
        if amount == 0 {
            return Err(Error::AmountPositive);
        }
        let source_ata = match ata(&self.signer.pubkey(), &self.mint, &program) {
            Ok(address) => address,
            Err(error) => return Err(error),
        };
        let destination_ata = match ata(&self.target, &self.mint, &program) {
            Ok(address) => address,
            Err(error) => return Err(error),
        };
        Ok(TokenTerms { program, decimals, amount, source_ata, destination_ata })
    }

    fn step(&self, reply: &Json) -> (step: TokenStep)
        requires
            !(self.stage is Ready),
            !(self.stage is Over),
        ensures
            step@ == self@.after(self.stage@, *reply),
    {
        match &self.stage {
            TokenStage::Mint => match mint_program(reply) {
                Ok(program) => token_call(
                    TokenStage::Supply { program },
                    Rpc::token_decimals(&self.mint),
                ),
                Err(error) => token_fail(error),
            },
            TokenStage::Supply { program } => {
                let decimals: u8 = match token_decimals_result(reply) {
                    Ok(decimals) => decimals,
                    Err(error) => return token_fail(error),
                };
                match self.terms(*program, decimals) {
                    Ok(terms) => token_call(
                        TokenStage::SourceInfo { terms },
                        Rpc::account_info(&terms.source_ata),
                    ),
                    Err(error) => token_fail(error),
                }
            },
            TokenStage::SourceInfo { terms } => match account_info_result(reply) {
                Ok(Some(_)) => token_call(
                    TokenStage::SourceBalance { terms: *terms },
                    Rpc::token_balance(&terms.source_ata),
                ),
                Ok(None) => token_fail(Error::SourceAtaMissing),
                Err(error) => token_fail(error),
            },
            TokenStage::SourceBalance { terms } => match token_balance_result(reply) {
                Ok(balance) => {
                    if balance < terms.amount {
                        token_fail(Error::InsufficientTokens)
                    } else {
                        TokenStep {
                            stage: TokenStage::Recipient { terms: *terms },
                            warning: warn_first(self.known, &self.target),
                            need: Need::Call(Rpc::balance(&self.target)),
                        }
                    }
                },
                Err(error) => token_fail(error),
            },
            TokenStage::Recipient { terms } => match balance_result(reply) {
                Ok(balance) => TokenStep {
                    stage: TokenStage::Ready { terms: *terms },
                    warning: warn_zero(balance),
                    need: Need::Ready,
                },
                Err(error) => token_fail(error),
            },
            _ => token_fail(Error::Outside("".to_owned())),
        }
    }

    /// Takes the answer to the last call.
    pub fn token_transfer(&mut self, reply: &Json) -> (step: (String, Need))
        requires
            !(old(self).stage is Ready),
            !(old(self).stage is Over),
        ensures
            final(self)@ == old(self)@,
            (TokenStepView { stage: final(self).stage@, warning: step.0@, need: step.1@ })
                == old(self)@.after(old(self).stage@, *reply),
    {
        let TokenStep { stage, warning, need } = self.step(reply);
        self.stage = stage;
        (warning, need)
    }

    /// The instructions of the transfer, once its terms are known.
    pub fn instructions(&self, terms: &TokenTerms) -> (list: Result<Vec<Instruction>, Error>)
        ensures
            match associated_account(self@.target, self@.mint, terms@.program) {
                Some(created) => list matches Ok(l) && instruction_views(l@) == self@.instructions(
                    terms@,
                    created,
                ),
                None => list == Err::<Vec<Instruction>, Error>(Error::NoProgramAddress),
            },
            list matches Ok(l) ==> {
                &&& l@.len() == 2
                &&& Some(l@[0]@.accounts[1].pubkey) == associated_account(
                    self@.target,
                    self@.mint,
                    terms@.program,
                )
                &&& l@[1]@.accounts[0].pubkey == terms@.source_ata
                &&& l@[1]@.accounts[2].pubkey == terms@.destination_ata
            },
    {
        let source = self.signer.pubkey();
        let create = match create_ata_idempotent(
            &source,
            &self.target,
            &self.mint,
            &terms.program,
        ) {
            Ok(create) => create,
            Err(error) => return Err(error),
        };
        let mut list: Vec<Instruction> = Vec::with_capacity(2);
        list.push(create);
        list.push(
            transfer_checked(
                &terms.source_ata,
                &self.mint,
                &terms.destination_ata,
                &source,
                terms.amount,
                terms.decimals,
                terms.program,
            ),
        );
        proof {
            let created = associated_account(self@.target, self@.mint, terms@.program)->Some_0;
            assert(instruction_views(list@) =~= self@.instructions(terms@, created));
            assert(instruction_views(list@)[0] == list@[0]@);
            assert(instruction_views(list@)[1] == list@[1]@);
        }
        Ok(list)
    }

    /// What the user sees of the transfer.
    pub fn details(&self, terms: &TokenTerms) -> (text: String)
        ensures
            text@ == self@.details(terms@),
    {
        "Token transfer: ".to_owned().concat(
            format_amount(terms.amount, terms.decimals).as_str(),
        ).concat(" units\nMint: ").concat(self.mint.text().as_str()).concat("\nFrom: ").concat(
            self.source_name.as_str(),
        ).concat(" (").concat(self.signer.pubkey().text().as_str()).concat(")\nTo: ").concat(
            self.target.text().as_str(),
        ).concat("\nDestination ATA: ").concat(terms.destination_ata.text().as_str()).concat(
            "\nMay fund recipient ATA rent",
        )
    }

    /// Tells whether the recipient is to be remembered: the transfer was confirmed, and it was the
    /// first one to this address.
    pub fn remembers(&self, confirmed: bool) -> (yes: bool)
        ensures
            yes == (confirmed && !self@.known),
    {
        confirmed && !self.known
    }

    /// Takes whether the transfer was confirmed, and remembers the recipient in the vault as it is by
    /// then. Tells whether the vault is to be saved.
    pub fn sent(&self, vault: &mut Vault, confirmed: bool) -> (save: bool)
        ensures
            save == (confirmed && !self@.known && !old(vault)@.recipients.contains(self@.target)),
            final(vault)@ == after_send(old(vault)@, self@.known, self@.target, confirmed),
            final(vault)@.recipients == if save && old(vault)@.recipients.len() < MAX_RECIPIENTS {
                old(vault)@.recipients.push(self@.target)
            } else {
                old(vault)@.recipients
            },
            final(vault)@.masters == old(vault)@.masters,
            final(vault)@.accounts == old(vault)@.accounts,
            final(vault).source_bytes == old(vault).source_bytes,
            old(vault)@.wf() ==> final(vault)@.wf(),
    {
        if !self.remembers(confirmed) || vault.is_known_recipient(&self.target) {
            return false;
        }
        vault.remember_recipient(&self.target);
        true
    }
}

// ---------------------------------------------------------------------------------------------
// Laws
// ---------------------------------------------------------------------------------------------
/// A transfer of tokens that is ready moves a positive amount that the source has, between the
/// associated accounts of two wallets for the mint, under a token program.
pub proof fn ready_token_transfer(transfer: TokenTransferView, stage: TokenStageView, reply: Json)
    ensures
        transfer.after(stage, reply).stage matches TokenStageView::SourceInfo { terms } ==> {
            &&& terms.amount > 0
            &&& associated_account(transfer.source(), transfer.mint, terms.program) == Some(
                terms.source_ata,
            )
            &&& associated_account(transfer.target, transfer.mint, terms.program) == Some(
                terms.destination_ata,
            )
        },
        transfer.after(stage, reply).stage matches TokenStageView::Recipient { terms } ==> stage
            == (TokenStageView::SourceBalance { terms }) && (token_balance_in(reply) matches Ok(
            balance,
        ) && balance >= terms.amount),
        transfer.after(stage, reply).stage matches TokenStageView::Ready { terms } ==> stage == (
        TokenStageView::Recipient { terms }),
{
}

/// A transfer takes no signature but the source's.
pub proof fn transfers_are_signed_by_the_source(
    transfer: TransferView,
    tokens: TokenTransferView,
    terms: TokenTermsView,
    created: Seq<u8>,
)
    ensures
        only_payer_signs(transfer.source(), seq![transfer.instruction()]),
        only_payer_signs(tokens.source(), tokens.instructions(terms, created)),
{
}

/// Only a confirmed transfer makes an address known, and only its own recipient: all other
/// recipients stay as they were.
pub proof fn only_confirmed_recipients_are_remembered(
    vault: VaultView,
    known: bool,
    target: Seq<u8>,
    confirmed: bool,
    other: Seq<u8>,
)
    ensures
        !confirmed ==> after_send(vault, known, target, confirmed) == vault,
        vault.recipients.contains(other) ==> after_send(
            vault,
            known,
            target,
            confirmed,
        ).recipients.contains(other),
        after_send(vault, known, target, confirmed).recipients.contains(other)
            ==> vault.recipients.contains(other) || (confirmed && other == target),
{
    let before = vault.recipients;
    let after = before.push(target);
    if before.contains(other) {
        let i = choose|i: int| 0 <= i < before.len() && before[i] == other;
        assert(after[i] == other);
    }
    if after.contains(other) && other != target {
        let i = choose|i: int| 0 <= i < after.len() && after[i] == other;
        assert(before[i] == other);
    }
}

/// No transfer goes from a wallet to itself, and none moves nothing.
pub proof fn transfers_move_something(vault: VaultView, options: Seq<(Seq<char>, Seq<char>)>)
    ensures
        transfer_of(vault, options) matches Ok(t) ==> t.source() != t.target && t.lamports != Some(
            0u64,
        ),
        token_transfer_of(vault, options) matches Ok(t) ==> t.source() != t.target,
{
}

/// A wallet that signs is the one that is named, or the first where none is, and its key belongs to
/// its address.
pub proof fn the_named_wallet_signs(vault: VaultView, wallet: Option<Seq<char>>)
    ensures
        source_of(vault, wallet) matches Ok((name, secret)) ==> {
            &&& wallet matches Some(wanted) ==> name == wanted
            &&& wallet is None ==> vault.accounts.len() > 0 && name == vault.accounts[0].name
            &&& vault.account(name) is Some
            &&& vault.account(name)->Some_0.pubkey == ed25519_public_key(secret)
            &&& vault.signing_secret(name) == Ok::<Seq<u8>, Error>(secret)
        },
        wallet matches Some(wanted) ==> (vault.signing_secret(wanted) is Ok ==> source_of(
            vault,
            wallet,
        ) is Ok),
        wallet is None && vault.accounts.len() > 0 && vault.signing_secret(
            vault.accounts[0].name,
        ) is Ok ==> source_of(vault, wallet) is Ok,
{
}

/// A recipient is the wallet with that name or, where there is none, the address that is written.
pub proof fn recipients_are_wallets_or_addresses(vault: VaultView, value: Seq<char>)
    ensures
        vault.account(value) matches Some(a) ==> target_of(vault, value) == Ok::<
            Seq<u8>,
            Seq<char>,
        >(a.pubkey),
        vault.account(value) is None ==> target_of(vault, value) == address_of_text(value),
{
}

/// A transfer does what was asked for: the wallet that is named, or the first, pays the recipient,
/// who is another one, the amount that is written, in an instruction to the system program whose
/// first account is the payer, who signs, and whose second account is the recipient.
pub proof fn a_transfer_pays_the_recipient(
    vault: VaultView,
    options: Seq<(Seq<char>, Seq<char>)>,
)
    requires
        transfer_of(vault, options) is Ok,
    ensures
        ({
            let t = transfer_of(vault, options)->Ok_0;
            let i = t.instruction();
            let to = option_value(options, "to"@);
            let amount = option_value(options, "amount"@);
            &&& to is Some && amount is Some
            &&& option_value(options, "wallet"@) matches Some(name) ==> t.source_name == name
            &&& option_value(options, "wallet"@) is None ==> t.source_name
                == vault.accounts[0].name
            &&& vault.account(t.source_name) is Some
            &&& vault.account(to->Some_0) matches Some(b) ==> t.target == b.pubkey
            &&& vault.account(to->Some_0) is None ==> address_of_text(to->Some_0) == Ok::<
                Seq<u8>,
                Seq<char>,
            >(t.target)
            &&& t.known == vault.recipients.contains(t.target)
            &&& amount->Some_0 == "ALL"@ <==> t.lamports is None
            &&& t.lamports matches Some(n) ==> n > 0 && amount_of(amount->Some_0, 9) == Ok::<
                u64,
                Error,
            >(n)
            &&& i.program_id == SYSTEM@
            &&& i.accounts.len() == 2
            &&& i.accounts[0].pubkey == vault.account(t.source_name)->Some_0.pubkey
            &&& i.accounts[0].pubkey == ed25519_public_key(t.secret)
            &&& i.accounts[0].is_signer && !i.accounts[1].is_signer
            &&& Ok::<Seq<u8>, Seq<char>>(i.accounts[1].pubkey) == target_of(vault, to->Some_0)
            &&& i.accounts[1].pubkey != i.accounts[0].pubkey
            &&& i.accounts[0].is_writable && i.accounts[1].is_writable
            &&& i.data.len() == 12
            &&& number_in(i.data.take(4)) == 2
            &&& t.lamports matches Some(n) ==> number_in(i.data.skip(4)) == n
        }),
{
    let t = transfer_of(vault, options)->Ok_0;
    let lamports = match t.lamports {
        Some(n) => n,
        None => 0,
    };
    lamports_go_from_the_source_to_the_target(ed25519_public_key(t.secret), t.target, lamports);
}

/// Every transfer pays its target, whatever it was made from, and what the user sees ends with the
/// address that is paid.
pub proof fn every_transfer_pays_its_target(transfer: TransferView, n: u64)
    requires
        transfer.lamports == Some(n),
    ensures
        ({
            let i = transfer.instruction();
            &&& i.program_id == SYSTEM@
            &&& i.accounts.len() == 2
            &&& i.accounts[0].pubkey == ed25519_public_key(transfer.secret)
            &&& i.accounts[1].pubkey == transfer.target
            &&& i.data.len() == 12
            &&& number_in(i.data.take(4)) == 2
            &&& number_in(i.data.skip(4)) == n
            &&& has_suffix(transfer.details(), address_text(i.accounts[1].pubkey))
        }),
{
    lamports_go_from_the_source_to_the_target(
        ed25519_public_key(transfer.secret),
        transfer.target,
        n,
    );
    let shown = address_text(transfer.target);
    let details = transfer.details();
    assert(details.subrange(details.len() - shown.len(), details.len() as int) =~= shown);
}

/// Every transfer that can be made is made: a wallet that signs, a recipient who is another one, and
/// a positive amount or the word for everything are all that it takes.
pub proof fn transfers_that_can_be_made_are_made(
    vault: VaultView,
    options: Seq<(Seq<char>, Seq<char>)>,
    target: Seq<u8>,
)
    requires
        source_of(vault, option_value(options, "wallet"@)) is Ok,
        option_value(options, "to"@) is Some,
        target_of(vault, option_value(options, "to"@)->Some_0) == Ok::<Seq<u8>, Seq<char>>(target),
        target != ed25519_public_key(source_of(vault, option_value(options, "wallet"@))->Ok_0.1),
        option_value(options, "amount"@) is Some,
        option_value(options, "amount"@)->Some_0 == "ALL"@ || (amount_of(
            option_value(options, "amount"@)->Some_0,
            9,
        ) is Ok && amount_of(option_value(options, "amount"@)->Some_0, 9) != Ok::<u64, Error>(0)),
    ensures
        transfer_of(vault, options) is Ok,
        transfer_of(vault, options)->Ok_0.target == target,
{
}

/// A transfer of tokens is asked for by a wallet that signs, of the mint that is written, to the
/// recipient that is written, who is another one.
pub proof fn a_token_transfer_is_what_was_asked_for(
    vault: VaultView,
    options: Seq<(Seq<char>, Seq<char>)>,
)
    requires
        token_transfer_of(vault, options) is Ok,
    ensures
        ({
            let t = token_transfer_of(vault, options)->Ok_0;
            let to = option_value(options, "to"@);
            &&& to is Some && option_value(options, "mint"@) is Some
            &&& option_value(options, "wallet"@) matches Some(name) ==> t.source_name == name
            &&& option_value(options, "wallet"@) is None ==> t.source_name
                == vault.accounts[0].name
            &&& vault.account(t.source_name) is Some
            &&& vault.account(t.source_name)->Some_0.pubkey == ed25519_public_key(t.secret)
            &&& address_of_text(option_value(options, "mint"@)->Some_0) == Ok::<
                Seq<u8>,
                Seq<char>,
            >(t.mint)
            &&& vault.account(to->Some_0) matches Some(b) ==> t.target == b.pubkey
            &&& vault.account(to->Some_0) is None ==> address_of_text(to->Some_0) == Ok::<
                Seq<u8>,
                Seq<char>,
            >(t.target)
            &&& t.target != ed25519_public_key(t.secret)
            &&& t.known == vault.recipients.contains(t.target)
            &&& t.amount == option_value(options, "amount"@)
        }),
{
}

/// The terms of a transfer of tokens: the amount that is written, in units of the mint, from the
/// associated account of the source to the associated account of the target.
pub proof fn token_terms_are_what_was_asked_for(
    transfer: TokenTransferView,
    program: Seq<u8>,
    decimals: u8,
)
    requires
        transfer.terms(program, decimals) is Ok,
    ensures
        ({
            let terms = transfer.terms(program, decimals)->Ok_0;
            let source = ed25519_public_key(transfer.secret);
            &&& terms.program == program
            &&& terms.decimals == decimals
            &&& transfer.amount is Some
            &&& amount_of(transfer.amount->Some_0, decimals) == Ok::<u64, Error>(terms.amount)
            &&& terms.amount > 0
            &&& program_address(seq![source, program, transfer.mint], ASSOCIATED_TOKEN@) == Some(
                terms.source_ata,
            )
            &&& program_address(seq![transfer.target, program, transfer.mint], ASSOCIATED_TOKEN@)
                == Some(terms.destination_ata)
        }),
{
}

/// A transfer of tokens under its terms creates the recipient's account and pays into that account,
/// from the account of the source, under the signature of the source alone.
pub proof fn a_token_transfer_pays_the_recipient(
    transfer: TokenTransferView,
    program: Seq<u8>,
    decimals: u8,
    created: Seq<u8>,
)
    requires
        transfer.terms(program, decimals) is Ok,
        associated_account(transfer.target, transfer.mint, program) == Some(created),
    ensures
        ({
            let source = ed25519_public_key(transfer.secret);
            let terms = transfer.terms(program, decimals)->Ok_0;
            let list = transfer.instructions(terms, created);
            let create = list[0];
            let pay = list[1];
            &&& list.len() == 2
            &&& create.program_id == ASSOCIATED_TOKEN@
            &&& create.data == seq![1u8]
            &&& create.accounts.len() == 6
            &&& create.accounts[0].pubkey == source && create.accounts[0].is_signer
            &&& create.accounts[1].pubkey == created
            &&& create.accounts[2].pubkey == transfer.target
            &&& create.accounts[3].pubkey == transfer.mint
            &&& create.accounts[5].pubkey == program
            &&& pay.program_id == program
            &&& pay.accounts.len() == 4
            &&& Some(pay.accounts[0].pubkey) == associated_account(source, transfer.mint, program)
            &&& pay.accounts[1].pubkey == transfer.mint
            &&& Some(pay.accounts[2].pubkey) == associated_account(
                transfer.target,
                transfer.mint,
                program,
            )
            &&& pay.accounts[2].pubkey == create.accounts[1].pubkey
            &&& pay.accounts[3].pubkey == source && pay.accounts[3].is_signer
            &&& !pay.accounts[0].is_signer && !pay.accounts[1].is_signer
                && !pay.accounts[2].is_signer
            &&& pay.accounts[0].is_writable && pay.accounts[2].is_writable
            &&& pay.data.len() == 10
            &&& pay.data[0] == 12
            &&& transfer.amount is Some
            &&& amount_of(transfer.amount->Some_0, decimals) == Ok::<u64, Error>(
                number_in(pay.data.subrange(1, 9)) as u64,
            )
            &&& pay.data[9] == decimals
        }),
{
    let source = ed25519_public_key(transfer.secret);
    let terms = transfer.terms(program, decimals)->Ok_0;
    tokens_go_from_one_account_to_the_other(
        terms.source_ata,
        transfer.mint,
        terms.destination_ata,
        source,
        terms.amount,
        decimals,
        program,
    );
    an_account_is_created_for_its_owner(source, transfer.target, transfer.mint, program, created);
}

/// Whatever its terms, a transfer of tokens moves their amount from the one account to the other,
/// and shows the account that it pays into.
pub proof fn every_token_transfer_keeps_its_terms(
    transfer: TokenTransferView,
    terms: TokenTermsView,
    created: Seq<u8>,
)
    ensures
        ({
            let source = ed25519_public_key(transfer.secret);
            let pay = transfer.instructions(terms, created)[1];
            &&& transfer.instructions(terms, created)[0].accounts[1].pubkey == created
            &&& transfer.instructions(terms, created)[0].accounts[2].pubkey == transfer.target
            &&& pay.program_id == terms.program
            &&& pay.accounts[0].pubkey == terms.source_ata
            &&& pay.accounts[1].pubkey == transfer.mint
            &&& pay.accounts[2].pubkey == terms.destination_ata
            &&& pay.accounts[3].pubkey == source && pay.accounts[3].is_signer
            &&& number_in(pay.data.subrange(1, 9)) == terms.amount
            &&& pay.data[9] == terms.decimals
            &&& has_suffix(
                transfer.details(terms),
                address_text(pay.accounts[2].pubkey) + "\nMay fund recipient ATA rent"@,
            )
        }),
{
    tokens_go_from_one_account_to_the_other(
        terms.source_ata,
        transfer.mint,
        terms.destination_ata,
        ed25519_public_key(transfer.secret),
        terms.amount,
        terms.decimals,
        terms.program,
    );
    let end = address_text(terms.destination_ata) + "\nMay fund recipient ATA rent"@;
    let details = transfer.details(terms);
    assert(details.subrange(details.len() - end.len(), details.len() as int) =~= end);
}

/// The program of a mint is the owner of its account, and one of the two token programs.
pub proof fn mints_belong_to_a_token_program(reply: Json)
    ensures
        mint_program_in(reply) matches Ok(program) ==> {
            &&& program == TOKEN@ || program == TOKEN_2022@
            &&& reply.member("value"@) is Some
            &&& reply.member("value"@)->Some_0.member_string("owner"@) is Some
            &&& address_of_text(reply.member("value"@)->Some_0.member_string("owner"@)->Some_0)
                == Ok::<Seq<u8>, Seq<char>>(program)
        },
{
}

/// A transfer of tokens goes on only with what the network says: the mint's program and decimals,
/// that the source's account exists, and that it holds enough. Each step asks about the account that
/// the next answer is read for.
pub proof fn token_transfers_follow_the_answers(
    transfer: TokenTransferView,
    stage: TokenStageView,
    reply: Json,
)
    ensures
        ({
            let after = transfer.after(stage, reply);
            &&& after.stage matches TokenStageView::Supply { program } ==> stage
                == TokenStageView::Mint && mint_program_in(reply) == Ok::<Seq<u8>, Seq<char>>(
                program,
            ) && after.need == NeedView::Call(address_call("getTokenSupply"@, transfer.mint))
            &&& after.stage matches TokenStageView::SourceInfo { terms } ==> {
                &&& stage == (TokenStageView::Supply { program: terms.program })
                &&& reply.unsigned_at(seq!["value"@, "decimals"@]) == Some(terms.decimals as u64)
                &&& transfer.terms(terms.program, terms.decimals) == Ok::<
                    TokenTermsView,
                    Seq<char>,
                >(terms)
                &&& after.need == NeedView::Call(account_info_call(terms.source_ata))
            }
            &&& after.stage matches TokenStageView::SourceBalance { terms } ==> {
                &&& stage == (TokenStageView::SourceInfo { terms })
                &&& reply.member("value"@) matches Some(value) && value.kind is Object
                &&& after.need == NeedView::Call(
                    address_call("getTokenAccountBalance"@, terms.source_ata),
                )
            }
            &&& after.stage matches TokenStageView::Recipient { terms } ==> {
                &&& stage == (TokenStageView::SourceBalance { terms })
                &&& reply.string_at(seq!["value"@, "amount"@]) is Some
                &&& number_of(
                    reply.string_at(seq!["value"@, "amount"@])->Some_0,
                    u64::MAX,
                ) matches Ok(balance) && balance >= terms.amount
                &&& after.need == NeedView::Call(address_call("getBalance"@, transfer.target))
                &&& after.warning == if transfer.known {
                    ""@
                } else {
                    "Warning: first transfer to "@ + address_text(transfer.target) + "\n"@
                }
            }
            &&& after.need is Ready <==> after.stage is Ready
            &&& after.stage is Ready ==> (reply.member_unsigned("value"@) matches Some(n)
                && after.warning == if n == 0 {
                "Warning: recipient has zero SOL balance\n"@
            } else {
                ""@
            })
        }),
{
}

/// The warnings: one before the first transfer to an address, one about a recipient without SOL.
pub proof fn warnings_are_given_when_due(known: bool, target: Seq<u8>, balance: u64)
    ensures
        known ==> first_transfer_warning(known, target).len() == 0,
        !known ==> first_transfer_warning(known, target) == "Warning: first transfer to "@
            + address_text(target) + "\n"@,
        balance > 0 ==> zero_balance_warning(balance).len() == 0,
        balance == 0 ==> zero_balance_warning(balance)
            == "Warning: recipient has zero SOL balance\n"@,
{
    reveal_strlit("");
}

} // verus!
