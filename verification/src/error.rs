//! What can go wrong, and how it is told to the user.
use vstd::prelude::*;
use vstd::string::*;

use crate::text::{decimal, number_text};

verus! {

/// Why an operation was refused or failed.
#[derive(Debug, PartialEq, Eq)]
pub enum Error {
    /// invalid keypair length
    InvalidKeypairLength,
    /// keypair public key does not match its secret key
    KeypairMismatch,
    /// password must not be empty
    EmptyPassword,
    /// vault already exists
    VaultExists,
    /// OS randomness unavailable
    NoRandomness,
    /// unsupported or corrupt vault
    CorruptVault,
    /// wrong password or vault authentication failed
    WrongPassword,
    /// vault encryption failed
    EncryptionFailed,
    /// vault must be a regular file smaller than 1 MiB
    VaultFile,
    /// vault permissions must be owner-only (chmod 600)
    VaultPermissions,
    /// vault grew beyond 1 MiB
    VaultGrew,
    /// vault directory must be owner-only (chmod 700)
    VaultDirectory,
    /// vault lock must be a regular file
    LockFile,
    /// vault is busy; retry
    VaultBusy,
    /// vault path needs a parent directory
    VaultParent,
    /// config path needs a parent directory
    ConfigParent,
    /// vault changed; reload and retry the local operation
    VaultChanged,
    /// unknown wallet
    UnknownWallet,
    /// vault has no accounts
    NoAccounts,
    /// recovery phrase is still used or this wallet has no recovery phrase
    PhraseInUse,
    /// master limit reached
    MasterLimit,
    /// no master wallet exists
    NoMaster,
    /// wallet name must be 1-32 ASCII letters, digits, _ or -
    InvalidWalletName,
    /// wallet name already exists
    WalletNameExists,
    /// account limit reached
    AccountLimit,
    /// invalid master reference
    InvalidMasterReference,
    /// imported private-key wallets have no stored recovery phrase
    NoRecoveryPhrase,
    /// vault account address mismatch
    AddressMismatch,
    /// vault limits exceeded
    VaultLimits,
    /// unsupported vault version
    UnsupportedVersion,
    /// too many masters in vault
    TooManyMasters,
    /// invalid master entropy size
    InvalidEntropySize,
    /// invalid next derivation index
    InvalidNextIndex,
    /// too many accounts in vault
    TooManyAccounts,
    /// invalid or duplicate account name
    InvalidAccountName,
    /// derivation counter would reuse an existing index
    IndexReused,
    /// invalid imported account
    InvalidImportedAccount,
    /// invalid account kind
    InvalidAccountKind,
    /// too many recipients in vault
    TooManyRecipients,
    /// trailing vault data
    TrailingData,
    /// Unable to find a viable program address bump seed
    NoProgramAddress,
    /// truncated vault
    Truncated,
    /// derivation index too large
    IndexTooLarge,
    /// cannot parse integer from empty string
    NumberEmpty,
    /// invalid digit found in string
    NumberDigit,
    /// number too large to fit in target type
    NumberTooLarge,
    /// out of range integral type conversion attempted
    OutOfRange,
    /// token precision exceeds u64 decimal range
    AmountPrecision,
    /// invalid amount
    AmountInvalid,
    /// invalid amount or too many decimal places
    AmountPlaces,
    /// amount overflow
    AmountOverflow,
    /// expected --option; use 'help'
    OptionExpected,
    /// unknown option
    UnknownOption,
    /// duplicate option
    DuplicateOption,
    /// missing option value
    MissingValue,
    /// unexpected arguments; use 'help'
    UnexpectedArguments,
    /// usage: solx export NAME (--private-key | --mnemonic)
    UsageExport,
    /// duplicate --wallet
    DuplicateWallet,
    /// --wallet needs a name
    WalletNeedsName,
    /// duplicate --all
    DuplicateAll,
    /// duplicate --burn
    DuplicateBurn,
    /// unknown close-ata option
    UnknownCloseOption,
    /// too many mint addresses
    TooManyMints,
    /// use --all or provide mint addresses
    CloseTarget,
    /// config is too large
    ConfigTooLarge,
    /// rpc.timeout_secs must be 1..=120
    RpcTimeout,
    /// history.limit must be 1..=100
    HistoryLimit,
    /// security.compute_unit_margin_percent must be 0..=100
    ComputeMargin,
    /// history.wallets supports at most 16 entries
    HistoryWallets,
    /// history.interval_secs must be at least 10
    HistoryInterval,
    /// too many aliases
    TooManyAliases,
    /// invalid command alias
    InvalidAlias,
    /// RPC must use HTTPS, except loopback HTTP
    RpcNotHttps,
    /// RPC URL must not contain credentials
    RpcCredentials,
    /// simulation returned invalid compute usage
    ComputeUsage,
    /// RPC is not configured in config.toml
    RpcNotConfigured,
    /// RPC URL has no host
    RpcNoHost,
    /// RPC response exceeds 2 MiB
    BodyTooLarge,
    /// RPC result missing
    RpcResultMissing,
    /// invalid getBalance response
    InvalidBalance,
    /// invalid getAccountInfo response
    InvalidAccountInfo,
    /// invalid token balance response
    InvalidTokenBalance,
    /// invalid token supply response
    InvalidTokenSupply,
    /// invalid getLatestBlockhash response
    InvalidBlockhash,
    /// RPC fee unavailable for transaction message
    FeeUnavailable,
    /// invalid signature history response
    InvalidHistory,
    /// RPC returned too many signatures
    TooManySignatures,
    /// invalid simulation response
    InvalidSimulation,
    /// simulation result is missing err field
    SimulationNoErr,
    /// invalid sendTransaction response
    InvalidSend,
    /// invalid transaction signature
    InvalidSignature,
    /// invalid signature status response
    InvalidStatus,
    /// invalid token account response
    InvalidTokenAccounts,
    /// too many token accounts in RPC response
    TooManyTokenAccounts,
    /// invalid token account address
    InvalidTokenAddress,
    /// token account has unexpected owner program
    TokenOwner,
    /// invalid parsed token account
    InvalidParsedToken,
    /// invalid token mint
    InvalidTokenMint,
    /// invalid raw token amount
    InvalidRawAmount,
    /// invalid token decimals
    InvalidTokenDecimals,
    /// invalid token amount
    InvalidTokenAmount,
    /// transaction exceeds 1232-byte packet limit
    PacketLimit,
    /// transaction must require only the selected fee payer's signature
    SignerMismatch,
    /// insufficient SOL to send ALL after the network fee
    InsufficientForAll,
    /// simulation omitted the fee payer's remaining balance
    NoPostBalance,
    /// source balance changed; ALL would leave SOL behind, retry the transfer
    AllLeavesRest,
    /// invalid instruction count
    NoInstructions,
    /// RPC simulation omitted compute units; cannot tune limit
    ProbeNoUnits,
    /// transaction fee changed while resolving ALL; retry the transfer
    FeeChanged,
    /// transaction cancelled
    Cancelled,
    /// signed transaction exceeds 1232-byte packet limit
    SignedPacketLimit,
    /// RPC returned a different transaction signature
    OtherSignature,
    /// one close instruction exceeds the transaction size limit
    CloseTooLarge,
    /// amount must be positive
    AmountPositive,
    /// cannot transfer to the same wallet
    SameWallet,
    /// mint account does not exist
    MintMissing,
    /// invalid mint owner
    InvalidMintOwner,
    /// mint is not owned by an SPL Token program
    MintNotToken,
    /// source associated token account does not exist
    SourceAtaMissing,
    /// insufficient token balance
    InsufficientTokens,
    /// duplicate mint address
    DuplicateMint,
    /// associated token account does not exist
    AtaMissing,
    /// associated token account has unexpected owner program
    AtaOwner,
    /// associated token account missing
    AtaGone,
    /// associated token account is not empty
    AtaNotEmpty,
    /// usage: solx init [NAME]
    UsageInit,
    /// invalid wallet name
    InvalidName,
    /// passwords do not match
    PasswordMismatch,
    /// password must be at least 12 characters
    PasswordShort,
    /// usage: solx new NAME [--new-master]
    UsageNew,
    /// usage: solx import NAME (--mnemonic | --base58 [KEY] | --keypair-file PATH)
    UsageImport,
    /// inline private keys are only accepted in the CLI shell; omit KEY for a hidden prompt
    InlineKey,
    /// base58 private key must decode to 32 or 64 bytes
    KeyLength,
    /// keypair file is too large
    KeypairFileTooLarge,
    /// keypair file must have 64 bytes
    KeypairFileLength,
    /// export cancelled
    ExportCancelled,
    /// usage: solx delete NAME
    UsageDelete,
    /// deletion cancelled
    DeletionCancelled,
    /// history limit must be 1..=100
    HistoryRange,
    /// terminal closed
    TerminalClosed,
    /// command line exceeds 4096 bytes
    LineTooLong,
    /// command line is not UTF-8
    LineNotUtf8,
    /// --config needs a path
    ConfigNeedsPath,
    /// soon; set mode = 'cli'
    UiSoon,
    /// later
    UiLater,
    /// Entropy of this many bytes makes no recovery phrase.
    EntropyLength(usize),
    /// Bytes that are not UTF-8: how many are valid, and how many follow that cannot be part of a
    /// character, or `None` where the input ends inside one.
    NotUtf8(usize, Option<usize>),
    /// An option that must be there is missing.
    MissingOption(String),
    /// The network refused a call: the method, and why.
    Rpc(String, String),
    /// A sent transaction failed, for this reason.
    TransactionFailed(String),
    /// A simulation that was shown under this label failed.
    SimulationFailed(String),
    /// A simulation failed: its label, and the reason.
    SimulationReason(String, String),
    /// It is not known whether the transaction with this signature was sent, for this reason.
    SendUnknown(String, String),
    /// There is no such command.
    UnknownCommand(String),
    /// The message of an outside library.
    Outside(String),
}

impl Error {
    /// The message for the user.
    pub open spec fn text(self) -> Seq<char> {
        match self {
            Error::InvalidKeypairLength => "invalid keypair length"@,
            Error::KeypairMismatch => "keypair public key does not match its secret key"@,
            Error::EmptyPassword => "password must not be empty"@,
            Error::VaultExists => "vault already exists"@,
            Error::NoRandomness => "OS randomness unavailable"@,
            Error::CorruptVault => "unsupported or corrupt vault"@,
            Error::WrongPassword => "wrong password or vault authentication failed"@,
            Error::EncryptionFailed => "vault encryption failed"@,
            Error::VaultFile => "vault must be a regular file smaller than 1 MiB"@,
            Error::VaultPermissions => "vault permissions must be owner-only (chmod 600)"@,
            Error::VaultGrew => "vault grew beyond 1 MiB"@,
            Error::VaultDirectory => "vault directory must be owner-only (chmod 700)"@,
            Error::LockFile => "vault lock must be a regular file"@,
            Error::VaultBusy => "vault is busy; retry"@,
            Error::VaultParent => "vault path needs a parent directory"@,
            Error::ConfigParent => "config path needs a parent directory"@,
            Error::VaultChanged => "vault changed; reload and retry the local operation"@,
            Error::UnknownWallet => "unknown wallet"@,
            Error::NoAccounts => "vault has no accounts"@,
            Error::PhraseInUse => "recovery phrase is still used or this wallet has no recovery phrase"@,
            Error::MasterLimit => "master limit reached"@,
            Error::NoMaster => "no master wallet exists"@,
            Error::InvalidWalletName => "wallet name must be 1-32 ASCII letters, digits, _ or -"@,
            Error::WalletNameExists => "wallet name already exists"@,
            Error::AccountLimit => "account limit reached"@,
            Error::InvalidMasterReference => "invalid master reference"@,
            Error::NoRecoveryPhrase => "imported private-key wallets have no stored recovery phrase"@,
            Error::AddressMismatch => "vault account address mismatch"@,
            Error::VaultLimits => "vault limits exceeded"@,
            Error::UnsupportedVersion => "unsupported vault version"@,
            Error::TooManyMasters => "too many masters in vault"@,
            Error::InvalidEntropySize => "invalid master entropy size"@,
            Error::InvalidNextIndex => "invalid next derivation index"@,
            Error::TooManyAccounts => "too many accounts in vault"@,
            Error::InvalidAccountName => "invalid or duplicate account name"@,
            Error::IndexReused => "derivation counter would reuse an existing index"@,
            Error::InvalidImportedAccount => "invalid imported account"@,
            Error::InvalidAccountKind => "invalid account kind"@,
            Error::TooManyRecipients => "too many recipients in vault"@,
            Error::TrailingData => "trailing vault data"@,
            Error::NoProgramAddress => "Unable to find a viable program address bump seed"@,
            Error::Truncated => "truncated vault"@,
            Error::IndexTooLarge => "derivation index too large"@,
            Error::NumberEmpty => "cannot parse integer from empty string"@,
            Error::NumberDigit => "invalid digit found in string"@,
            Error::NumberTooLarge => "number too large to fit in target type"@,
            Error::OutOfRange => "out of range integral type conversion attempted"@,
            Error::AmountPrecision => "token precision exceeds u64 decimal range"@,
            Error::AmountInvalid => "invalid amount"@,
            Error::AmountPlaces => "invalid amount or too many decimal places"@,
            Error::AmountOverflow => "amount overflow"@,
            Error::OptionExpected => "expected --option; use 'help'"@,
            Error::UnknownOption => "unknown option"@,
            Error::DuplicateOption => "duplicate option"@,
            Error::MissingValue => "missing option value"@,
            Error::UnexpectedArguments => "unexpected arguments; use 'help'"@,
            Error::UsageExport => "usage: solx export NAME (--private-key | --mnemonic)"@,
            Error::DuplicateWallet => "duplicate --wallet"@,
            Error::WalletNeedsName => "--wallet needs a name"@,
            Error::DuplicateAll => "duplicate --all"@,
            Error::DuplicateBurn => "duplicate --burn"@,
            Error::UnknownCloseOption => "unknown close-ata option"@,
            Error::TooManyMints => "too many mint addresses"@,
            Error::CloseTarget => "use --all or provide mint addresses"@,
            Error::ConfigTooLarge => "config is too large"@,
            Error::RpcTimeout => "rpc.timeout_secs must be 1..=120"@,
            Error::HistoryLimit => "history.limit must be 1..=100"@,
            Error::ComputeMargin => "security.compute_unit_margin_percent must be 0..=100"@,
            Error::HistoryWallets => "history.wallets supports at most 16 entries"@,
            Error::HistoryInterval => "history.interval_secs must be at least 10"@,
            Error::TooManyAliases => "too many aliases"@,
            Error::InvalidAlias => "invalid command alias"@,
            Error::RpcNotHttps => "RPC must use HTTPS, except loopback HTTP"@,
            Error::RpcCredentials => "RPC URL must not contain credentials"@,
            Error::ComputeUsage => "simulation returned invalid compute usage"@,
            Error::RpcNotConfigured => "RPC is not configured in config.toml"@,
            Error::RpcNoHost => "RPC URL has no host"@,
            Error::BodyTooLarge => "RPC response exceeds 2 MiB"@,
            Error::RpcResultMissing => "RPC result missing"@,
            Error::InvalidBalance => "invalid getBalance response"@,
            Error::InvalidAccountInfo => "invalid getAccountInfo response"@,
            Error::InvalidTokenBalance => "invalid token balance response"@,
            Error::InvalidTokenSupply => "invalid token supply response"@,
            Error::InvalidBlockhash => "invalid getLatestBlockhash response"@,
            Error::FeeUnavailable => "RPC fee unavailable for transaction message"@,
            Error::InvalidHistory => "invalid signature history response"@,
            Error::TooManySignatures => "RPC returned too many signatures"@,
            Error::InvalidSimulation => "invalid simulation response"@,
            Error::SimulationNoErr => "simulation result is missing err field"@,
            Error::InvalidSend => "invalid sendTransaction response"@,
            Error::InvalidSignature => "invalid transaction signature"@,
            Error::InvalidStatus => "invalid signature status response"@,
            Error::InvalidTokenAccounts => "invalid token account response"@,
            Error::TooManyTokenAccounts => "too many token accounts in RPC response"@,
            Error::InvalidTokenAddress => "invalid token account address"@,
            Error::TokenOwner => "token account has unexpected owner program"@,
            Error::InvalidParsedToken => "invalid parsed token account"@,
            Error::InvalidTokenMint => "invalid token mint"@,
            Error::InvalidRawAmount => "invalid raw token amount"@,
            Error::InvalidTokenDecimals => "invalid token decimals"@,
            Error::InvalidTokenAmount => "invalid token amount"@,
            Error::PacketLimit => "transaction exceeds 1232-byte packet limit"@,
            Error::SignerMismatch => "transaction must require only the selected fee payer's signature"@,
            Error::InsufficientForAll => "insufficient SOL to send ALL after the network fee"@,
            Error::NoPostBalance => "simulation omitted the fee payer's remaining balance"@,
            Error::AllLeavesRest => "source balance changed; ALL would leave SOL behind, retry the transfer"@,
            Error::NoInstructions => "invalid instruction count"@,
            Error::ProbeNoUnits => "RPC simulation omitted compute units; cannot tune limit"@,
            Error::FeeChanged => "transaction fee changed while resolving ALL; retry the transfer"@,
            Error::Cancelled => "transaction cancelled"@,
            Error::SignedPacketLimit => "signed transaction exceeds 1232-byte packet limit"@,
            Error::OtherSignature => "RPC returned a different transaction signature"@,
            Error::CloseTooLarge => "one close instruction exceeds the transaction size limit"@,
            Error::AmountPositive => "amount must be positive"@,
            Error::SameWallet => "cannot transfer to the same wallet"@,
            Error::MintMissing => "mint account does not exist"@,
            Error::InvalidMintOwner => "invalid mint owner"@,
            Error::MintNotToken => "mint is not owned by an SPL Token program"@,
            Error::SourceAtaMissing => "source associated token account does not exist"@,
            Error::InsufficientTokens => "insufficient token balance"@,
            Error::DuplicateMint => "duplicate mint address"@,
            Error::AtaMissing => "associated token account does not exist"@,
            Error::AtaOwner => "associated token account has unexpected owner program"@,
            Error::AtaGone => "associated token account missing"@,
            Error::AtaNotEmpty => "associated token account is not empty"@,
            Error::UsageInit => "usage: solx init [NAME]"@,
            Error::InvalidName => "invalid wallet name"@,
            Error::PasswordMismatch => "passwords do not match"@,
            Error::PasswordShort => "password must be at least 12 characters"@,
            Error::UsageNew => "usage: solx new NAME [--new-master]"@,
            Error::UsageImport => "usage: solx import NAME (--mnemonic | --base58 [KEY] | --keypair-file PATH)"@,
            Error::InlineKey => "inline private keys are only accepted in the CLI shell; omit KEY for a hidden prompt"@,
            Error::KeyLength => "base58 private key must decode to 32 or 64 bytes"@,
            Error::KeypairFileTooLarge => "keypair file is too large"@,
            Error::KeypairFileLength => "keypair file must have 64 bytes"@,
            Error::ExportCancelled => "export cancelled"@,
            Error::UsageDelete => "usage: solx delete NAME"@,
            Error::DeletionCancelled => "deletion cancelled"@,
            Error::HistoryRange => "history limit must be 1..=100"@,
            Error::TerminalClosed => "terminal closed"@,
            Error::LineTooLong => "command line exceeds 4096 bytes"@,
            Error::LineNotUtf8 => "command line is not UTF-8"@,
            Error::ConfigNeedsPath => "--config needs a path"@,
            Error::UiSoon => "soon; set mode = 'cli'"@,
            Error::UiLater => "later"@,
            Error::EntropyLength(n) =>
                "entropy was not between 128-256 bits or not a multiple of 32 bits: "@ + number_text(
                8 * n as nat,
            ) + " bits"@,
            Error::NotUtf8(valid, Some(n)) => "invalid utf-8 sequence of "@ + number_text(n as nat)
                + " bytes from index "@ + number_text(valid as nat),
            Error::NotUtf8(valid, None) => "incomplete utf-8 byte sequence from index "@
                + number_text(valid as nat),
            Error::MissingOption(name) => "missing --"@ + name@,
            Error::Rpc(method, reason) => "RPC "@ + method@ + ": "@ + reason@,
            Error::TransactionFailed(reason) => "transaction failed: "@ + reason@,
            Error::SimulationFailed(label) => label@ + " failed; transaction not sent"@,
            Error::SimulationReason(label, reason) => label@ + " failed: "@ + reason@,
            Error::SendUnknown(signature, reason) => "send outcome unknown; check signature "@
                + signature@ + " before retrying: "@ + reason@,
            Error::UnknownCommand(word) => "unknown command '"@ + word@ + "'; use 'help'"@,
            Error::Outside(message) => message@,
        }
    }

    /// The message for the user.
    pub fn message(&self) -> (message: String)
        ensures
            message@ == self.text(),
    {
        match self {
            Error::InvalidKeypairLength => "invalid keypair length".to_owned(),
            Error::KeypairMismatch => "keypair public key does not match its secret key".to_owned(),
            Error::EmptyPassword => "password must not be empty".to_owned(),
            Error::VaultExists => "vault already exists".to_owned(),
            Error::NoRandomness => "OS randomness unavailable".to_owned(),
            Error::CorruptVault => "unsupported or corrupt vault".to_owned(),
            Error::WrongPassword => "wrong password or vault authentication failed".to_owned(),
            Error::EncryptionFailed => "vault encryption failed".to_owned(),
            Error::VaultFile => "vault must be a regular file smaller than 1 MiB".to_owned(),
            Error::VaultPermissions => "vault permissions must be owner-only (chmod 600)".to_owned(),
            Error::VaultGrew => "vault grew beyond 1 MiB".to_owned(),
            Error::VaultDirectory => "vault directory must be owner-only (chmod 700)".to_owned(),
            Error::LockFile => "vault lock must be a regular file".to_owned(),
            Error::VaultBusy => "vault is busy; retry".to_owned(),
            Error::VaultParent => "vault path needs a parent directory".to_owned(),
            Error::ConfigParent => "config path needs a parent directory".to_owned(),
            Error::VaultChanged => "vault changed; reload and retry the local operation".to_owned(),
            Error::UnknownWallet => "unknown wallet".to_owned(),
            Error::NoAccounts => "vault has no accounts".to_owned(),
            Error::PhraseInUse => "recovery phrase is still used or this wallet has no recovery phrase".to_owned(),
            Error::MasterLimit => "master limit reached".to_owned(),
            Error::NoMaster => "no master wallet exists".to_owned(),
            Error::InvalidWalletName => "wallet name must be 1-32 ASCII letters, digits, _ or -".to_owned(),
            Error::WalletNameExists => "wallet name already exists".to_owned(),
            Error::AccountLimit => "account limit reached".to_owned(),
            Error::InvalidMasterReference => "invalid master reference".to_owned(),
            Error::NoRecoveryPhrase => "imported private-key wallets have no stored recovery phrase".to_owned(),
            Error::AddressMismatch => "vault account address mismatch".to_owned(),
            Error::VaultLimits => "vault limits exceeded".to_owned(),
            Error::UnsupportedVersion => "unsupported vault version".to_owned(),
            Error::TooManyMasters => "too many masters in vault".to_owned(),
            Error::InvalidEntropySize => "invalid master entropy size".to_owned(),
            Error::InvalidNextIndex => "invalid next derivation index".to_owned(),
            Error::TooManyAccounts => "too many accounts in vault".to_owned(),
            Error::InvalidAccountName => "invalid or duplicate account name".to_owned(),
            Error::IndexReused => "derivation counter would reuse an existing index".to_owned(),
            Error::InvalidImportedAccount => "invalid imported account".to_owned(),
            Error::InvalidAccountKind => "invalid account kind".to_owned(),
            Error::TooManyRecipients => "too many recipients in vault".to_owned(),
            Error::TrailingData => "trailing vault data".to_owned(),
            Error::NoProgramAddress => "Unable to find a viable program address bump seed".to_owned(),
            Error::Truncated => "truncated vault".to_owned(),
            Error::IndexTooLarge => "derivation index too large".to_owned(),
            Error::NumberEmpty => "cannot parse integer from empty string".to_owned(),
            Error::NumberDigit => "invalid digit found in string".to_owned(),
            Error::NumberTooLarge => "number too large to fit in target type".to_owned(),
            Error::OutOfRange => "out of range integral type conversion attempted".to_owned(),
            Error::AmountPrecision => "token precision exceeds u64 decimal range".to_owned(),
            Error::AmountInvalid => "invalid amount".to_owned(),
            Error::AmountPlaces => "invalid amount or too many decimal places".to_owned(),
            Error::AmountOverflow => "amount overflow".to_owned(),
            Error::OptionExpected => "expected --option; use 'help'".to_owned(),
            Error::UnknownOption => "unknown option".to_owned(),
            Error::DuplicateOption => "duplicate option".to_owned(),
            Error::MissingValue => "missing option value".to_owned(),
            Error::UnexpectedArguments => "unexpected arguments; use 'help'".to_owned(),
            Error::UsageExport => "usage: solx export NAME (--private-key | --mnemonic)".to_owned(),
            Error::DuplicateWallet => "duplicate --wallet".to_owned(),
            Error::WalletNeedsName => "--wallet needs a name".to_owned(),
            Error::DuplicateAll => "duplicate --all".to_owned(),
            Error::DuplicateBurn => "duplicate --burn".to_owned(),
            Error::UnknownCloseOption => "unknown close-ata option".to_owned(),
            Error::TooManyMints => "too many mint addresses".to_owned(),
            Error::CloseTarget => "use --all or provide mint addresses".to_owned(),
            Error::ConfigTooLarge => "config is too large".to_owned(),
            Error::RpcTimeout => "rpc.timeout_secs must be 1..=120".to_owned(),
            Error::HistoryLimit => "history.limit must be 1..=100".to_owned(),
            Error::ComputeMargin => "security.compute_unit_margin_percent must be 0..=100".to_owned(),
            Error::HistoryWallets => "history.wallets supports at most 16 entries".to_owned(),
            Error::HistoryInterval => "history.interval_secs must be at least 10".to_owned(),
            Error::TooManyAliases => "too many aliases".to_owned(),
            Error::InvalidAlias => "invalid command alias".to_owned(),
            Error::RpcNotHttps => "RPC must use HTTPS, except loopback HTTP".to_owned(),
            Error::RpcCredentials => "RPC URL must not contain credentials".to_owned(),
            Error::ComputeUsage => "simulation returned invalid compute usage".to_owned(),
            Error::RpcNotConfigured => "RPC is not configured in config.toml".to_owned(),
            Error::RpcNoHost => "RPC URL has no host".to_owned(),
            Error::BodyTooLarge => "RPC response exceeds 2 MiB".to_owned(),
            Error::RpcResultMissing => "RPC result missing".to_owned(),
            Error::InvalidBalance => "invalid getBalance response".to_owned(),
            Error::InvalidAccountInfo => "invalid getAccountInfo response".to_owned(),
            Error::InvalidTokenBalance => "invalid token balance response".to_owned(),
            Error::InvalidTokenSupply => "invalid token supply response".to_owned(),
            Error::InvalidBlockhash => "invalid getLatestBlockhash response".to_owned(),
            Error::FeeUnavailable => "RPC fee unavailable for transaction message".to_owned(),
            Error::InvalidHistory => "invalid signature history response".to_owned(),
            Error::TooManySignatures => "RPC returned too many signatures".to_owned(),
            Error::InvalidSimulation => "invalid simulation response".to_owned(),
            Error::SimulationNoErr => "simulation result is missing err field".to_owned(),
            Error::InvalidSend => "invalid sendTransaction response".to_owned(),
            Error::InvalidSignature => "invalid transaction signature".to_owned(),
            Error::InvalidStatus => "invalid signature status response".to_owned(),
            Error::InvalidTokenAccounts => "invalid token account response".to_owned(),
            Error::TooManyTokenAccounts => "too many token accounts in RPC response".to_owned(),
            Error::InvalidTokenAddress => "invalid token account address".to_owned(),
            Error::TokenOwner => "token account has unexpected owner program".to_owned(),
            Error::InvalidParsedToken => "invalid parsed token account".to_owned(),
            Error::InvalidTokenMint => "invalid token mint".to_owned(),
            Error::InvalidRawAmount => "invalid raw token amount".to_owned(),
            Error::InvalidTokenDecimals => "invalid token decimals".to_owned(),
            Error::InvalidTokenAmount => "invalid token amount".to_owned(),
            Error::PacketLimit => "transaction exceeds 1232-byte packet limit".to_owned(),
            Error::SignerMismatch => "transaction must require only the selected fee payer's signature".to_owned(),
            Error::InsufficientForAll => "insufficient SOL to send ALL after the network fee".to_owned(),
            Error::NoPostBalance => "simulation omitted the fee payer's remaining balance".to_owned(),
            Error::AllLeavesRest => "source balance changed; ALL would leave SOL behind, retry the transfer".to_owned(),
            Error::NoInstructions => "invalid instruction count".to_owned(),
            Error::ProbeNoUnits => "RPC simulation omitted compute units; cannot tune limit".to_owned(),
            Error::FeeChanged => "transaction fee changed while resolving ALL; retry the transfer".to_owned(),
            Error::Cancelled => "transaction cancelled".to_owned(),
            Error::SignedPacketLimit => "signed transaction exceeds 1232-byte packet limit".to_owned(),
            Error::OtherSignature => "RPC returned a different transaction signature".to_owned(),
            Error::CloseTooLarge => "one close instruction exceeds the transaction size limit".to_owned(),
            Error::AmountPositive => "amount must be positive".to_owned(),
            Error::SameWallet => "cannot transfer to the same wallet".to_owned(),
            Error::MintMissing => "mint account does not exist".to_owned(),
            Error::InvalidMintOwner => "invalid mint owner".to_owned(),
            Error::MintNotToken => "mint is not owned by an SPL Token program".to_owned(),
            Error::SourceAtaMissing => "source associated token account does not exist".to_owned(),
            Error::InsufficientTokens => "insufficient token balance".to_owned(),
            Error::DuplicateMint => "duplicate mint address".to_owned(),
            Error::AtaMissing => "associated token account does not exist".to_owned(),
            Error::AtaOwner => "associated token account has unexpected owner program".to_owned(),
            Error::AtaGone => "associated token account missing".to_owned(),
            Error::AtaNotEmpty => "associated token account is not empty".to_owned(),
            Error::UsageInit => "usage: solx init [NAME]".to_owned(),
            Error::InvalidName => "invalid wallet name".to_owned(),
            Error::PasswordMismatch => "passwords do not match".to_owned(),
            Error::PasswordShort => "password must be at least 12 characters".to_owned(),
            Error::UsageNew => "usage: solx new NAME [--new-master]".to_owned(),
            Error::UsageImport => "usage: solx import NAME (--mnemonic | --base58 [KEY] | --keypair-file PATH)".to_owned(),
            Error::InlineKey => "inline private keys are only accepted in the CLI shell; omit KEY for a hidden prompt".to_owned(),
            Error::KeyLength => "base58 private key must decode to 32 or 64 bytes".to_owned(),
            Error::KeypairFileTooLarge => "keypair file is too large".to_owned(),
            Error::KeypairFileLength => "keypair file must have 64 bytes".to_owned(),
            Error::ExportCancelled => "export cancelled".to_owned(),
            Error::UsageDelete => "usage: solx delete NAME".to_owned(),
            Error::DeletionCancelled => "deletion cancelled".to_owned(),
            Error::HistoryRange => "history limit must be 1..=100".to_owned(),
            Error::TerminalClosed => "terminal closed".to_owned(),
            Error::LineTooLong => "command line exceeds 4096 bytes".to_owned(),
            Error::LineNotUtf8 => "command line is not UTF-8".to_owned(),
            Error::ConfigNeedsPath => "--config needs a path".to_owned(),
            Error::UiSoon => "soon; set mode = 'cli'".to_owned(),
            Error::UiLater => "later".to_owned(),
            Error::EntropyLength(n) => {
                "entropy was not between 128-256 bits or not a multiple of 32 bits: ".to_owned(
                ).concat(decimal(8 * (*n as u128)).as_str()).concat(" bits")
            },
            Error::NotUtf8(valid, Some(n)) => {
                "invalid utf-8 sequence of ".to_owned().concat(
                    decimal(*n as u128).as_str(),
                ).concat(" bytes from index ").concat(decimal(*valid as u128).as_str())
            },
            Error::NotUtf8(valid, None) => {
                "incomplete utf-8 byte sequence from index ".to_owned().concat(
                    decimal(*valid as u128).as_str(),
                )
            },
            Error::MissingOption(name) => "missing --".to_owned().concat(name.as_str()),
            Error::Rpc(method, reason) => {
                "RPC ".to_owned().concat(method.as_str()).concat(": ").concat(reason.as_str())
            },
            Error::TransactionFailed(reason) => {
                "transaction failed: ".to_owned().concat(reason.as_str())
            },
            Error::SimulationFailed(label) => label.clone().concat(" failed; transaction not sent"),
            Error::SimulationReason(label, reason) => {
                label.clone().concat(" failed: ").concat(reason.as_str())
            },
            Error::SendUnknown(signature, reason) => {
                "send outcome unknown; check signature ".to_owned().concat(
                    signature.as_str(),
                ).concat(" before retrying: ").concat(reason.as_str())
            },
            Error::UnknownCommand(word) => {
                "unknown command '".to_owned().concat(word.as_str()).concat("'; use 'help'")
            },
            Error::Outside(message) => message.clone(),
        }
    }
}

} // verus!
