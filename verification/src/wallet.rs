//! Commands on the wallets of a vault: creating, importing, exporting, deleting and listing.
use vstd::prelude::*;
use vstd::string::*;
use vstd::utf8::*;

use crate::amount::{amount_text, format_amount};
use crate::args::{option_value, ExportKind, Options};
use crate::error::Error;
use crate::mnemonic::{derived_secret, entropy_length, fresh_entropy, mnemonic_entropy, phrase,
    phrase_text, Mnemonic};
use crate::name::{is_name, valid_name};
use crate::pubkey::{address_text, Pubkey};
use crate::rpc::{safe, safe_text, TokenAccount};
use crate::secret::{SecretArray, SecretBytes, SecretText};
use crate::signer::{ed25519_public_key, keypair_round_trip, valid_keypair, Keypair};
use crate::text::{decimal, has_prefix, has_suffix, number_of, number_text, parse_number, same,
    strip_prefix, strip_suffix, trim, trimmed, utf8_text};
use crate::transaction::{output_rule, rule};
use crate::vault::{a_phrase_restores_its_first_wallet, an_imported_keypair_is_the_wallet,
    AccountView, KindView, RecoveryPhraseUse, Vault, VaultView, MAX_MASTERS};

verus! {

// ---------------------------------------------------------------------------------------------
// What the outside crates compute
// ---------------------------------------------------------------------------------------------
/// The bytes that a text writes in base58, where there is room for them, or what is wrong.
pub uninterp spec fn base58_decoded(text: Seq<char>, room: nat) -> Result<Seq<u8>, Seq<char>>;

/// Bytes in base58.
pub uninterp spec fn base58_text(bytes: Seq<u8>) -> Seq<char>;

/// A text of ASCII letters and digits.
pub open spec fn alphanumeric(text: Seq<char>) -> bool {
    forall|i: int|
        0 <= i < text.len() ==> {
            let c = #[trigger] text[i];
            'a' <= c <= 'z' || 'A' <= c <= 'Z' || '0' <= c <= '9'
        }
}

/// Calls `bs58::decode(..).onto(..)` with a buffer of 64 bytes: the bytes that were decoded are at
/// its front. What they are, and the message of the error, is only named.
#[verifier::external_body]
fn decode_base58(text: &str, bytes: &mut [u8; 64]) -> (len: Result<usize, String>)
    ensures
        match len {
            Ok(n) => n <= 64 && base58_decoded(text@, 64) is Ok && base58_decoded(text@, 64)->Ok_0
                == final(bytes)@.take(n as int),
            Err(message) => base58_decoded(text@, 64) is Err && base58_decoded(text@, 64)->Err_0
                == message@,
        },
{
    bs58::decode(text).onto(&mut bytes[..]).map_err(|error| error.to_string())
}

/// Calls `bs58::encode(..).onto(..)` with a buffer of 88 bytes, which is enough for 64: the text is
/// at its front. It is only named, with the facts that it has only letters and digits, and that
/// decoding it gives the bytes back.
#[verifier::external_body]
fn encode_base58(bytes: &[u8; 64], text: &mut [u8; 88]) -> (len: usize)
    ensures
        len <= 88,
        valid_utf8(final(text)@.take(len as int)),
        decode_utf8(final(text)@.take(len as int)) == base58_text(bytes@),
        alphanumeric(decode_utf8(final(text)@.take(len as int))),
        base58_decoded(decode_utf8(final(text)@.take(len as int)), 64) is Ok,
        base58_decoded(decode_utf8(final(text)@.take(len as int)), 64)->Ok_0 == bytes@,
{
    bs58::encode(&bytes[..]).onto(&mut text[..]).unwrap()
}

/// The bytes that a list of numbers in JSON stands for, or what is wrong with it.
pub uninterp spec fn json_numbers(text: Seq<u8>) -> Result<Seq<u8>, Seq<char>>;

/// Calls `serde_json::from_slice` for a `Vec<u8>`, which reads a list of numbers below 256. What
/// they are, and the message of the error, is only named.
#[verifier::external_body]
fn read_numbers(text: &[u8]) -> (numbers: Result<Vec<u8>, String>)
    ensures
        match numbers {
            Ok(n) => json_numbers(text@) is Ok && json_numbers(text@)->Ok_0 == n@,
            Err(message) => json_numbers(text@) is Err && json_numbers(text@)->Err_0 == message@,
        },
{
    serde_json::from_slice(text).map_err(|error| error.to_string())
}

// ---------------------------------------------------------------------------------------------
// Creating
// ---------------------------------------------------------------------------------------------
/// The name of the first wallet: the one that is given, or `main`.
pub fn init_name(args: &[String]) -> (name: Result<&str, Error>)
    ensures
        if args@.len() > 1 {
            name == Err::<&str, Error>(Error::UsageInit)
        } else {
            let wanted = if args@.len() == 1 {
                args@[0]@
            } else {
                "main"@
            };
            if is_name(wanted) {
                name matches Ok(n) && n@ == wanted
            } else {
                name == Err::<&str, Error>(Error::InvalidName)
            }
        },
{
    if args.len() > 1 {
        return Err(Error::UsageInit);
    }
    let name = if args.len() == 1 {
        args[0].as_str()
    } else {
        "main"
    };
    if !valid_name(name) {
        return Err(Error::InvalidName);
    }
    Ok(name)
}

/// Checks a new password: it was typed twice the same, and is long enough.
pub fn check_new_password(password: &str, confirmation: &str) -> (result: Result<(), Error>)
    ensures
        password@ != confirmation@ ==> result == Err::<(), Error>(Error::PasswordMismatch),
        password@ == confirmation@ && encode_utf8(password@).len() < 12 ==> result == Err::<
            (),
            Error,
        >(Error::PasswordShort),
        password@ == confirmation@ && encode_utf8(password@).len() >= 12 ==> result is Ok,
{
    if !same(password, confirmation) {
        return Err(Error::PasswordMismatch);
    }
    if password.as_bytes().len() < 12 {
        return Err(Error::PasswordShort);
    }
    Ok(())
}

/// What `new` is asked for.
#[derive(Debug)]
pub struct NewWallet<'a> {
    pub name: &'a str,
    /// With a recovery phrase of its own.
    pub master: bool,
}

/// Reads the arguments of `new`.
pub fn parse_new(args: &[String]) -> (wanted: Result<NewWallet, Error>)
    ensures
        if args@.len() == 1 || (args@.len() == 2 && args@[1]@ == "--new-master"@) {
            wanted matches Ok(w) && w.name@ == args@[0]@ && w.master == (args@.len() == 2)
        } else {
            wanted == Err::<NewWallet, Error>(Error::UsageNew)
        },
{
    if args.len() == 0 || args.len() > 2 || (args.len() == 2 && !same(
        args[1].as_str(),
        "--new-master",
    )) {
        return Err(Error::UsageNew);
    }
    Ok(NewWallet { name: args[0].as_str(), master: args.len() == 2 })
}

/// Adds a wallet with a recovery phrase of its own, from some entropy, and gives the phrase.
pub fn new_master(vault: &mut Vault, name: &str, entropy: SecretBytes) -> (phrase: Result<
    SecretText,
    Error,
>)
    ensures
        final(vault).source_bytes == old(vault).source_bytes,
        old(vault)@.wf() ==> final(vault)@.wf(),
        ({
            let refused = if !entropy_length(entropy@.len()) {
                Some(Error::EntropyLength(entropy@.len() as usize))
            } else {
                match old(vault)@.name_refused(name@) {
                    Some(error) => Some(error),
                    None => if old(vault)@.masters.len() >= MAX_MASTERS {
                        Some(Error::MasterLimit)
                    } else {
                        None
                    },
                }
            };
            match refused {
                Some(error) => phrase == Err::<SecretText, Error>(error) && final(vault)@ == old(
                    vault,
                )@,
                None => (phrase matches Ok(p) && p@ == phrase_text(entropy@)) && final(vault)@
                    == old(vault)@.with_master(name@, entropy@),
            }
        }),
        phrase is Ok && old(vault)@.wf() ==> restores(final(vault)@, name@, phrase->Ok_0@)
            && final(vault)@.signing_secret(name@) == Ok::<Seq<u8>, Error>(
            derived_secret(mnemonic_entropy(phrase->Ok_0@)->Ok_0, 0),
        ),
{
    let ghost bytes = entropy@;
    let text = match phrase(entropy.as_slice()) {
        Ok(text) => text,
        Err(error) => return Err(error),
    };
    let ghost before = vault@;
    match vault.add_master(name, entropy) {
        Ok(()) => {
            proof {
                if before.wf() {
                    a_phrase_restores_its_first_wallet(before, name@, bytes);
                }
            }
            Ok(text)
        },
        Err(error) => Err(error),
    }
}

/// Adds a wallet with a fresh recovery phrase of its own, and gives the phrase. Reading the phrase
/// gives the entropy that the wallet was made from.
pub fn new_wallet(vault: &mut Vault, name: &str) -> (phrase: Result<SecretText, Error>)
    ensures
        final(vault).source_bytes == old(vault).source_bytes,
        old(vault)@.wf() ==> final(vault)@.wf(),
        match phrase {
            Ok(p) => exists|entropy: Seq<u8>|
                entropy.len() == 32 && p@ == phrase_text(entropy) && final(vault)@ == #[trigger] old(
                    vault,
                )@.with_master(name@, entropy),
            Err(error) => final(vault)@ == old(vault)@ && (error == Error::NoRandomness
                || old(vault)@.name_refused(name@) == Some(error) || (old(vault)@.masters.len()
                >= MAX_MASTERS && error == Error::MasterLimit)),
        },
        phrase is Ok && old(vault)@.wf() ==> restores(final(vault)@, name@, phrase->Ok_0@)
            && final(vault)@.signing_secret(name@) is Ok,
{
    match fresh_entropy() {
        Ok(entropy) => new_master(vault, name, entropy),
        Err(error) => Err(error),
    }
}

/// The line about a new wallet and, where it has one of its own, its recovery phrase.
pub open spec fn created_text(name: Seq<char>, address: Seq<u8>, phrase: Seq<char>) -> Seq<char> {
    "Created "@ + name + ": "@ + address_text(address)
        + "\nRecovery phrase (shown once; store it securely):\n"@ + phrase + "\n"@
}

/// The lines about a wallet with a new recovery phrase.
pub fn show_created(name: &str, address: &Pubkey, phrase: &SecretText) -> (text: SecretText)
    ensures
        text@ == created_text(name@, address@, phrase@),
{
    let mut text = String::with_capacity(1024);
    text.append("Created ");
    text.append(name);
    text.append(": ");
    text.append(address.text().as_str());
    text.append("\nRecovery phrase (shown once; store it securely):\n");
    text.append(phrase.as_str());
    text.append("\n");
    assert(text@ =~= created_text(name@, address@, phrase@));
    SecretText::new(text)
}

/// The line about a wallet: how it came about, its name and its address.
pub fn show_wallet(verb: &str, name: &str, address: &Pubkey) -> (text: String)
    ensures
        text@ == verb@ + " "@ + name@ + ": "@ + address_text(address@) + "\n"@,
{
    verb.to_owned().concat(" ").concat(name).concat(": ").concat(address.text().as_str()).concat("\n")
}

// ---------------------------------------------------------------------------------------------
// Importing
// ---------------------------------------------------------------------------------------------
/// Where an imported key comes from.
#[derive(Debug, PartialEq, Eq)]
pub enum ImportSource {
    /// A recovery phrase that is asked for.
    Mnemonic,
    /// A key in base58 that is asked for.
    Base58Prompt,
    /// A key in base58 that was given.
    Base58(String),
    /// A file with 64 numbers.
    KeypairFile(String),
}

/// Checks the arguments of an import before the vault is opened.
pub fn check_import(args: &[String], shell: bool) -> (result: Result<(), Error>)
    ensures
        if args@.len() < 2 || args@.len() > 3 {
            result == Err::<(), Error>(Error::UsageImport)
        } else if args@[1]@ == "--base58"@ && args@.len() == 3 && !shell {
            result == Err::<(), Error>(Error::InlineKey)
        } else {
            result is Ok
        },
{
    if args.len() < 2 || args.len() > 3 {
        return Err(Error::UsageImport);
    }
    if same(args[1].as_str(), "--base58") && args.len() == 3 && !shell {
        return Err(Error::InlineKey);
    }
    Ok(())
}

/// Where the key of an import comes from. The name must be new.
pub fn import_source(vault: &Vault, args: &[String]) -> (source: Result<ImportSource, Error>)
    requires
        2 <= args@.len() <= 3,
    ensures
        ({
            let flag = args@[1]@;
            let given = args@.len() == 3;
            if vault@.account(args@[0]@) is Some {
                source == Err::<ImportSource, Error>(Error::WalletNameExists)
            } else if flag == "--mnemonic"@ && !given {
                source == Ok::<ImportSource, Error>(ImportSource::Mnemonic)
            } else if flag == "--base58"@ && !given {
                source == Ok::<ImportSource, Error>(ImportSource::Base58Prompt)
            } else if flag == "--base58"@ {
                source matches Ok(ImportSource::Base58(key)) && key@ == args@[2]@
            } else if flag == "--keypair-file"@ && given {
                source matches Ok(ImportSource::KeypairFile(path)) && path@ == args@[2]@
            } else {
                source == Err::<ImportSource, Error>(Error::UsageImport)
            }
        }),
{
    if vault.contains(args[0].as_str()) {
        return Err(Error::WalletNameExists);
    }
    let flag = args[1].as_str();
    if same(flag, "--mnemonic") && args.len() == 2 {
        Ok(ImportSource::Mnemonic)
    } else if same(flag, "--base58") {
        if args.len() == 2 {
            Ok(ImportSource::Base58Prompt)
        } else {
            Ok(ImportSource::Base58(args[2].clone()))
        }
    } else if same(flag, "--keypair-file") && args.len() == 3 {
        Ok(ImportSource::KeypairFile(args[2].clone()))
    } else {
        Err(Error::UsageImport)
    }
}

/// The text between a pair of quotes around it.
pub open spec fn between(text: Seq<char>, quote: Seq<char>) -> Option<Seq<char>> {
    if has_prefix(text, quote) && has_suffix(text.skip(quote.len() as int), quote) {
        let rest = text.skip(quote.len() as int);
        Some(rest.take(rest.len() - quote.len()))
    } else {
        None
    }
}

/// The text without quotes around it.
pub open spec fn unquoted(text: Seq<char>) -> Seq<char> {
    match between(text, "\""@) {
        Some(inner) => inner,
        None => match between(text, "'"@) {
            Some(inner) => inner,
            None => text,
        },
    }
}

fn strip_quotes<'a>(text: &'a str, quote: &str) -> (inner: Option<&'a str>)
    ensures
        match between(text@, quote@) {
            Some(t) => inner matches Some(i) && i@ == t,
            None => inner is None,
        },
{
    match strip_prefix(text, quote) {
        Some(rest) => strip_suffix(rest, quote),
        None => None,
    }
}

/// The keypair that a text writes in base58, as 64 bytes or as a secret key alone, or the message
/// that says what is wrong.
pub open spec fn keypair_of_base58(text: Seq<char>) -> Result<Seq<u8>, Seq<char>> {
    match base58_decoded(unquoted(text), 64) {
        Err(message) => Err(message),
        Ok(bytes) => if bytes.len() == 32 {
            Ok(bytes + ed25519_public_key(bytes))
        } else if bytes.len() != 64 {
            Err(Error::KeyLength.text())
        } else if !valid_keypair(bytes) {
            Err(Error::KeypairMismatch.text())
        } else {
            Ok(bytes)
        },
    }
}

/// Reads a keypair in base58: 64 bytes, or the secret key alone. Quotes around it are left out.
pub fn decode_base58_keypair(input: &str) -> (keypair: Result<SecretArray<64>, Error>)
    ensures
        match keypair_of_base58(input@) {
            Ok(bytes) => keypair matches Ok(k) && k@ == bytes && valid_keypair(bytes),
            Err(message) => keypair matches Err(e) && e.text() == message,
        },
{
    let inner = match strip_quotes(input, "\"") {
        Some(inner) => inner,
        None => match strip_quotes(input, "'") {
            Some(inner) => inner,
            None => input,
        },
    };
    let mut bytes: SecretArray<64> = SecretArray::new([0;64]);
    let len: usize = match decode_base58(inner, bytes.as_mut_array()) {
        Ok(len) => len,
        Err(message) => return Err(Error::Outside(message)),
    };
    if len == 32 {
        let mut secret: [u8; 32] = [0;32];
        let mut i: usize = 0;
        while i < 32
            invariant
                i <= 32,
                secret@.len() == 32,
                bytes@.len() == 64,
                forall|k: int| 0 <= k < i ==> secret@[k] == bytes@[k],
            decreases 32 - i,
        {
            secret[i] = bytes.as_array()[i];
            i += 1;
        }
        assert(secret@ =~= bytes@.take(32));
        return Ok(Keypair::new_from_array(secret).to_keypair_bytes());
    }
    if len != 64 {
        return Err(Error::KeyLength);
    }
    assert(bytes@.take(64) =~= bytes@);
    match Keypair::try_from(bytes.as_array()) {
        Ok(_) => Ok(bytes),
        Err(error) => Err(error),
    }
}

/// Imports a recovery phrase.
pub fn import_mnemonic(vault: &mut Vault, name: &str, phrase: &str) -> (result: Result<(), Error>)
    ensures
        final(vault).source_bytes == old(vault).source_bytes,
        old(vault)@.wf() ==> final(vault)@.wf(),
        match mnemonic_entropy(phrase@) {
            Err(message) => (result matches Err(e) && e.text() == message) && final(vault)@ == old(
                vault,
            )@,
            Ok(entropy) => {
                let refused = match old(vault)@.name_refused(name@) {
                    Some(error) => Some(error),
                    None => if old(vault)@.masters.len() >= MAX_MASTERS {
                        Some(Error::MasterLimit)
                    } else {
                        None
                    },
                };
                match refused {
                    Some(error) => result == Err::<(), Error>(error) && final(vault)@ == old(
                        vault,
                    )@,
                    None => result is Ok && final(vault)@ == old(vault)@.with_master(
                        name@,
                        entropy,
                    ),
                }
            },
        },
        result is Ok && old(vault)@.wf() ==> restores(final(vault)@, name@, phrase@)
            && final(vault)@.signing_secret(name@) == Ok::<Seq<u8>, Error>(
            derived_secret(mnemonic_entropy(phrase@)->Ok_0, 0),
        ),
{
    let mnemonic = match Mnemonic::parse(phrase) {
        Ok(mnemonic) => mnemonic,
        Err(error) => return Err(error),
    };
    let ghost before = vault@;
    let result = vault.add_master(name, mnemonic.to_entropy());
    proof {
        if before.wf() && result is Ok {
            a_phrase_restores_its_first_wallet(before, name@, mnemonic@);
        }
    }
    result
}

/// Imports a key in base58.
pub fn import_base58(vault: &mut Vault, name: &str, text: &str) -> (result: Result<(), Error>)
    ensures
        final(vault).source_bytes == old(vault).source_bytes,
        old(vault)@.wf() ==> final(vault)@.wf(),
        match keypair_of_base58(text@) {
            Err(message) => (result matches Err(e) && e.text() == message) && final(vault)@ == old(
                vault,
            )@,
            Ok(keypair) => match old(vault)@.name_refused(name@) {
                Some(error) => result == Err::<(), Error>(error) && final(vault)@ == old(vault)@,
                None => result is Ok && final(vault)@ == old(vault)@.with_imported(name@, keypair),
            },
        },
{
    match decode_base58_keypair(text) {
        Ok(bytes) => vault.add_imported(name, bytes),
        Err(error) => Err(error),
    }
}

/// The largest keypair file that is read.
pub const MAX_KEYPAIR_FILE: u64 = 1024;

/// Checks the length of a keypair file.
pub fn check_keypair_file(len: u64) -> (result: Result<(), Error>)
    ensures
        len > MAX_KEYPAIR_FILE ==> result == Err::<(), Error>(Error::KeypairFileTooLarge),
        len <= MAX_KEYPAIR_FILE ==> result is Ok,
{
    if len > MAX_KEYPAIR_FILE {
        Err(Error::KeypairFileTooLarge)
    } else {
        Ok(())
    }
}

/// Why the numbers of a keypair file cannot be imported under a name.
pub open spec fn numbers_refused(vault: VaultView, name: Seq<char>, numbers: Seq<u8>) -> Option<
    Error,
> {
    if numbers.len() != 64 {
        Some(Error::KeypairFileLength)
    } else {
        match vault.name_refused(name) {
            Some(error) => Some(error),
            None => if !valid_keypair(numbers) {
                Some(Error::KeypairMismatch)
            } else {
                None
            },
        }
    }
}

/// Imports the numbers of a keypair file.
pub fn import_numbers(vault: &mut Vault, name: &str, numbers: &SecretBytes) -> (result: Result<
    (),
    Error,
>)
    ensures
        final(vault).source_bytes == old(vault).source_bytes,
        old(vault)@.wf() ==> final(vault)@.wf(),
        match numbers_refused(old(vault)@, name@, numbers@) {
            Some(error) => result == Err::<(), Error>(error) && final(vault)@ == old(vault)@,
            None => result is Ok && final(vault)@ == old(vault)@.with_imported(name@, numbers@),
        },
{
    if numbers.len() != 64 {
        return Err(Error::KeypairFileLength);
    }
    let mut bytes: [u8; 64] = [0;64];
    let mut i: usize = 0;
    while i < 64
        invariant
            i <= 64,
            bytes@.len() == 64,
            numbers@.len() == 64,
            forall|k: int| 0 <= k < i ==> bytes@[k] == numbers@[k],
        decreases 64 - i,
    {
        bytes[i] = numbers.as_slice()[i];
        i += 1;
    }
    assert(bytes@ =~= numbers@);
    vault.add_imported(name, SecretArray::new(bytes))
}

/// Imports a keypair file: a list of 64 numbers in JSON.
pub fn import_keypair_file(vault: &mut Vault, name: &str, contents: &SecretBytes) -> (result: Result<
    (),
    Error,
>)
    ensures
        final(vault).source_bytes == old(vault).source_bytes,
        old(vault)@.wf() ==> final(vault)@.wf(),
        if contents@.len() > MAX_KEYPAIR_FILE {
            result == Err::<(), Error>(Error::KeypairFileTooLarge) && final(vault)@ == old(vault)@
        } else {
            match json_numbers(contents@) {
                Err(message) => (result matches Err(Error::Outside(m)) && m@ == message)
                    && final(vault)@ == old(vault)@,
                Ok(numbers) => match numbers_refused(old(vault)@, name@, numbers) {
                    Some(error) => result == Err::<(), Error>(error) && final(vault)@ == old(
                        vault,
                    )@,
                    None => result is Ok && final(vault)@ == old(vault)@.with_imported(
                        name@,
                        numbers,
                    ),
                },
            }
        },
{
    if let Err(error) = check_keypair_file(contents.len() as u64) {
        return Err(error);
    }
    match read_numbers(contents.as_slice()) {
        Ok(numbers) => import_numbers(vault, name, &SecretBytes::new(numbers)),
        Err(message) => Err(Error::Outside(message)),
    }
}

/// The warning after an import, where a copy of the key is left behind.
pub fn import_warning(source: &ImportSource) -> (text: &'static str)
    ensures
        text@ == match source {
            ImportSource::KeypairFile(_) => "Warning: the source keypair file is still on disk.\n"@,
            ImportSource::Base58(_) =>
                "Warning: the key was visible in your terminal; use --base58 without KEY for a hidden prompt.\n"@,
            _ => ""@,
        },
{
    match source {
        ImportSource::KeypairFile(_) => "Warning: the source keypair file is still on disk.\n",
        ImportSource::Base58(_) =>
            "Warning: the key was visible in your terminal; use --base58 without KEY for a hidden prompt.\n",
        _ => "",
    }
}

// ---------------------------------------------------------------------------------------------
// Exporting
// ---------------------------------------------------------------------------------------------
/// What the user sees before a secret is shown, and is asked.
pub open spec fn export_question(
    name: Seq<char>,
    address: Seq<u8>,
    index: Option<u32>,
) -> Seq<char> {
    rule() + "\nExport wallet: "@ + name + "\nAddress: "@ + address_text(address) + "\n"@ + (
    match index {
        Some(i) => "Derivation path: m/44'/501'/"@ + number_text(i as nat)
            + "'/0'\nWarning: this recovery phrase also controls wallets derived from the same master.\n"@,
        None => "Export type: private key (base58, 64-byte keypair)\n"@,
    }) + "Warning: secret output can remain in terminal scrollback or redirected files.\nType '"@
        + name + "' to reveal the secret: "@
}

/// Asks before a secret is shown. A phrase can only be shown where there is one.
pub fn export_prompt(vault: &Vault, name: &str, kind: ExportKind) -> (text: Result<String, Error>)
    ensures
        match vault@.account(name@) {
            None => text == Err::<String, Error>(Error::UnknownWallet),
            Some(account) => match (kind, account.kind) {
                (ExportKind::Mnemonic, KindView::Imported { .. }) => text == Err::<String, Error>(
                    Error::NoRecoveryPhrase,
                ),
                (ExportKind::Mnemonic, KindView::Derived { index, .. }) => text matches Ok(t) && t@
                    == export_question(name@, account.pubkey, Some(index)),
                (ExportKind::PrivateKey, _) => text matches Ok(t) && t@ == export_question(
                    name@,
                    account.pubkey,
                    None,
                ),
            },
        },
{
    let account = match vault.account(name) {
        Ok(account) => account,
        Err(error) => return Err(error),
    };
    let index: Option<u32> = match kind {
        ExportKind::Mnemonic => match vault.derivation_index(name) {
            Ok(Some(index)) => Some(index),
            Ok(None) => return Err(Error::NoRecoveryPhrase),
            Err(error) => return Err(error),
        },
        ExportKind::PrivateKey => None,
    };
    let middle = match index {
        Some(i) => "Derivation path: m/44'/501'/".to_owned().concat(
            decimal(i as u128).as_str(),
        ).concat(
            "'/0'\nWarning: this recovery phrase also controls wallets derived from the same master.\n",
        ),
        None => "Export type: private key (base58, 64-byte keypair)\n".to_owned(),
    };
    Ok(
        output_rule().to_owned().concat("\nExport wallet: ").concat(name).concat(
            "\nAddress: ",
        ).concat(account.pubkey.text().as_str()).concat("\n").concat(middle.as_str()).concat(
            "Warning: secret output can remain in terminal scrollback or redirected files.\nType '",
        ).concat(name).concat("' to reveal the secret: "),
    )
}

/// A secret under a title, between rules.
pub open spec fn revealed(title: Seq<char>, secret: Seq<char>) -> Seq<char> {
    "\n"@ + rule() + "\n"@ + title + ":\n"@ + secret + "\n"@ + rule() + "\n"@
}

/// What an export shows of a wallet, or why it shows nothing.
pub open spec fn export_of(vault: VaultView, name: Seq<char>, kind: ExportKind) -> Result<
    Seq<char>,
    Error,
> {
    match kind {
        ExportKind::PrivateKey => match vault.signing_secret(name) {
            Err(error) => Err(error),
            Ok(secret) => Ok(
                revealed(
                    "Private key (base58)"@,
                    base58_text(secret + ed25519_public_key(secret)),
                ),
            ),
        },
        ExportKind::Mnemonic => match vault.account(name) {
            None => Err(Error::UnknownWallet),
            Some(account) => match account.kind {
                KindView::Imported { .. } => Err(Error::NoRecoveryPhrase),
                KindView::Derived { master, .. } => if master >= vault.masters.len() {
                    Err(Error::InvalidMasterReference)
                } else {
                    let entropy = vault.masters[master as int].entropy;
                    if !entropy_length(entropy.len()) {
                        Err(Error::EntropyLength(entropy.len() as usize))
                    } else {
                        Ok(revealed("Recovery phrase"@, phrase_text(entropy)))
                    }
                },
            },
        },
    }
}

/// The user has typed the name.
pub open spec fn confirmed_by(answer: Option<Seq<char>>, name: Seq<char>) -> bool {
    answer matches Some(text) && trimmed(text) == name
}

fn secret_block(title: &str, secret: &str) -> (text: SecretText)
    ensures
        text@ == revealed(title@, secret@),
{
    let mut text = String::with_capacity(1024);
    text.append("\n");
    text.append(output_rule());
    text.append("\n");
    text.append(title);
    text.append(":\n");
    text.append(secret);
    text.append("\n");
    text.append(output_rule());
    text.append("\n");
    assert(text@ =~= revealed(title@, secret@));
    SecretText::new(text)
}

/// A keypair in base58. Decoding it gives the keypair back.
pub fn encode_base58_keypair(bytes: &SecretArray<64>) -> (text: SecretText)
    ensures
        text@ == base58_text(bytes@),
        valid_keypair(bytes@) ==> keypair_of_base58(text@) == Ok::<Seq<u8>, Seq<char>>(bytes@),
{
    let mut buffer: SecretArray<88> = SecretArray::new([0;88]);
    let len: usize = encode_base58(bytes.as_array(), buffer.as_mut_array());
    let encoded = &buffer.as_array().as_slice()[0..len];
    assert(encoded@ =~= buffer@.take(len as int));
    let mut text = String::with_capacity(88);
    match utf8_text(encoded) {
        Ok(found) => {
            text.append(found);
            proof {
                encode_utf8_decode_utf8(found@);
                assert(text@ =~= found@);
                lemma_unquoted(text@);
            }
        },
        Err(_) => {},
    }
    SecretText::new(text)
}

/// A text of letters and digits has no quotes around it.
proof fn lemma_unquoted(text: Seq<char>)
    requires
        alphanumeric(text),
    ensures
        unquoted(text) == text,
{
    reveal_strlit("\"");
    reveal_strlit("'");
    assert("\""@ =~= seq!['"']);
    assert("'"@ =~= seq!['\'']);
    if text.len() > 0 {
        let c = text[0];
        assert(text.subrange(0, 1)[0] == c);
        assert(seq!['"'][0] == '"');
        assert(seq!['\''][0] == '\'');
    }
}

/// A text shows a secret under a title, between two rules of 48 dashes.
pub open spec fn shown_under(text: Seq<char>, title: Seq<char>, secret: Seq<char>) -> bool {
    let dashes = "------------------------------------------------"@;
    text == "\n"@ + dashes + "\n"@ + title + ":\n"@ + secret + "\n"@ + dashes + "\n"@
}

/// A phrase restores a wallet: reading it gives an entropy from which the index of the wallet gives
/// the wallet's key. That is so in a vault where the wallet can sign.
pub open spec fn restores(vault: VaultView, name: Seq<char>, phrase: Seq<char>) -> bool {
    &&& vault.account(name) is Some
    &&& vault.account(name)->Some_0.kind is Derived
    &&& mnemonic_entropy(phrase) is Ok
    &&& vault.signing_secret(name) is Ok ==> ed25519_public_key(
        derived_secret(
            mnemonic_entropy(phrase)->Ok_0,
            vault.account(name)->Some_0.kind->Derived_index,
        ),
    ) == vault.account(name)->Some_0.pubkey
}

/// A key in base58 unlocks a wallet: reading it gives a keypair whose public half is the wallet's
/// address, and belongs to its secret half.
pub open spec fn unlocks(vault: VaultView, name: Seq<char>, key: Seq<char>) -> bool {
    &&& vault.account(name) is Some
    &&& keypair_of_base58(key) is Ok
    &&& keypair_of_base58(key)->Ok_0.len() == 64
    &&& keypair_of_base58(key)->Ok_0.subrange(32, 64) == vault.account(name)->Some_0.pubkey
    &&& ed25519_public_key(keypair_of_base58(key)->Ok_0.take(32)) == vault.account(
        name,
    )->Some_0.pubkey
}

/// Shows a secret, if the user has typed the name of the wallet.
pub fn export_wallet(vault: &Vault, name: &str, kind: ExportKind, answer: Option<&str>) -> (text:
    Result<SecretText, Error>)
    ensures
        ({
            let typed = match answer {
                Some(line) => Some(line@),
                None => None,
            };
            if !confirmed_by(typed, name@) {
                text == Err::<SecretText, Error>(Error::ExportCancelled)
            } else {
                match export_of(vault@, name@, kind) {
                    Ok(shown) => text matches Ok(t) && t@ == shown,
                    Err(error) => text == Err::<SecretText, Error>(error),
                }
            }
        }),
        text is Ok ==> answer is Some && trimmed(answer->Some_0@) == name@,
        text is Ok && kind == ExportKind::Mnemonic ==> exists|phrase: Seq<char>|
            #[trigger] shown_under(text->Ok_0@, "Recovery phrase"@, phrase) && restores(
                vault@,
                name@,
                phrase,
            ),
        text is Ok && kind == ExportKind::PrivateKey ==> exists|key: Seq<char>|
            #[trigger] shown_under(text->Ok_0@, "Private key (base58)"@, key) && unlocks(
                vault@,
                name@,
                key,
            ),
{
    let confirmed = match answer {
        Some(line) => same(trim(line), name),
        None => false,
    };
    if !confirmed {
        return Err(Error::ExportCancelled);
    }
    match kind {
        ExportKind::PrivateKey => match vault.signer(name) {
            Ok(signer) => {
                let bytes = signer.to_keypair_bytes();
                let key = encode_base58_keypair(&bytes);
                let shown = secret_block("Private key (base58)", key.as_str());
                proof {
                    signer.lemma_len();
                    bytes.lemma_len();
                    assert(bytes@.subrange(32, 64) =~= ed25519_public_key(signer@));
                    assert(bytes@.take(32) =~= signer@);
                    assert(unlocks(vault@, name@, key@));
                }
                let text: Result<SecretText, Error> = Ok(shown);
                assert(shown_under(text->Ok_0@, "Private key (base58)"@, key@));
                text
            },
            Err(error) => Err(error),
        },
        ExportKind::Mnemonic => match vault.mnemonic(name) {
            Ok(phrase) => {
                let shown = secret_block("Recovery phrase", phrase.as_str());
                assert(shown_under(shown@, "Recovery phrase"@, phrase@));
                assert(restores(vault@, name@, phrase@));
                Ok(shown)
            },
            Err(error) => Err(error),
        },
    }
}

// ---------------------------------------------------------------------------------------------
// Deleting
// ---------------------------------------------------------------------------------------------
/// The wallet that `delete` is asked for.
pub fn parse_delete(args: &[String]) -> (name: Result<&str, Error>)
    ensures
        args@.len() == 1 ==> (name matches Ok(n) && n@ == args@[0]@),
        args@.len() != 1 ==> name == Err::<&str, Error>(Error::UsageDelete),
{
    if args.len() == 1 {
        Ok(args[0].as_str())
    } else {
        Err(Error::UsageDelete)
    }
}

/// What the user sees before a wallet is deleted, and is asked.
pub open spec fn delete_question(
    name: Seq<char>,
    address: Seq<u8>,
    usage: RecoveryPhraseUse,
) -> Seq<char> {
    "Delete local wallet: "@ + name + "\nAddress: "@ + address_text(address)
        + "\nFunds stay on-chain. Keep a backup if you need access later.\n"@ + (match usage {
        RecoveryPhraseUse::ImportedKey => "The saved private key will be removed.\n"@,
        RecoveryPhraseUse::Shared =>
            "The recovery phrase is shared by other wallets and will stay.\n"@,
        RecoveryPhraseUse::UnusedAfterDeletion =>
            "No other saved wallet uses this recovery phrase.\n"@,
    }) + "Type '"@ + name + "' to delete this wallet: "@
}

/// Asks before a wallet is deleted, and tells what depends on its recovery phrase.
pub fn delete_prompt(vault: &Vault, name: &str) -> (prompt: Result<
    (String, RecoveryPhraseUse),
    Error,
>)
    requires
        vault@.wf(),
    ensures
        match vault@.phrase_use(name@) {
            Err(error) => prompt == Err::<(String, RecoveryPhraseUse), Error>(error),
            Ok(usage) => prompt matches Ok(p) && p.1 == usage && p.0@ == delete_question(
                name@,
                vault@.account(name@)->Some_0.pubkey,
                usage,
            ),
        },
{
    let account = match vault.account(name) {
        Ok(account) => account,
        Err(error) => return Err(error),
    };
    let usage = match vault.recovery_phrase_use(name) {
        Ok(usage) => usage,
        Err(error) => return Err(error),
    };
    let line = match usage {
        RecoveryPhraseUse::ImportedKey => "The saved private key will be removed.\n",
        RecoveryPhraseUse::Shared =>
            "The recovery phrase is shared by other wallets and will stay.\n",
        RecoveryPhraseUse::UnusedAfterDeletion =>
            "No other saved wallet uses this recovery phrase.\n",
    };
    let text = "Delete local wallet: ".to_owned().concat(name).concat("\nAddress: ").concat(
        account.pubkey.text().as_str(),
    ).concat("\nFunds stay on-chain. Keep a backup if you need access later.\n").concat(
        line,
    ).concat("Type '").concat(name).concat("' to delete this wallet: ");
    Ok((text, usage))
}

/// What follows when the name was typed.
#[derive(Clone, Copy, Debug, PartialEq, Eq, Structural)]
pub enum DeleteNext {
    /// Delete the wallet and keep the phrase.
    Delete,
    /// Ask whether to erase the phrase, too.
    AskErase,
}

/// Takes the answer to the question whether to delete a wallet. Erasing a phrase is only offered
/// where no other wallet uses it.
pub fn confirm_delete(name: &str, usage: RecoveryPhraseUse, answer: Option<&str>) -> (next: Result<
    DeleteNext,
    Error,
>)
    ensures
        ({
            let typed = match answer {
                Some(line) => Some(line@),
                None => None,
            };
            if !confirmed_by(typed, name@) {
                next == Err::<DeleteNext, Error>(Error::DeletionCancelled)
            } else if usage == RecoveryPhraseUse::UnusedAfterDeletion {
                next == Ok::<DeleteNext, Error>(DeleteNext::AskErase)
            } else {
                next == Ok::<DeleteNext, Error>(DeleteNext::Delete)
            }
        }),
        next is Ok ==> answer is Some && trimmed(answer->Some_0@) == name@,
{
    let confirmed = match answer {
        Some(line) => same(trim(line), name),
        None => false,
    };
    if !confirmed {
        return Err(Error::DeletionCancelled);
    }
    if usage == RecoveryPhraseUse::UnusedAfterDeletion {
        Ok(DeleteNext::AskErase)
    } else {
        Ok(DeleteNext::Delete)
    }
}

/// The question whether to erase a phrase.
pub fn erase_prompt() -> (text: &'static str)
    ensures
        text@
            == "Also erase its recovery phrase from the vault? Type 'ERASE', or Enter to keep: "@,
{
    "Also erase its recovery phrase from the vault? Type 'ERASE', or Enter to keep: "
}

/// Takes the answer to the question whether to erase a phrase.
pub fn confirm_erase(answer: Option<&str>) -> (erase: Result<bool, Error>)
    ensures
        match answer {
            None => erase == Err::<bool, Error>(Error::DeletionCancelled),
            Some(line) => if trimmed(line@) == "ERASE"@ {
                erase == Ok::<bool, Error>(true)
            } else if trimmed(line@) == ""@ {
                erase == Ok::<bool, Error>(false)
            } else {
                erase == Err::<bool, Error>(Error::DeletionCancelled)
            },
        },
{
    match answer {
        Some(line) => {
            let typed = trim(line);
            if same(typed, "ERASE") {
                Ok(true)
            } else if same(typed, "") {
                Ok(false)
            } else {
                Err(Error::DeletionCancelled)
            }
        },
        None => Err(Error::DeletionCancelled),
    }
}

/// Tells whether a wallet is the first one. There must be one.
pub fn is_default(vault: &Vault, name: &str) -> (first: Result<bool, Error>)
    ensures
        vault@.accounts.len() == 0 ==> first == Err::<bool, Error>(Error::NoAccounts),
        vault@.accounts.len() > 0 ==> first == Ok::<bool, Error>(
            vault@.accounts[0].name == name@,
        ),
{
    match vault.first_name() {
        Ok(found) => Ok(same(found, name)),
        Err(error) => Err(error),
    }
}

/// The lines after a wallet was deleted.
pub open spec fn deleted_text(
    vault: VaultView,
    name: Seq<char>,
    erased: bool,
    was_default: bool,
) -> Seq<char> {
    "Deleted local wallet "@ + name + ".\n"@ + (if erased {
        "Unused recovery phrase erased from the vault.\n"@
    } else {
        ""@
    }) + (if !was_default {
        ""@
    } else if vault.accounts.len() > 0 {
        "Default wallet: "@ + vault.accounts[0].name + "\n"@
    } else {
        "The vault has no saved wallets.\n"@
    })
}

/// The lines after a wallet was deleted from a vault.
pub fn show_deleted(vault: &Vault, name: &str, erased: bool, was_default: bool) -> (text: String)
    ensures
        text@ == deleted_text(vault@, name@, erased, was_default),
{
    let first = if !was_default {
        "".to_owned()
    } else {
        match vault.first_name() {
            Ok(next) => "Default wallet: ".to_owned().concat(next).concat("\n"),
            Err(_) => "The vault has no saved wallets.\n".to_owned(),
        }
    };
    "Deleted local wallet ".to_owned().concat(name).concat(".\n").concat(
        if erased {
            "Unused recovery phrase erased from the vault.\n"
        } else {
            ""
        },
    ).concat(first.as_str())
}

// ---------------------------------------------------------------------------------------------
// Listing
// ---------------------------------------------------------------------------------------------
/// The positions of the accounts that a filter lets through.
pub open spec fn listed(accounts: Seq<AccountView>, filter: Option<Seq<char>>) -> Seq<int>
    decreases accounts.len(),
{
    if accounts.len() == 0 {
        Seq::empty()
    } else {
        let front = listed(accounts.drop_last(), filter);
        if filter is None || filter == Some(accounts.last().name) {
            front.push(accounts.len() - 1)
        } else {
            front
        }
    }
}

/// The positions of the wallets to list. A wallet that is named must exist.
pub fn list(vault: &Vault, filter: Option<&str>) -> (positions: Result<Vec<usize>, Error>)
    ensures
        ({
            let wanted = match filter {
                Some(name) => Some(name@),
                None => None,
            };
            if wanted matches Some(name) && vault@.account(name) is None {
                positions == Err::<Vec<usize>, Error>(Error::UnknownWallet)
            } else {
                positions matches Ok(p) && p@.map_values(|i: usize| i as int) == listed(
                    vault@.accounts,
                    wanted,
                )
            }
        }),
{
    if let Some(name) = filter {
        if let Err(error) = vault.account(name) {
            return Err(error);
        }
    }
    let ghost wanted = match filter {
        Some(name) => Some(name@),
        None => None,
    };
    let ghost accounts = vault@.accounts;
    let mut positions: Vec<usize> = Vec::new();
    let mut i: usize = 0;
    assert(accounts.take(0) =~= Seq::empty());
    assert(positions@.map_values(|i: usize| i as int) =~= listed(accounts.take(0), wanted));
    while i < vault.accounts.len()
        invariant
            i <= vault.accounts@.len(),
            accounts == vault@.accounts,
            wanted == match filter {
                Some(name) => Some(name@),
                None => None,
            },
            positions@.map_values(|i: usize| i as int) == listed(accounts.take(i as int), wanted),
        decreases vault.accounts@.len() - i,
    {
        proof {
            assert(accounts[i as int] == vault.accounts@[i as int]@);
            assert(accounts.take(i + 1).drop_last() =~= accounts.take(i as int));
            assert(accounts.take(i + 1).last() == accounts[i as int]);
        }
        let shown = match filter {
            Some(name) => same(vault.accounts[i].name.as_str(), name),
            None => true,
        };
        if shown {
            let ghost before = positions@;
            positions.push(i);
            assert(positions@.map_values(|i: usize| i as int) =~= before.map_values(
                |i: usize| i as int,
            ).push(i as int));
        }
        i += 1;
    }
    assert(accounts.take(i as int) =~= accounts);
    Ok(positions)
}

/// The line in place of a list, where there is no wallet to list.
pub fn empty_list(vault: &Vault) -> (text: Option<&'static str>)
    ensures
        vault@.accounts.len() > 0 ==> text is None,
        vault@.accounts.len() == 0 ==> (text matches Some(t) && t@ == "No saved wallets.\n"@),
{
    if vault.accounts.len() == 0 {
        Some("No saved wallets.\n")
    } else {
        None
    }
}

/// The line about a wallet in a list.
pub fn wallet_line(name: &str, address: &Pubkey) -> (text: String)
    ensures
        text@ == name@ + "  "@ + address_text(address@) + "\n"@,
{
    name.to_owned().concat("  ").concat(address.text().as_str()).concat("\n")
}

/// The line about a balance, and the warning where it is zero.
pub fn balance_lines(name: &str, balance: u64) -> (lines: (String, String))
    ensures
        lines.0@ == "  SOL: "@ + amount_text(balance, 9) + "\n"@,
        lines.1@ == if balance == 0 {
            "  Warning: "@ + name@ + " has zero SOL balance\n"@
        } else {
            ""@
        },
{
    let warning = if balance == 0 {
        "  Warning: ".to_owned().concat(name).concat(" has zero SOL balance\n")
    } else {
        "".to_owned()
    };
    ("  SOL: ".to_owned().concat(format_amount(balance, 9).as_str()).concat("\n"), warning)
}

/// The line about a token account.
pub fn token_line(account: &TokenAccount) -> (text: String)
    ensures
        text@ == "  token "@ + address_text(account@.mint) + "  "@ + safe(
            account@.display_amount,
            60,
        ) + "  account "@ + address_text(account@.address) + "\n"@,
        has_prefix(text@, "  token "@ + address_text(account.mint@)),
        has_suffix(text@, "  account "@ + address_text(account.address@) + "\n"@),
{
    let text = "  token ".to_owned().concat(account.mint.text().as_str()).concat("  ").concat(
        safe_text(account.display_amount.as_str(), 60).as_str(),
    ).concat("  account ").concat(account.address.text().as_str()).concat("\n");
    proof {
        let front = "  token "@ + address_text(account.mint@);
        let back = "  account "@ + address_text(account.address@) + "\n"@;
        assert(text@.subrange(0, front.len() as int) =~= front);
        assert(text@.subrange(text@.len() - back.len(), text@.len() as int) =~= back);
    }
    text
}

// ---------------------------------------------------------------------------------------------
// History
// ---------------------------------------------------------------------------------------------
/// How many rows of history to show: as many as asked for, or else as configured.
pub fn history_limit(options: &Options, configured: usize) -> (limit: Result<usize, Error>)
    ensures
        ({
            let wanted = match option_value(options@, "limit"@) {
                Some(text) => number_of(text, usize::MAX as u64),
                None => Ok(configured as u64),
            };
            match wanted {
                Err(error) => limit == Err::<usize, Error>(error),
                Ok(n) => if 1 <= n <= 100 {
                    limit == Ok::<usize, Error>(n as usize)
                } else {
                    limit == Err::<usize, Error>(Error::HistoryRange)
                },
            }
        }),
{
    let wanted: u64 = match options.get("limit") {
        Some(text) => match parse_number(text, usize::MAX as u64) {
            Ok(n) => n,
            Err(error) => return Err(error),
        },
        None => configured as u64,
    };
    if 1 <= wanted && wanted <= 100 {
        Ok(wanted as usize)
    } else {
        Err(Error::HistoryRange)
    }
}

/// The line above the history of a wallet.
pub fn history_title(name: &str, address: &Pubkey) -> (text: String)
    ensures
        text@ == "History for "@ + name@ + " ("@ + address_text(address@) + "):\n"@,
{
    "History for ".to_owned().concat(name).concat(" (").concat(address.text().as_str()).concat("):\n")
}

// ---------------------------------------------------------------------------------------------
// Laws
// ---------------------------------------------------------------------------------------------
/// A secret key that is imported in base58 alone gives the same wallet as its keypair.
pub proof fn secret_and_keypair_import_alike(secret: Seq<u8>, text: Seq<char>, long: Seq<char>)
    requires
        secret.len() == 32,
        ed25519_public_key(secret).len() == 32,
        base58_decoded(unquoted(text), 64) == Ok::<Seq<u8>, Seq<char>>(secret),
        base58_decoded(unquoted(long), 64) == Ok::<Seq<u8>, Seq<char>>(
            secret + ed25519_public_key(secret),
        ),
    ensures
        keypair_of_base58(text) == keypair_of_base58(long),
        keypair_of_base58(text) == Ok::<Seq<u8>, Seq<char>>(secret + ed25519_public_key(secret)),
{
    keypair_round_trip(secret);
}

/// Quotes around a key make no difference.
pub proof fn quotes_make_no_difference(key: Seq<char>)
    requires
        alphanumeric(key),
    ensures
        keypair_of_base58("\""@ + key + "\""@) == keypair_of_base58(key),
        keypair_of_base58("'"@ + key + "'"@) == keypair_of_base58(key),
{
    lemma_unquoted(key);
    reveal_strlit("\"");
    reveal_strlit("'");
    assert("\""@ =~= seq!['"']);
    assert("'"@ =~= seq!['\'']);
    let double = "\""@ + key + "\""@;
    let single = "'"@ + key + "'"@;
    assert(double.subrange(0, 1) =~= "\""@);
    let rest = double.skip(1);
    assert(rest.subrange(rest.len() - 1, rest.len() as int) =~= "\""@);
    assert(rest.take(rest.len() - 1) =~= key);
    assert(single.subrange(0, 1) =~= "'"@);
    assert(single.subrange(0, 1)[0] == '\'');
    assert(seq!['"'][0] == '"');
    let rest = single.skip(1);
    assert(rest.subrange(rest.len() - 1, rest.len() as int) =~= "'"@);
    assert(rest.take(rest.len() - 1) =~= key);
}

/// What an export of a recovery phrase shows restores the named wallet: reading the phrase gives an
/// entropy from which the wallet's index gives a secret key whose public key is the wallet's
/// address. Phrases are read back, as making them states.
pub proof fn an_exported_phrase_restores_the_wallet(
    vault: VaultView,
    name: Seq<char>,
    phrase: Seq<char>,
)
    requires
        vault.signing_secret(name) is Ok,
        export_of(vault, name, ExportKind::Mnemonic) is Ok,
        shown_under(
            export_of(vault, name, ExportKind::Mnemonic)->Ok_0,
            "Recovery phrase"@,
            phrase,
        ),
        forall|entropy: Seq<u8>|
            entropy_length(entropy.len()) ==> mnemonic_entropy(#[trigger] phrase_text(entropy))
                == Ok::<Seq<u8>, Seq<char>>(entropy),
    ensures
        restores(vault, name, phrase),
        ({
            let account = vault.account(name)->Some_0;
            let entropy = mnemonic_entropy(phrase)->Ok_0;
            &&& entropy == vault.masters[account.kind->Derived_master as int].entropy
            &&& ed25519_public_key(derived_secret(entropy, account.kind->Derived_index))
                == account.pubkey
            &&& vault.signing_secret(name) == Ok::<Seq<u8>, Error>(
                derived_secret(entropy, account.kind->Derived_index),
            )
        }),
{
    let account = vault.account(name)->Some_0;
    let entropy = vault.masters[account.kind->Derived_master as int].entropy;
    lemma_shown_secret(
        export_of(vault, name, ExportKind::Mnemonic)->Ok_0,
        "Recovery phrase"@,
        phrase,
        phrase_text(entropy),
    );
}

/// A text shows one secret under a title.
proof fn lemma_shown_secret(text: Seq<char>, title: Seq<char>, a: Seq<char>, b: Seq<char>)
    requires
        shown_under(text, title, a),
        shown_under(text, title, b),
    ensures
        a == b,
{
    let dashes = "------------------------------------------------"@;
    let head = "\n"@ + dashes + "\n"@ + title + ":\n"@;
    let tail = "\n"@ + dashes + "\n"@;
    assert(text =~= head + a + tail);
    assert(text =~= head + b + tail);
    assert(a =~= text.subrange(head.len() as int, text.len() - tail.len()));
    assert(b =~= text.subrange(head.len() as int, text.len() - tail.len()));
}

/// What an export of a private key shows is the keypair of the named wallet, in base58: its public
/// half is the wallet's address, and it belongs to the secret half, with which the wallet signs.
pub proof fn an_exported_key_is_the_wallets(vault: VaultView, name: Seq<char>)
    requires
        vault.wf(),
        export_of(vault, name, ExportKind::PrivateKey) is Ok,
        ed25519_public_key(vault.signing_secret(name)->Ok_0).len() == 32,
        vault.signing_secret(name)->Ok_0.len() == 32,
    ensures
        exists|keypair: Seq<u8>|
            {
                &&& shown_under(
                    export_of(vault, name, ExportKind::PrivateKey)->Ok_0,
                    "Private key (base58)"@,
                    #[trigger] base58_text(keypair),
                )
                &&& keypair.len() == 64
                &&& Ok::<Seq<u8>, Error>(keypair.take(32)) == vault.signing_secret(name)
                &&& vault.account(name) is Some
                &&& keypair.skip(32) == vault.account(name)->Some_0.pubkey
                &&& keypair.skip(32) == ed25519_public_key(keypair.take(32))
            },
{
    let secret = vault.signing_secret(name)->Ok_0;
    let keypair = secret + ed25519_public_key(secret);
    assert(keypair.take(32) =~= secret);
    assert(keypair.skip(32) =~= ed25519_public_key(secret));
    assert(shown_under(
        export_of(vault, name, ExportKind::PrivateKey)->Ok_0,
        "Private key (base58)"@,
        base58_text(keypair),
    ));
}

/// A key that is imported in base58 is a keypair whose halves belong together: a secret key alone
/// is completed by its public key, and 64 bytes are taken as they are.
pub proof fn imported_keys_belong_together(text: Seq<char>)
    requires
        base58_decoded(unquoted(text), 64) is Ok,
        forall|secret: Seq<u8>| #[trigger] ed25519_public_key(secret).len() == 32,
    ensures
        ({
            let bytes = base58_decoded(unquoted(text), 64)->Ok_0;
            let keypair = keypair_of_base58(text);
            &&& keypair is Ok ==> keypair->Ok_0.len() == 64 && keypair->Ok_0.skip(32)
                == ed25519_public_key(keypair->Ok_0.take(32)) && (keypair->Ok_0 == bytes
                || keypair->Ok_0.take(32) == bytes)
            &&& bytes.len() == 32 ==> keypair is Ok
            &&& bytes.len() == 64 && bytes.skip(32) == ed25519_public_key(bytes.take(32))
                ==> keypair is Ok
            &&& bytes.len() != 32 && bytes.len() != 64 ==> keypair is Err
            &&& bytes.len() == 64 && bytes.skip(32) != ed25519_public_key(bytes.take(32))
                ==> keypair is Err
        }),
{
    let bytes = base58_decoded(unquoted(text), 64)->Ok_0;
    if bytes.len() == 64 {
        assert(bytes.subrange(32, 64) =~= bytes.skip(32));
        assert(bytes.subrange(0, 32) =~= bytes.take(32));
    }
    if bytes.len() == 32 {
        let keypair = bytes + ed25519_public_key(bytes);
        assert(keypair.take(32) =~= bytes);
        assert(keypair.skip(32) =~= ed25519_public_key(bytes));
    }
}

/// Only a line that is the name, but for white space around it, confirms anything about a wallet.
pub proof fn only_the_name_confirms(answer: Option<Seq<char>>, name: Seq<char>)
    ensures
        confirmed_by(answer, name) == (answer is Some && trimmed(answer->Some_0) == name),
{
}

/// What the user is asked before a wallet is deleted names the wallet and its address, and says what
/// becomes of its secret.
pub proof fn deletion_says_what_becomes_of_the_secret(name: Seq<char>, address: Seq<u8>)
    ensures
        ({
            let head = "Delete local wallet: "@ + name + "\nAddress: "@ + address_text(address)
                + "\nFunds stay on-chain. Keep a backup if you need access later.\n"@;
            let tail = "Type '"@ + name + "' to delete this wallet: "@;
            &&& delete_question(name, address, RecoveryPhraseUse::ImportedKey) == head
                + "The saved private key will be removed.\n"@ + tail
            &&& delete_question(name, address, RecoveryPhraseUse::Shared) == head
                + "The recovery phrase is shared by other wallets and will stay.\n"@ + tail
            &&& delete_question(name, address, RecoveryPhraseUse::UnusedAfterDeletion) == head
                + "No other saved wallet uses this recovery phrase.\n"@ + tail
        }),
{
    let head = "Delete local wallet: "@ + name + "\nAddress: "@ + address_text(address)
        + "\nFunds stay on-chain. Keep a backup if you need access later.\n"@;
    let tail = "Type '"@ + name + "' to delete this wallet: "@;
    assert(delete_question(name, address, RecoveryPhraseUse::ImportedKey) =~= head
        + "The saved private key will be removed.\n"@ + tail);
    assert(delete_question(name, address, RecoveryPhraseUse::Shared) =~= head
        + "The recovery phrase is shared by other wallets and will stay.\n"@ + tail);
    assert(delete_question(name, address, RecoveryPhraseUse::UnusedAfterDeletion) =~= head
        + "No other saved wallet uses this recovery phrase.\n"@ + tail);
}

/// What the user is asked before a secret is shown names the wallet and its address and, for a
/// phrase, the path on which the wallet lies.
pub proof fn exports_name_the_wallet(name: Seq<char>, address: Seq<u8>, index: u32)
    ensures
        ({
            let dashes = "------------------------------------------------"@;
            let head = dashes + "\nExport wallet: "@ + name + "\nAddress: "@ + address_text(address)
                + "\n"@;
            let tail =
                "Warning: secret output can remain in terminal scrollback or redirected files.\nType '"@
                + name + "' to reveal the secret: "@;
            &&& export_question(name, address, Some(index)) == head
                + "Derivation path: m/44'/501'/"@ + number_text(index as nat) + "'/0'\n"@
                + "Warning: this recovery phrase also controls wallets derived from the same master.\n"@
                + tail
            &&& export_question(name, address, None) == head
                + "Export type: private key (base58, 64-byte keypair)\n"@ + tail
        }),
{
    reveal_strlit(
        "'/0'\nWarning: this recovery phrase also controls wallets derived from the same master.\n",
    );
    reveal_strlit("'/0'\n");
    reveal_strlit(
        "Warning: this recovery phrase also controls wallets derived from the same master.\n",
    );
    let dashes = "------------------------------------------------"@;
    let head = dashes + "\nExport wallet: "@ + name + "\nAddress: "@ + address_text(address)
        + "\n"@;
    let tail =
        "Warning: secret output can remain in terminal scrollback or redirected files.\nType '"@
        + name + "' to reveal the secret: "@;
    assert("'/0'\nWarning: this recovery phrase also controls wallets derived from the same master.\n"@
        =~= "'/0'\n"@
        + "Warning: this recovery phrase also controls wallets derived from the same master.\n"@);
    assert(export_question(name, address, Some(index)) =~= head + "Derivation path: m/44'/501'/"@
        + number_text(index as nat) + "'/0'\n"@
        + "Warning: this recovery phrase also controls wallets derived from the same master.\n"@
        + tail);
    assert(export_question(name, address, None) =~= head
        + "Export type: private key (base58, 64-byte keypair)\n"@ + tail);
}

/// A list shows, in order and once each, the wallets of the vault with the wanted name, or all.
pub proof fn lists_show_what_is_wanted(accounts: Seq<AccountView>, filter: Option<Seq<char>>)
    ensures
        ({
            let shown = listed(accounts, filter);
            &&& forall|i: int, j: int| 0 <= i < j < shown.len() ==> shown[i] < shown[j]
            &&& forall|i: int|
                0 <= i < shown.len() ==> 0 <= #[trigger] shown[i] < accounts.len()
            &&& forall|at: int|
                0 <= at < accounts.len() ==> (#[trigger] shown.contains(at) == (filter is None
                    || filter == Some(accounts[at].name)))
        }),
    decreases accounts.len(),
{
    if accounts.len() > 0 {
        let front = accounts.drop_last();
        let last = accounts.len() - 1;
        lists_show_what_is_wanted(front, filter);
        let before = listed(front, filter);
        let shown = listed(accounts, filter);
        assert forall|at: int| 0 <= at < accounts.len() implies #[trigger] shown.contains(at) == (
        filter is None || filter == Some(accounts[at].name)) by {
            if at < last {
                assert(front[at] == accounts[at]);
                if before.contains(at) {
                    let k = choose|k: int| 0 <= k < before.len() && before[k] == at;
                    assert(shown[k] == at);
                }
                if shown.contains(at) {
                    let k = choose|k: int| 0 <= k < shown.len() && shown[k] == at;
                    if k < before.len() {
                        assert(before[k] == at);
                    }
                }
            } else {
                if filter is None || filter == Some(accounts[at].name) {
                    assert(shown[before.len() as int] == at);
                } else if shown.contains(at) {
                    let k = choose|k: int| 0 <= k < shown.len() && shown[k] == at;
                    assert(before[k] == at);
                }
            }
        }
        assert forall|i: int| 0 <= i < shown.len() implies 0 <= #[trigger] shown[i]
            < accounts.len() by {
            if i < before.len() {
                assert(shown[i] == before[i]);
            }
        }
        assert forall|i: int, j: int| 0 <= i < j < shown.len() implies shown[i] < shown[j] by {
            assert(shown[i] == before[i]);
            if j < before.len() {
                assert(shown[j] == before[j]);
            }
        }
    }
}

/// The numbers of a keypair file are imported if and only if there are 64, the second half is the
/// public key of the first, and the name is free.
pub proof fn keypair_files_hold_a_keypair(vault: VaultView, name: Seq<char>, numbers: Seq<u8>)
    ensures
        (numbers_refused(vault, name, numbers) is None) == (numbers.len() == 64
            && vault.name_refused(name) is None && numbers.skip(32) == ed25519_public_key(
            numbers.take(32),
        )),
{
    if numbers.len() == 64 {
        assert(numbers.subrange(32, 64) =~= numbers.skip(32));
        assert(numbers.subrange(0, 32) =~= numbers.take(32));
    }
}

/// What was exported as a private key and is imported again is the same wallet: it has the same
/// address and signs with the same key, under whatever free name.
pub proof fn exported_keys_import_as_the_same_wallet(
    vault: VaultView,
    name: Seq<char>,
    key: Seq<char>,
    other: VaultView,
    new_name: Seq<char>,
)
    requires
        vault.account(name) is Some,
        unlocks(vault, name, key),
        other.name_refused(new_name) is None,
    ensures
        ({
            let after = other.with_imported(new_name, keypair_of_base58(key)->Ok_0);
            &&& after.account(new_name) is Some
            &&& after.account(new_name)->Some_0.pubkey == vault.account(name)->Some_0.pubkey
            &&& after.signing_secret(new_name) is Ok
            &&& ed25519_public_key(after.signing_secret(new_name)->Ok_0) == vault.account(
                name,
            )->Some_0.pubkey
        }),
{
    let keypair = keypair_of_base58(key)->Ok_0;
    assert(keypair.subrange(32, 64) =~= keypair.skip(32));
    an_imported_keypair_is_the_wallet(other, new_name, keypair);
}

} // verus!
