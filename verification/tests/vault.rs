use solx::codec::VERSION;
use solx::error::Error;
use solx::mnemonic::{derive_signer, fresh_entropy, phrase, Mnemonic};
use solx::pubkey::Pubkey;
use solx::secret::{SecretArray, SecretBytes};
use solx::session::{
    check_vault_directory, check_vault_file, check_vault_size, temporary_name, Found, Session,
    SessionKey, HEADER_LEN, MAX_FILE,
};
use solx::signer::Keypair;
use solx::vault::{
    AccountKind, Master, RecoveryPhraseUse, Vault, MAX_ACCOUNTS, MAX_MASTERS, MAX_RECIPIENTS,
};

use aes_gcm_siv::aead::{AeadInPlace, KeyInit};
use aes_gcm_siv::{Aes256GcmSiv, Nonce};
use ed25519_dalek_bip32::{ChildIndex, ExtendedSigningKey};

/// A vault file in memory.
struct Disk {
    file: Option<Vec<u8>>,
}

impl Disk {
    fn new() -> Self {
        Disk { file: None }
    }

    fn save(&mut self, session: &Session, vault: &mut Vault) -> Result<(), Error> {
        let sealed = session.save(vault)?;
        vault.check_source(match &self.file {
            Some(bytes) => Found::File(bytes.clone()),
            None => Found::Absent(Error::Outside("no such file".into())),
        })?;
        self.file = Some(sealed.clone());
        vault.written(sealed);
        Ok(())
    }

    fn load(&self, session: &Session) -> Result<Vault, Error> {
        session.load(self.file.clone().unwrap())
    }
}

fn test_session() -> Session {
    Session::from_key([1; 16], SessionKey::new([2; 32]))
}

fn secret(bytes: Vec<u8>) -> SecretBytes {
    SecretBytes::new(bytes)
}

fn pubkey_of(vault: &Vault, name: &str) -> Pubkey {
    vault.signer(name).ok().unwrap().pubkey()
}

#[test]
fn phrase_uses_one_exact_capacity_buffer() {
    for len in [16, 20, 24, 28, 32] {
        let entropy = vec![42; len];
        let text = phrase(&entropy).ok().unwrap();
        assert_eq!(
            text.as_str(),
            bip39::Mnemonic::from_entropy(&entropy).unwrap().to_string()
        );
        assert_eq!(text.capacity(), text.as_str().len());
    }
}

#[test]
fn exported_secrets_match_each_master_without_changing_the_vault() {
    let mut disk = Disk::new();
    let session = test_session();
    let mut data = Vault::default();
    data.add_master("main", secret(vec![0; 32])).unwrap();
    data.masters[0].next_index = 7;
    data.add_derived("child").unwrap();
    data.add_master("independent", secret(vec![1; 16])).unwrap();
    data.add_imported("imported", Keypair::new_from_array([7; 32]).to_keypair_bytes())
        .unwrap();
    disk.save(&session, &mut data).unwrap();
    let before = disk.file.clone();
    let plain_before = data.encode().ok().unwrap();
    for (name, index, entropy) in [
        ("main", 0, vec![0; 32]),
        ("child", 7, vec![0; 32]),
        ("independent", 0, vec![1; 16]),
    ] {
        let text = data.mnemonic(name).ok().unwrap();
        assert_eq!(text.as_str(), phrase(&entropy).ok().unwrap().as_str());
        assert_eq!(data.derivation_index(name).unwrap(), Some(index));
        let mnemonic = Mnemonic::parse(text.as_str()).ok().unwrap();
        let restored = derive_signer(&mnemonic, index).ok().unwrap();
        assert_eq!(restored.pubkey(), data.account(name).ok().unwrap().pubkey);
        assert_eq!(
            restored.to_keypair_bytes().as_array(),
            data.signer(name).ok().unwrap().to_keypair_bytes().as_array()
        );
    }
    assert_eq!(data.derivation_index("imported").unwrap(), None);
    assert!(data.mnemonic("imported").is_err());
    assert!(data.mnemonic("unknown").is_err());
    assert!(data.derivation_index("unknown").is_err());
    assert_eq!(data.encode().ok().unwrap().as_slice(), plain_before.as_slice());
    assert_eq!(disk.file, before);
    let reopened = disk.load(&session).ok().unwrap();
    assert_eq!(reopened.masters[0].next_index, 8);
    assert_eq!(
        reopened.account("child").ok().unwrap().pubkey,
        data.account("child").ok().unwrap().pubkey
    );
}

#[test]
fn stale_saves_and_competing_creates_cannot_overwrite() {
    let mut disk = Disk::new();
    let session = test_session();
    let mut first = Vault::default();
    first.add_master("main", secret(vec![0; 32])).unwrap();
    disk.save(&session, &mut first).unwrap();
    let mut stale = disk.load(&session).ok().unwrap();
    first.add_derived("second").unwrap();
    disk.save(&session, &mut first).unwrap();
    stale.add_derived("lost").unwrap();
    assert!(disk
        .save(&session, &mut stale)
        .unwrap_err()
        .message()
        .contains("vault changed"));
    assert!(disk.save(&session, &mut Vault::default()).is_err());
    let saved = disk.load(&session).ok().unwrap();
    assert!(saved.contains("second"));
    assert!(!saved.contains("lost"));
    first.add_derived("third").unwrap();
    disk.save(&session, &mut first).unwrap();
    assert!(disk.load(&session).ok().unwrap().contains("third"));
}

#[test]
fn deletion_never_erases_a_shared_phrase_and_remaps_remaining_masters() {
    let mut vault = Vault::default();
    vault.add_master("main", secret(vec![0; 32])).unwrap();
    vault.add_master("independent", secret(vec![1; 32])).unwrap();
    vault.add_master("same_phrase", secret(vec![0; 32])).unwrap();
    let independent = pubkey_of(&vault, "independent");
    assert_eq!(
        vault.recovery_phrase_use("main").unwrap(),
        RecoveryPhraseUse::Shared
    );
    assert!(vault.remove_account("main", true).is_err());
    assert_eq!(vault.accounts.len(), 3);
    vault.remove_account("same_phrase", false).unwrap();
    assert_eq!(
        vault.recovery_phrase_use("main").unwrap(),
        RecoveryPhraseUse::UnusedAfterDeletion
    );
    vault.remove_account("main", true).unwrap();
    assert_eq!(vault.masters.len(), 1); // Both unused copies of the erased phrase are gone.
    assert_eq!(pubkey_of(&vault, "independent"), independent);
    let mut reopened = Vault::decode(vault.encode().ok().unwrap().as_slice(), VERSION)
        .ok()
        .unwrap();
    reopened.add_derived("next").unwrap();
    assert_eq!(pubkey_of(&reopened, "independent"), independent);
    assert_ne!(pubkey_of(&reopened, "next"), independent);
}

#[test]
fn deleting_highest_index_does_not_recycle_addresses_after_reopen() {
    let mut disk = Disk::new();
    let session = test_session();
    let mut vault = Vault::default();
    vault.add_master("main", secret(vec![0; 32])).unwrap();
    vault.add_derived("last").unwrap();
    let removed = pubkey_of(&vault, "last");
    disk.save(&session, &mut vault).unwrap();
    vault.remove_account("last", false).unwrap();
    disk.save(&session, &mut vault).unwrap();
    let mut vault = disk.load(&session).ok().unwrap();
    assert!(!vault.contains("last"));
    vault.add_derived("new").unwrap();
    let new = pubkey_of(&vault, "new");
    assert_ne!(new, removed);
    assert!(matches!(
        vault.account("new").ok().unwrap().kind,
        AccountKind::Derived { index: 2, .. }
    ));
    vault.remove_account("main", false).unwrap();
    assert_eq!(pubkey_of(&vault, "new"), new);
    vault.remove_account("new", false).unwrap();
    disk.save(&session, &mut vault).unwrap();
    let mut vault = disk.load(&session).ok().unwrap();
    assert!(vault.accounts.is_empty());
    assert!(vault.first_name().is_err());
    vault.add_derived("after_empty").unwrap();
    assert!(matches!(
        vault.account("after_empty").ok().unwrap().kind,
        AccountKind::Derived { index: 3, .. }
    ));
    vault.remove_account("after_empty", true).unwrap();
    disk.save(&session, &mut vault).unwrap();
    let mut vault = disk.load(&session).ok().unwrap();
    assert!(vault.masters.is_empty());
    assert!(vault.add_derived("no_master").is_err());
    vault.add_master("fresh", secret(vec![1; 32])).unwrap();
}

#[test]
fn erase_decision_cannot_overwrite_a_new_reference() {
    let mut disk = Disk::new();
    let session = test_session();
    let mut vault = Vault::default();
    vault.add_master("main", secret(vec![0; 32])).unwrap();
    disk.save(&session, &mut vault).unwrap();
    let mut stale = disk.load(&session).ok().unwrap();
    assert_eq!(
        stale.recovery_phrase_use("main").unwrap(),
        RecoveryPhraseUse::UnusedAfterDeletion
    );
    vault.add_derived("child").unwrap();
    disk.save(&session, &mut vault).unwrap();
    stale.remove_account("main", true).unwrap();
    assert!(disk.save(&session, &mut stale).is_err());
    let current = disk.load(&session).ok().unwrap();
    assert!(current.contains("main"));
    assert!(current.signer("child").is_ok());
}

#[test]
fn imported_key_deletion_and_unknown_name_are_handled() {
    let mut vault = Vault::default();
    let bytes = ed25519_dalek::SigningKey::from_bytes(&[7; 32]).to_keypair_bytes();
    vault.add_imported("imported", SecretArray::new(bytes)).unwrap();
    assert_eq!(
        vault.recovery_phrase_use("imported").unwrap(),
        RecoveryPhraseUse::ImportedKey
    );
    assert!(vault.remove_account("missing", false).is_err());
    assert!(vault.remove_account("imported", true).is_err());
    assert!(vault.contains("imported"));
    vault.remove_account("imported", false).unwrap();
    let decoded = Vault::decode(vault.encode().ok().unwrap().as_slice(), VERSION)
        .ok()
        .unwrap();
    assert!(decoded.accounts.is_empty());
    assert!(decoded.signer("imported").is_err());
}

#[test]
fn version_one_vault_migrates_without_changing_addresses() {
    let mut disk = Disk::new();
    let session = test_session();
    let mnemonic = Mnemonic::from_entropy(&[0; 32]).ok().unwrap();
    let address = derive_signer(&mnemonic, 7).ok().unwrap().pubkey();
    // Version 1 layout: one master, one derived account at index 7, no recipients.
    let mut payload = vec![1, 32];
    payload.extend_from_slice(&[0; 32]);
    payload.extend_from_slice(&1u16.to_le_bytes());
    payload.push(6);
    payload.extend_from_slice(b"legacy");
    payload.extend_from_slice(address.as_array());
    payload.extend_from_slice(&[0, 0]);
    payload.extend_from_slice(&7u32.to_le_bytes());
    payload.extend_from_slice(&0u16.to_le_bytes());
    let mut header = [0; HEADER_LEN];
    header[..4].copy_from_slice(b"SOLX");
    header[4] = 1;
    header[5..21].copy_from_slice(&[1; 16]);
    header[21..].copy_from_slice(&[3; 12]);
    Aes256GcmSiv::new_from_slice(&[2; 32])
        .unwrap()
        .encrypt_in_place(Nonce::from_slice(&[3; 12]), &header, &mut payload)
        .unwrap();
    let mut file = header.to_vec();
    file.extend_from_slice(&payload);
    disk.file = Some(file);
    let mut vault = disk.load(&session).ok().unwrap();
    assert_eq!(pubkey_of(&vault, "legacy"), address);
    assert_eq!(vault.masters[0].next_index, 8);
    assert_eq!(disk.file.as_ref().unwrap()[4], 1); // Reading alone does not migrate.
    disk.save(&session, &mut vault).unwrap();
    assert_eq!(disk.file.as_ref().unwrap()[4], VERSION);
    let mut vault = disk.load(&session).ok().unwrap();
    assert_eq!(pubkey_of(&vault, "legacy"), address);
    vault.add_derived("next").unwrap();
    assert_eq!(
        pubkey_of(&vault, "next"),
        derive_signer(&mnemonic, 8).ok().unwrap().pubkey()
    );
    let bytes = vault.encode().ok().unwrap();
    assert!(Vault::decode(bytes.as_slice(), 99).is_err());
    assert!(Vault::decode(&bytes.as_slice()[..bytes.len() - 1], VERSION).is_err());
}

#[test]
fn derivation_counters_reject_reuse_and_do_not_wrap() {
    let mut vault = Vault::default();
    vault.add_master("main", secret(vec![0; 32])).unwrap();
    vault.add_derived("child").unwrap();
    let bytes = vault.encode().ok().unwrap();
    for invalid in [0u32, 1, (1 << 31) + 1] {
        let mut malformed = bytes.as_slice().to_vec();
        malformed[34..38].copy_from_slice(&invalid.to_le_bytes());
        assert!(Vault::decode(&malformed, VERSION).is_err());
    }
    vault.masters[0].next_index = 1 << 31;
    let mut reopened = Vault::decode(vault.encode().ok().unwrap().as_slice(), VERSION)
        .ok()
        .unwrap();
    assert!(reopened.add_derived("exhausted").is_err());
    assert_eq!(reopened.accounts.len(), 2);
    assert_eq!(reopened.masters[0].next_index, 1 << 31);
}

#[test]
fn plaintext_has_capacity_for_largest_vault_and_authentication_tag() {
    fn requires_wiping<T: zeroize::ZeroizeOnDrop>() {}
    requires_wiping::<bip39::Mnemonic>();
    let mut vault = Vault::default();
    for _ in 0..MAX_MASTERS {
        vault.masters.push(Master {
            entropy: secret(vec![0; 32]),
            next_index: 1,
        });
    }
    let bytes = ed25519_dalek::SigningKey::from_bytes(&[7; 32]).to_keypair_bytes();
    for i in 0..MAX_ACCOUNTS {
        vault
            .add_imported(&format!("{i:032}"), SecretArray::new(bytes))
            .unwrap();
    }
    vault.recipients = vec![[3; 32]; MAX_RECIPIENTS];
    let mut plain = vault.encode().ok().unwrap();
    assert!(plain.capacity() >= plain.len() + 16);
    let whole = plain.as_slice().to_vec();
    let pointer = plain.as_slice().as_ptr();
    Aes256GcmSiv::new_from_slice(&[4; 32])
        .unwrap()
        .encrypt_in_place(Nonce::from_slice(&[5; 12]), b"test", plain.buffer())
        .unwrap();
    assert_eq!(plain.as_slice().as_ptr(), pointer);
    let session = test_session();
    let sealed = session.seal(&vault, &[5; 12]).unwrap();
    assert_eq!(sealed.len(), HEADER_LEN + whole.len() + 16);
    let reopened = session.load(sealed).ok().unwrap();
    assert_eq!(reopened.encode().ok().unwrap().as_slice(), whole);
}

#[test]
fn deterministic_derivation_and_vault_round_trip() {
    let mut vault = Vault::default();
    vault.add_master("main", secret(vec![0u8; 32])).unwrap();
    vault.add_derived("second").unwrap();
    assert_ne!(
        vault.account("main").ok().unwrap().pubkey,
        vault.account("second").ok().unwrap().pubkey
    );
    let bytes = vault.encode().ok().unwrap();
    let decoded = Vault::decode(bytes.as_slice(), VERSION).ok().unwrap();
    assert_eq!(
        pubkey_of(&decoded, "main"),
        vault.account("main").ok().unwrap().pubkey
    );
}

#[test]
fn wrong_password_and_tamper_rejected() {
    let mut vault = Vault::default();
    vault.add_master("main", secret(vec![0u8; 32])).unwrap();
    let mut disk = Disk::new();
    let password = "correct horse battery staple";
    let session = Session::create(false, password, SessionKey::zeroed()).ok().unwrap();
    disk.save(&session, &mut vault).unwrap();
    assert_eq!(disk.load(&session).ok().unwrap().accounts.len(), 1);
    let file = disk.file.clone().unwrap();
    assert!(Session::open(file.clone(), password, SessionKey::zeroed()).is_ok());
    assert!(Session::open(file.clone(), "wrong", SessionKey::zeroed()).is_err());
    let mut bytes = file;
    *bytes.last_mut().unwrap() ^= 1;
    assert!(Session::open(bytes, password, SessionKey::zeroed()).is_err());
}

#[test]
fn session_errors_tell_what_is_wrong() {
    assert_eq!(
        Session::create(true, "password", SessionKey::zeroed()).err().unwrap(),
        Error::VaultExists
    );
    assert_eq!(
        Session::create(false, "", SessionKey::zeroed()).err().unwrap(),
        Error::EmptyPassword
    );
    assert_eq!(
        Session::open(vec![0; 49], "password", SessionKey::zeroed()).err().unwrap(),
        Error::CorruptVault
    );
    let session = test_session();
    let file = session.seal(&Vault::default(), &[9; 12]).unwrap();
    assert_eq!(&file[..5], b"SOLX\x02");
    assert_eq!(&file[5..21], &[1; 16]);
    assert_eq!(&file[21..33], &[9; 12]);
    let other = Session::from_key([1; 16], SessionKey::new([3; 32]));
    assert_eq!(other.load(file.clone()).err().unwrap(), Error::WrongPassword);
    let other = Session::from_key([4; 16], SessionKey::new([2; 32]));
    assert_eq!(other.load(file).err().unwrap(), Error::CorruptVault);
}

#[test]
fn password_keys_are_those_of_scrypt() {
    let mut expected = [0u8; 32];
    scrypt::scrypt(
        b"password",
        &[1; 16],
        &scrypt::Params::new(15, 8, 1).unwrap(),
        &mut expected,
    )
    .unwrap();
    let mut key = SessionKey::zeroed();
    key.derive("password", &[1; 16]).unwrap();
    assert_eq!(key.as_array(), &expected);
}

#[test]
fn derived_keys_are_those_of_the_derivation_crate() {
    let outside = bip39::Mnemonic::from_entropy(&[7; 32]).unwrap();
    let mut node = ExtendedSigningKey::from_seed(&outside.to_seed("")).unwrap();
    for i in [44, 501, 3, 0] {
        node = node.derive_child(ChildIndex::Hardened(i)).unwrap();
    }
    let own = Mnemonic::from_entropy(&[7; 32]).ok().unwrap();
    assert_eq!(
        &derive_signer(&own, 3).ok().unwrap().to_keypair_bytes().as_array()[..32],
        &node.signing_key.to_bytes()
    );
    assert_eq!(
        derive_signer(&own, 1 << 31).err().unwrap(),
        Error::IndexTooLarge
    );
    assert_eq!(
        Mnemonic::from_entropy(&[0; 17]).err().unwrap().message(),
        "entropy was not between 128-256 bits or not a multiple of 32 bits: 136 bits"
    );
    assert_eq!(fresh_entropy().ok().unwrap().len(), 32);
}

#[test]
fn names_limits_and_recipients() {
    let mut vault = Vault::default();
    assert_eq!(
        vault.add_master("bad name", secret(vec![0; 32])).unwrap_err(),
        Error::InvalidWalletName
    );
    assert_eq!(vault.add_derived("a").unwrap_err(), Error::NoMaster);
    vault.add_master("main", secret(vec![0; 32])).unwrap();
    assert_eq!(
        vault.add_derived("main").unwrap_err(),
        Error::WalletNameExists
    );
    assert_eq!(
        vault.add_master("other", secret(vec![0; 15])).unwrap_err(),
        Error::EntropyLength(15)
    );
    assert_eq!(vault.name_or_first(None).unwrap(), "main");
    assert_eq!(vault.name_or_first(Some("x")).unwrap(), "x");
    let key = Pubkey::new_from_array([8; 32]);
    assert!(!vault.is_known_recipient(&key));
    vault.remember_recipient(&key);
    vault.remember_recipient(&key);
    assert!(vault.is_known_recipient(&key));
    assert_eq!(vault.recipients.len(), 1);
}

#[test]
fn malformed_plain_bytes_are_told_apart() {
    let errors: Vec<(Vec<u8>, Error)> = vec![
        (vec![], Error::Truncated),
        (vec![33], Error::TooManyMasters),
        (vec![1, 17], Error::InvalidEntropySize),
        (vec![0, 129, 0], Error::TooManyAccounts),
        (vec![0, 1, 0, 1, 0xff], Error::NotUtf8(0, Some(1))),
        (vec![0, 1, 0, 0], Error::InvalidAccountName),
        (vec![0, 0, 0, 1, 1], Error::TooManyRecipients),
        (vec![0, 0, 0, 0, 0, 0], Error::TrailingData),
    ];
    for (bytes, error) in errors {
        assert_eq!(Vault::decode(&bytes, VERSION).err().unwrap(), error);
    }
    let mut account = vec![0, 1, 0, 1, b'a'];
    account.extend_from_slice(&[0; 32]);
    let mut unknown = account.clone();
    unknown.push(2);
    assert_eq!(
        Vault::decode(&unknown, VERSION).err().unwrap(),
        Error::InvalidAccountKind
    );
    let mut dangling = account.clone();
    dangling.extend_from_slice(&[0, 0, 0, 0, 0, 0]);
    assert_eq!(
        Vault::decode(&dangling, VERSION).err().unwrap(),
        Error::InvalidMasterReference
    );
    let mut foreign = account;
    foreign.push(1);
    foreign.extend_from_slice(Keypair::new_from_array([7; 32]).to_keypair_bytes().as_array());
    assert_eq!(
        Vault::decode(&foreign, VERSION).err().unwrap(),
        Error::InvalidImportedAccount
    );
    assert_eq!(
        Error::NotUtf8(0, Some(1)).message(),
        std::str::from_utf8(&[0xff]).unwrap_err().to_string()
    );
    assert_eq!(
        Error::NotUtf8(1, None).message(),
        std::str::from_utf8(&[b'a', 0xc3]).unwrap_err().to_string()
    );
}

#[test]
fn temporary_names_are_hexadecimal() {
    let random = 0x0123_4567_89ab_cdefu64.to_le_bytes();
    assert_eq!(temporary_name(&random), ".vault-0123456789abcdef.tmp");
}

#[test]
fn vault_files_are_private_and_small() {
    check_vault_file(true, MAX_FILE, Some(0o100600)).unwrap();
    check_vault_file(true, 0, None).unwrap();
    assert_eq!(
        check_vault_file(false, 0, Some(0o600)).unwrap_err(),
        Error::VaultFile
    );
    assert_eq!(
        check_vault_file(true, MAX_FILE + 1, Some(0o600)).unwrap_err(),
        Error::VaultFile
    );
    assert_eq!(
        check_vault_file(true, 0, Some(0o640)).unwrap_err(),
        Error::VaultPermissions
    );
    check_vault_size(MAX_FILE).unwrap();
    assert_eq!(check_vault_size(MAX_FILE + 1).unwrap_err(), Error::VaultGrew);
    check_vault_directory(true, 0o40700).unwrap();
    assert_eq!(
        check_vault_directory(false, 0o700).unwrap_err(),
        Error::VaultDirectory
    );
    assert_eq!(
        check_vault_directory(true, 0o701).unwrap_err(),
        Error::VaultDirectory
    );
}

#[test]
fn only_the_file_that_was_read_is_replaced() {
    let missing = || Error::Outside("no such file".into());
    let broken = || Error::Outside("no permission".into());
    let mut vault = Vault::default();
    vault.check_source(Found::Absent(missing())).unwrap();
    assert_eq!(
        vault.check_source(Found::File(Vec::new())).unwrap_err(),
        Error::VaultExists
    );
    assert_eq!(
        vault.check_source(Found::Failed(broken())).unwrap_err(),
        broken()
    );
    vault.written(vec![1, 2]);
    vault.check_source(Found::File(vec![1, 2])).unwrap();
    assert_eq!(
        vault.check_source(Found::File(vec![1, 3])).unwrap_err(),
        Error::VaultChanged
    );
    // The error of reading the file stands.
    assert_eq!(
        vault.check_source(Found::Absent(missing())).unwrap_err(),
        missing()
    );
    assert_eq!(
        vault.check_source(Found::Failed(broken())).unwrap_err(),
        broken()
    );
}

#[test]
fn nothing_follows_a_vault_and_nothing_is_missing() {
    let mut vault = Vault::default();
    vault.add_master("main", secret(vec![0; 16])).unwrap();
    vault.remember_recipient(&Pubkey::new_from_array([8; 32]));
    let bytes = vault.encode().ok().unwrap();
    let mut longer = bytes.as_slice().to_vec();
    longer.push(0);
    assert_eq!(
        Vault::decode(&longer, VERSION).err().unwrap(),
        Error::TrailingData
    );
    for n in 0..bytes.len() {
        assert!(Vault::decode(&bytes.as_slice()[..n], VERSION).is_err());
    }
}

#[test]
fn changed_files_do_not_read_as_the_same_vault() {
    let mut vault = Vault::default();
    vault.add_master("main", secret(vec![0; 16])).unwrap();
    let session = test_session();
    let file = session.seal(&vault, &[3; 12]).unwrap();
    let read = session.load(file.clone()).ok().unwrap();
    // What is read is sealed to the same file with the same nonce.
    assert_eq!(session.seal(&read, &[3; 12]).unwrap(), file);
    for i in 0..file.len() {
        let mut changed = file.clone();
        changed[i] ^= 1;
        assert!(session.load(changed).is_err());
    }
}
