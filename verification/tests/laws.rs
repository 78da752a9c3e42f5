use solx::close::CloseCandidate;
use solx::codec::VERSION;
use solx::edit_line::EditLine;
use solx::error::Error;
use solx::history::CommandHistory;
use solx::instruction::{
    tuned_compute_limit, ASSOCIATED_TOKEN, COMPUTE_BUDGET, MAX_COMPUTE_UNITS, NATIVE_MINT,
    NATIVE_MINT_2022, SYSTEM, TOKEN, TOKEN_2022,
};
use solx::mnemonic::{phrase, Mnemonic};
use solx::pubkey::Pubkey;
use solx::secret::{SecretArray, SecretBytes};
use solx::session::{Session, SessionKey};
use solx::signer::Keypair;
use solx::text::{
    contains, decimal, first_word, hexadecimal, parse_number, starts_with, strip_prefix,
    strip_suffix, trim, trim_line_end, words,
};
use solx::vault::{AccountKind, Vault};

fn secret(bytes: Vec<u8>) -> SecretBytes {
    SecretBytes::new(bytes)
}

fn filled_vault() -> Vault {
    let mut vault = Vault::default();
    vault.add_master("main", secret(vec![1; 16])).unwrap();
    vault.add_master("other", secret(vec![2; 32])).unwrap();
    vault.add_derived("child").unwrap();
    vault
        .add_imported("key", Keypair::new_from_array([7; 32]).to_keypair_bytes())
        .unwrap();
    vault.remember_recipient(&Pubkey::new_from_array([9; 32]));
    vault
}

#[test]
fn written_numbers_read_back() {
    for n in [0, 7, 10, u64::MAX] {
        assert_eq!(decimal(n as u128), n.to_string());
        assert_eq!(parse_number(&decimal(n as u128), u64::MAX).unwrap(), n);
    }
    assert_eq!(parse_number("", 9).unwrap_err(), Error::NumberEmpty);
    assert_eq!(parse_number("1x", 9).unwrap_err(), Error::NumberDigit);
    assert_eq!(parse_number("10", 9).unwrap_err(), Error::NumberTooLarge);
    assert_eq!(hexadecimal(0xab, 4), "00ab");
}

#[test]
fn texts_are_taken_apart() {
    assert_eq!(trim(" \u{a0}a b\n"), "a b");
    assert_eq!(words("  a\t b "), ["a", "b"]);
    for code in 0..=0xffff {
        if let Some(c) = char::from_u32(code) {
            let text = c.to_string();
            assert_eq!(trim(&text).is_empty(), c.is_whitespace());
        }
    }
    let white: Vec<u32> = (0..=0x10ffff)
        .filter(|code| char::from_u32(*code).is_some_and(char::is_whitespace))
        .collect();
    assert_eq!(white.len(), 25);
    assert_eq!(white[5..9], [0x20, 0x85, 0xa0, 0x1680]);
    assert_eq!(white[9..20], (0x2000..=0x200a).collect::<Vec<u32>>());
    assert_eq!(white[20..], [0x2028, 0x2029, 0x202f, 0x205f, 0x3000]);
    assert_eq!(first_word("  a b").as_deref(), Some("a"));
    assert_eq!(trim_line_end("a \r\n\n"), "a ");
    assert!(contains("abcabd", "abd"));
    assert!(!contains("abcab", "abd"));
    assert!(starts_with("--x", "--"));
    assert_eq!(strip_prefix("--x", "--"), Some("x"));
    assert_eq!(strip_suffix("x'", "'"), Some("x"));
    assert_eq!(strip_suffix("x", "'"), None);
}

#[test]
fn vaults_read_back_what_they_write() {
    let vault = filled_vault();
    let bytes = vault.encode().ok().unwrap();
    let read = Vault::decode(bytes.as_slice(), VERSION).ok().unwrap();
    assert_eq!(read.encode().ok().unwrap().as_slice(), bytes.as_slice());
    assert_eq!(read.accounts.len(), 4);
    for (a, b) in vault.accounts.iter().zip(&read.accounts) {
        assert_eq!(a.name, b.name);
        assert_eq!(a.pubkey, b.pubkey);
    }
    assert_eq!(read.recipients, vault.recipients);
    let session = Session::from_key([1; 16], SessionKey::new([2; 32]));
    let file = session.seal(&vault, &[3; 12]).unwrap();
    let opened = session.load(file.clone()).ok().unwrap();
    assert_eq!(opened.encode().ok().unwrap().as_slice(), bytes.as_slice());
    assert_eq!(opened.source_bytes, Some(file));
}

#[test]
fn counters_stay_and_grow() {
    let mut vault = filled_vault();
    assert_eq!(vault.masters[0].next_index, 2);
    vault.remove_account("child", false).unwrap();
    assert_eq!(vault.masters[0].next_index, 2);
    vault.remove_account("other", true).unwrap();
    assert_eq!(vault.masters.len(), 1);
    assert_eq!(vault.masters[0].next_index, 2);
    vault.add_derived("again").unwrap();
    assert!(matches!(
        vault.account("again").ok().unwrap().kind,
        AccountKind::Derived {
            master: 0,
            index: 2
        }
    ));
    assert_eq!(vault.masters[0].next_index, 3);
}

#[test]
fn the_next_wallet_becomes_the_first() {
    let mut vault = filled_vault();
    vault.remove_account("main", false).unwrap();
    assert_eq!(vault.first_name().unwrap(), "other");
    vault.remove_account("other", true).unwrap();
    assert_eq!(vault.first_name().unwrap(), "child");
    assert!(vault.signer("child").is_ok());
    assert!(vault.signer("key").is_ok());
}

#[test]
fn limits_of_a_vault_are_kept() {
    let mut vault = Vault::default();
    let bytes = *Keypair::new_from_array([7; 32]).to_keypair_bytes().as_array();
    for i in 0..128 {
        vault
            .add_imported(&format!("a{i}"), SecretArray::new(bytes))
            .unwrap();
    }
    assert_eq!(
        vault
            .add_imported("more", SecretArray::new(bytes))
            .unwrap_err(),
        Error::AccountLimit
    );
    for i in 0..300u32 {
        let mut address = [0; 32];
        address[..4].copy_from_slice(&i.to_le_bytes());
        vault.remember_recipient(&Pubkey::new_from_array(address));
    }
    assert_eq!(vault.recipients.len(), 256);
    let mut vault = Vault::default();
    for i in 0..32 {
        vault
            .add_master(&format!("m{i}"), secret(vec![i; 16]))
            .unwrap();
    }
    assert_eq!(
        vault.add_master("more", secret(vec![0; 16])).unwrap_err(),
        Error::MasterLimit
    );
}

#[test]
fn phrases_read_back_their_entropy() {
    for len in [16, 20, 24, 28, 32] {
        let entropy = vec![7; len];
        let text = phrase(&entropy).ok().unwrap();
        let read = Mnemonic::parse(text.as_str()).ok().unwrap();
        assert_eq!(read.to_entropy().as_slice(), entropy);
        assert_eq!(read.phrase().as_str(), text.as_str());
    }
}

#[test]
fn closing_is_signed_by_the_owner_alone() {
    let owner = Pubkey::new_from_array([1; 32]);
    let candidate = CloseCandidate {
        mint: Pubkey::new_from_array([2; 32]),
        address: Pubkey::new_from_array([3; 32]),
        program: Pubkey::new_from_array(TOKEN),
        raw_amount: 5,
        decimals: 0,
    };
    let mut instructions = Vec::new();
    candidate.append_instructions(&owner, &mut instructions);
    assert_eq!(instructions.len(), 2);
    for instruction in &instructions {
        for account in &instruction.accounts {
            assert!(!account.is_signer || account.pubkey == owner);
        }
    }
}

#[test]
fn limits_cover_the_usage() {
    for used in [1, 999, 10_000, 1_399_999, 1_400_000] {
        for margin in [0, 10, 100] {
            let limit = tuned_compute_limit(used, margin).unwrap();
            assert!(u64::from(limit) >= used);
            assert!(limit <= MAX_COMPUTE_UNITS);
        }
    }
}

#[test]
fn moving_and_erasing_undo() {
    let mut line = EditLine::new();
    line.insert("aé");
    line.left();
    line.right();
    assert_eq!((line.text(), line.cursor()), ("aé", 3));
    line.left();
    line.insert("🦀");
    line.backspace();
    assert_eq!((line.text(), line.cursor()), ("aé", 1));
}

#[test]
fn recalling_goes_back_and_forth() {
    let mut history = CommandHistory::default();
    for command in ["a", "b", "c"] {
        history.remember(command, &[]);
    }
    assert_eq!(history.older("draft"), Some("c"));
    assert_eq!(history.older(""), Some("b"));
    assert_eq!(history.older(""), Some("a"));
    assert_eq!(history.newer(), Some("b"));
    assert_eq!(history.newer(), Some("c"));
    assert_eq!(history.newer(), Some("draft"));
    assert_eq!(history.newer(), None);
}

#[test]
fn well_known_addresses() {
    for (bytes, text) in [
        (SYSTEM, "11111111111111111111111111111111"),
        (TOKEN, "TokenkegQfeZyiNwAJbNbGKPFXCWuBvf9Ss623VQ5DA"),
        (TOKEN_2022, "TokenzQdBNbLqP5VEhdkAS6EPFLC1PHnBqCXEpPxuEb"),
        (ASSOCIATED_TOKEN, "ATokenGPvbdGVxr1b2hvZbsiqW5xWH25efTNsLJA8knL"),
        (COMPUTE_BUDGET, "ComputeBudget111111111111111111111111111111"),
        (NATIVE_MINT, "So11111111111111111111111111111111111111112"),
        (NATIVE_MINT_2022, "9pan9bMn5HatX4EJdBwg9VgCa7Uz5HL8N1m5D3NdXejP"),
    ] {
        assert_eq!(Pubkey::new_from_array(bytes).text(), text);
    }
}
