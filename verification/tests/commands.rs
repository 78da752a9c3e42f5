use ed25519_dalek::Verifier;
use serde_json::Value;
use solana_message::VersionedMessage;
use solana_transaction::versioned::VersionedTransaction;
use solx::amount::{format_amount, parse_amount};
use solx::args::{parse_close_selection, parse_export, ExportKind, Options};
use solx::close::{close_batch_fits, close_eligibility, CloseCandidate, CloseEligibility};
use solx::error::Error;
use solx::instruction::{
    ata, close_token_account, set_compute_unit_limit, system_transfer, transfer_checked,
    tuned_compute_limit, AccountMeta, Instruction, NATIVE_MINT, NATIVE_MINT_2022, SYSTEM, TOKEN,
    TOKEN_2022,
};
use solx::json::Json;
use solx::pubkey::Pubkey;
use solx::rpc::TokenAccount;
use solx::secret::SecretBytes;
use solx::signer::Keypair;
use solx::transaction::{
    compile_unsigned, ensure_all_would_drain, output_rule, render_simulation, sign_v0,
    spend_all_lamports, MAX_TRANSACTION_BYTES,
};
use solx::vault::{RecoveryPhraseUse, Vault};
use solx::wallet::{
    confirm_delete, confirm_erase, decode_base58_keypair, delete_prompt, export_prompt,
    export_wallet, DeleteNext,
};

fn json(value: &Value) -> Json {
    parsed(&value.to_string())
}

fn parsed(text: &str) -> Json {
    Json::parse(text.as_bytes()).ok().unwrap()
}

fn texts(words: &[&str]) -> Vec<String> {
    words.iter().map(|w| (*w).to_owned()).collect()
}

fn key(bytes: [u8; 32]) -> Pubkey {
    Pubkey::new_from_array(bytes)
}

fn token_ata(owner: &Pubkey, mint: &Pubkey, program: &Pubkey) -> Pubkey {
    ata(owner, mint, program).ok().unwrap()
}

fn keypair_of(bytes: &[u8]) -> Keypair {
    Keypair::try_from(bytes).ok().unwrap()
}

/// Asks for a wallet's secret as a terminal does: what was shown, and how it ended.
fn export(
    data: &Vault,
    name: &str,
    kind: ExportKind,
    mut read_line: impl FnMut() -> Option<String>,
) -> (String, Result<(), Error>) {
    let mut output = match export_prompt(data, name, kind) {
        Ok(prompt) => prompt,
        Err(error) => return (String::new(), Err(error)),
    };
    match export_wallet(data, name, kind, read_line().as_deref()) {
        Ok(secret) => {
            output.push_str(secret.as_str());
            (output, Ok(()))
        }
        Err(error) => (output, Err(error)),
    }
}

/// Asks whether to delete a wallet as a terminal does.
fn ask_delete(
    data: &Vault,
    name: &str,
    mut read_line: impl FnMut() -> Option<String>,
) -> Result<bool, Error> {
    let (_, usage) = delete_prompt(data, name)?;
    match confirm_delete(name, usage, read_line().as_deref())? {
        DeleteNext::Delete => Ok(false),
        DeleteNext::AskErase => confirm_erase(read_line().as_deref()),
    }
}

#[test]
fn export_requires_exactly_one_supported_format() {
    for args in [
        vec![],
        vec!["main"],
        vec!["main", "--base58"],
        vec!["main", "--private-key", "--mnemonic"],
        vec!["main", "--private-key", "--private-key"],
    ] {
        let args: Vec<String> = args.into_iter().map(str::to_owned).collect();
        assert!(parse_export(&args).is_err());
    }
    for flag in ["--private-key", "--mnemonic"] {
        assert_eq!(
            parse_export(&["main".into(), flag.into()]).unwrap().0,
            "main"
        );
    }
}

#[test]
fn private_key_exports_round_trip_for_derived_and_imported_wallets() {
    let mut data = Vault::default();
    data.add_master("main", SecretBytes::new(vec![0; 32])).unwrap();
    data.add_derived("child").unwrap();
    let imported = Keypair::new_from_array([7; 32]).to_keypair_bytes();
    data.add_imported("imported", imported).unwrap();
    for name in ["main", "child", "imported"] {
        let mut prompts = 0;
        let (text, result) = export(&data, name, ExportKind::PrivateKey, || {
            prompts += 1;
            Some(name.into())
        });
        result.unwrap();
        assert_eq!(prompts, 1);
        let key = text
            .split("Private key (base58):\n")
            .nth(1)
            .unwrap()
            .lines()
            .next()
            .unwrap();
        let bytes = decode_base58_keypair(key).ok().unwrap();
        assert_eq!(
            bytes.as_array(),
            data.signer(name).ok().unwrap().to_keypair_bytes().as_array()
        );
        assert_eq!(
            keypair_of(&bytes.as_array()[..]).pubkey(),
            data.account(name).ok().unwrap().pubkey
        );
        assert!(!text.contains("Recovery phrase:"));
        if name != "imported" {
            assert!(!text.contains(data.mnemonic(name).ok().unwrap().as_str()));
        }
    }
}

#[test]
fn mnemonic_export_shows_the_selected_wallet_path() {
    let mut data = Vault::default();
    data.add_master("main", SecretBytes::new(vec![0; 32])).unwrap();
    data.add_derived("child").unwrap();
    let (text, result) = export(&data, "child", ExportKind::Mnemonic, || Some("child".into()));
    result.unwrap();
    assert!(text.contains("Derivation path: m/44'/501'/1'/0'"));
    assert!(text.contains("same master"));
    assert!(text.contains(data.mnemonic("child").ok().unwrap().as_str()));
    assert!(!text.contains("Private key (base58):"));
}

#[test]
fn export_cancellation_and_unavailable_secrets_never_reveal_keys() {
    let mut data = Vault::default();
    data.add_master("main", SecretBytes::new(vec![0; 32])).unwrap();
    data.add_imported("imported", Keypair::new_from_array([7; 32]).to_keypair_bytes())
        .unwrap();
    let expected_key = bs58::encode(
        &data.signer("main").ok().unwrap().to_keypair_bytes().as_array()[..],
    )
    .into_string();
    for kind in [ExportKind::PrivateKey, ExportKind::Mnemonic] {
        for answer in [None, Some("wrong".to_owned())] {
            let (text, result) = export(&data, "main", kind, || answer.clone());
            assert_eq!(result.unwrap_err().message(), "export cancelled");
            assert!(!text.contains(&expected_key));
            assert!(!text.contains(data.mnemonic("main").ok().unwrap().as_str()));
            assert!(!text.contains("Recovery phrase:"));
            assert!(!text.contains("Private key (base58):"));
        }
    }
    for (name, kind) in [
        ("imported", ExportKind::Mnemonic),
        ("unknown", ExportKind::PrivateKey),
    ] {
        let (output, result) = export(&data, name, kind, || panic!("must fail before prompting"));
        assert!(result.is_err());
        assert!(output.is_empty());
    }
}

#[test]
fn simulation_output_keeps_logs_bounded_and_failures_visible() {
    let logs = vec![Value::String(format!("\u{1b}[31m{}", "x".repeat(400))); 22];
    let mut members = serde_json::Map::new();
    members.insert("err".into(), Value::Null);
    members.insert("unitsConsumed".into(), Value::from(5123));
    members.insert("logs".into(), Value::Array(logs));
    let simulation = json(&Value::Object(members));
    let (output, result) = render_simulation(&simulation, false, "CU probe");
    result.unwrap();
    assert!(output.is_empty());
    let (text, result) = render_simulation(&simulation, true, "Simulation");
    result.unwrap();
    assert!(text.contains("Simulation: OK"));
    assert!(text.contains("Compute units: 5123"));
    assert!(text.contains("2 more log entries"));
    assert!(!text.contains('\u{1b}'));
    assert_eq!(
        text.lines()
            .filter(|line| line.starts_with("  [31m"))
            .count(),
        20
    );
    assert!(text
        .lines()
        .filter(|line| line.starts_with("  [31m"))
        .all(|line| line.chars().count() == 302));
    let failed = parsed(r#"{"err": "insufficient funds", "logs": ["Program failed"]}"#);
    let (text, result) = render_simulation(&failed, true, "Simulation");
    assert!(result.is_err());
    assert!(text.contains("FAILED"));
    assert!(text.contains("insufficient funds"));
    assert!(text.contains("Program failed"));
    assert!(text.trim_end().ends_with(output_rule()));
    let (output, result) = render_simulation(&failed, false, "Simulation");
    assert!(result.unwrap_err().message().contains("insufficient funds"));
    assert!(output.is_empty());
    assert!(render_simulation(&parsed("{}"), true, "Simulation").1.is_err());
}

#[test]
fn simulation_output_is_exact() {
    let rule = output_rule();
    assert_eq!(rule, "-".repeat(48));
    let failed = parsed(r#"{"err": {"code": 1}, "logs": ["a\nb", 7]}"#);
    let (text, result) = render_simulation(&failed, true, "Simulation");
    assert_eq!(
        text,
        format!(
            "\n{rule}\nSimulation: FAILED\nCompute units: unavailable\nReason: {{\"code\":1}}\n\nLogs:\n  a\n  b\n{rule}\n\n"
        )
    );
    assert_eq!(
        result.unwrap_err().message(),
        "Simulation failed; transaction not sent"
    );
    let (_, result) = render_simulation(&failed, false, "CU probe");
    assert_eq!(result.unwrap_err().message(), "CU probe failed: {\"code\":1}");
    let (_, result) = render_simulation(&parsed("{}"), false, "CU probe");
    assert_eq!(
        result.unwrap_err().message(),
        "simulation result is missing err field"
    );
}

#[test]
fn deletion_confirms_name_and_only_offers_erasure_for_unused_phrases() {
    let mut vault = Vault::default();
    vault.add_master("main", SecretBytes::new(vec![0; 32])).unwrap();
    assert!(ask_delete(&vault, "main", || None).is_err());
    assert!(ask_delete(&vault, "main", || Some("wrong".into())).is_err());
    let mut keep = [Some("main".to_owned()), Some("".into())].into_iter();
    assert!(!ask_delete(&vault, "main", || keep.next().unwrap()).unwrap());
    let mut erase = [Some("main".to_owned()), Some("ERASE".into())].into_iter();
    assert!(ask_delete(&vault, "main", || erase.next().unwrap()).unwrap());
    let mut closed = [Some("main".to_owned()), None].into_iter();
    assert!(ask_delete(&vault, "main", || closed.next().unwrap()).is_err());
    assert!(vault.contains("main")); // Prompts/cancellation do not mutate the vault.
    vault.add_derived("child").unwrap();
    let mut calls = 0;
    assert!(!ask_delete(&vault, "main", || {
        calls += 1;
        Some("main".into())
    })
    .unwrap());
    assert_eq!(calls, 1); // No erasure prompt for a phrase still in use.
}

#[test]
fn delete_prompts_tell_what_becomes_of_the_phrase() {
    let mut vault = Vault::default();
    vault.add_master("main", SecretBytes::new(vec![0; 32])).unwrap();
    let address = vault.account("main").ok().unwrap().pubkey.text();
    let (text, usage) = delete_prompt(&vault, "main").unwrap();
    assert_eq!(usage, RecoveryPhraseUse::UnusedAfterDeletion);
    assert_eq!(
        text,
        format!(
            "Delete local wallet: main\nAddress: {address}\nFunds stay on-chain. Keep a backup if you need access later.\nNo other saved wallet uses this recovery phrase.\nType 'main' to delete this wallet: "
        )
    );
    assert_eq!(
        delete_prompt(&vault, "other").unwrap_err(),
        Error::UnknownWallet
    );
}

#[test]
fn amount_exactness() {
    assert_eq!(parse_amount("1.000000001", 9).unwrap(), 1_000_000_001);
    assert_eq!(parse_amount("0.001", 3).unwrap(), 1);
    assert!(parse_amount("0.0001", 3).is_err());
    assert!(parse_amount("-1", 9).is_err());
    assert!(parse_amount("18446744073709551616", 0).is_err());
}

#[test]
fn amounts_are_refused_for_a_reason() {
    assert_eq!(parse_amount("1", 20).unwrap_err(), Error::AmountPrecision);
    assert_eq!(parse_amount("", 9).unwrap_err(), Error::AmountInvalid);
    assert_eq!(parse_amount("+1", 9).unwrap_err(), Error::AmountInvalid);
    assert_eq!(parse_amount(".5", 9).unwrap_err(), Error::AmountPlaces);
    assert_eq!(parse_amount("1.2.3", 9).unwrap_err(), Error::AmountPlaces);
    assert_eq!(parse_amount("1.23", 1).unwrap_err(), Error::AmountPlaces);
    assert_eq!(parse_amount("2", 19).unwrap_err(), Error::AmountOverflow);
    assert_eq!(
        parse_amount("18446744073709551616", 0).unwrap_err().message(),
        "18446744073709551616".parse::<u64>().unwrap_err().to_string()
    );
    assert_eq!(parse_amount("7.", 2).unwrap(), 700);
    assert_eq!(
        parse_amount("1.8446744073709551615", 19).unwrap(),
        u64::MAX
    );
}

#[test]
fn formatted_amounts_read_back() {
    for (amount, decimals, text) in [
        (0, 9, "0"),
        (1, 9, "0.000000001"),
        (1_500_000_000, 9, "1.5"),
        (42, 0, "42"),
        (u64::MAX, 19, "1.8446744073709551615"),
    ] {
        assert_eq!(format_amount(amount, decimals), text);
        assert_eq!(parse_amount(text, decimals).unwrap(), amount);
    }
    assert_eq!(format_amount(5, 20), "5 base units (decimals 20)");
}

#[test]
fn transfer_all_reserves_quoted_fee_and_requires_zero_remainder() {
    assert_eq!(spend_all_lamports(10_000, 5_000).unwrap(), 5_000);
    assert_eq!(spend_all_lamports(42, 0).unwrap(), 42);
    assert!(spend_all_lamports(5_000, 5_000).is_err());
    assert!(spend_all_lamports(4_999, 5_000).is_err());
    let source = key([7; 32]);
    let target = key([8; 32]);
    let instruction = system_transfer(&source, &target, 5_000);
    assert_eq!(instruction.program_id, key(SYSTEM));
    assert_eq!(instruction.data[..4], 2u32.to_le_bytes());
    assert_eq!(instruction.data[4..], 5_000u64.to_le_bytes());
    let unsigned = compile_unsigned(&source, &vec![instruction], &[0; 32])
        .ok()
        .unwrap();
    let message: VersionedMessage = wincode::deserialize(&unsigned.message).unwrap();
    let VersionedMessage::V0(message) = message else {
        panic!("expected v0 message");
    };
    assert_eq!(message.instructions[0].data[4..], 5_000u64.to_le_bytes());
    assert!(ensure_all_would_drain(&parsed(r#"{"postBalances": [0, 5000]}"#)).is_ok());
    assert!(ensure_all_would_drain(&parsed(r#"{"postBalances": [1]}"#)).is_err());
    assert!(ensure_all_would_drain(&parsed(r#"{"postBalances": null}"#)).is_err());
}

#[test]
fn token_instruction_layout() {
    let owner = key([7; 32]);
    let mint = key([8; 32]);
    let source = token_ata(&owner, &mint, &key(TOKEN));
    assert_ne!(source, token_ata(&owner, &mint, &key(TOKEN_2022)));
    let ix = transfer_checked(&source, &mint, &source, &owner, 42, 6, key(TOKEN));
    assert_eq!(ix.data, [12, 42, 0, 0, 0, 0, 0, 0, 0, 6]);
    assert_eq!(close_token_account(&source, &owner, key(TOKEN)).data, [9]);
}

#[test]
fn close_selection_requires_ata_and_burn_for_nonempty() {
    let owner = key([7; 32]);
    let mint = key([8; 32]);
    let address = token_ata(&owner, &mint, &key(TOKEN));
    let account = |address, raw_amount| TokenAccount {
        address,
        mint,
        raw_amount,
        decimals: 6,
        display_amount: "0".into(),
    };
    assert!(matches!(
        close_eligibility(&owner, key(TOKEN), &account(address, 0), false),
        Ok(CloseEligibility::Eligible(_))
    ));
    assert!(matches!(
        close_eligibility(&owner, key(TOKEN), &account(address, 1), false),
        Ok(CloseEligibility::NonEmpty)
    ));
    assert!(matches!(
        close_eligibility(&owner, key(TOKEN), &account(key([9; 32]), 0), false),
        Ok(CloseEligibility::NonAssociated)
    ));
    let Ok(CloseEligibility::Eligible(candidate)) =
        close_eligibility(&owner, key(TOKEN), &account(address, 42), true)
    else {
        panic!("--burn should select non-empty ATA");
    };
    assert_eq!(candidate.raw_amount, 42);
    let mut instructions = Vec::new();
    candidate.append_instructions(&owner, &mut instructions);
    assert_eq!(instructions.len(), 2);
    assert_eq!(instructions[0].data, [15, 42, 0, 0, 0, 0, 0, 0, 0, 6]);
    assert_eq!(instructions[1].data, [9]);
    assert_eq!(instructions[0].accounts[1].pubkey, mint);
    assert!(instructions[0].accounts[1].is_writable);
    assert!(instructions[0].accounts[2].is_signer);
}

#[test]
fn close_selection_and_packet_bound() {
    let selection =
        parse_close_selection(&["--wallet".into(), "main".into(), "--all".into()]).unwrap();
    assert_eq!(selection.wallet.as_deref(), Some("main"));
    assert!(selection.all);
    assert!(!selection.burn);
    assert!(
        parse_close_selection(&["--burn".into(), "--all".into()])
            .unwrap()
            .burn
    );
    assert!(parse_close_selection(&["--burn".into(), "--burn".into(), "--all".into()]).is_err());
    assert!(parse_close_selection(&[]).is_err());
    assert!(parse_close_selection(&["--all".into(), "mint".into()]).is_err());

    let owner = key([1; 32]);
    let mut instructions = Vec::new();
    let mut fitting = 0;
    for index in 10..50 {
        let address = key([index; 32]);
        instructions.push(close_token_account(&address, &owner, key(TOKEN)));
        if !close_batch_fits(&owner, &instructions, true).unwrap() {
            break;
        }
        fitting += 1;
    }
    assert!(fitting > 8);
    assert!(fitting < 40);
}

#[test]
fn close_selections_are_refused_for_a_reason() {
    let refused = |words: &[&str]| parse_close_selection(&texts(words)).err().unwrap();
    assert_eq!(
        refused(&["--wallet", "a", "--wallet", "b"]),
        Error::DuplicateWallet
    );
    assert_eq!(refused(&["--all", "--wallet"]), Error::WalletNeedsName);
    assert_eq!(refused(&["--all", "--all"]), Error::DuplicateAll);
    assert_eq!(refused(&["--burn", "--burn"]), Error::DuplicateBurn);
    assert_eq!(refused(&["-x"]), Error::UnknownCloseOption);
    assert_eq!(refused(&["--burn"]), Error::CloseTarget);
    assert_eq!(refused(&vec!["m"; 513]), Error::TooManyMints);
    let selection = parse_close_selection(&texts(&["m", "--burn", "n"])).ok().unwrap();
    assert_eq!(selection.mints, ["m", "n"]);
    assert!(selection.burn && !selection.all && selection.wallet.is_none());
}

#[test]
fn options_are_refused_for_a_reason() {
    let allowed = ["wallet", "limit"];
    let refused = |words: &[&str]| Options::parse(&texts(words), &allowed).err().unwrap();
    assert_eq!(refused(&["wallet"]), Error::OptionExpected);
    assert_eq!(refused(&["--other", "x"]), Error::UnknownOption);
    assert_eq!(
        refused(&["--wallet", "a", "--wallet", "b"]),
        Error::DuplicateOption
    );
    assert_eq!(refused(&["--wallet"]), Error::MissingValue);
    assert_eq!(refused(&["--wallet", "--limit"]), Error::MissingValue);
    let words = texts(&["--limit", "5", "--wallet", "a"]);
    let options = Options::parse(&words, &allowed).ok().unwrap();
    assert_eq!(options.get("wallet"), Some("a"));
    assert_eq!(options.get("limit"), Some("5"));
    assert_eq!(options.get("other"), None);
    assert_eq!(options.required("to").unwrap_err().message(), "missing --to");
}

#[test]
fn wrapped_sol_closes_without_burn_and_cu_limit_is_bounded() {
    let owner = key([7; 32]);
    for (mint, program) in [(NATIVE_MINT, TOKEN), (NATIVE_MINT_2022, TOKEN_2022)] {
        let (mint, program) = (key(mint), key(program));
        let candidate = CloseCandidate {
            mint,
            address: token_ata(&owner, &mint, &program),
            program,
            raw_amount: 1_000_000,
            decimals: 9,
        };
        assert!(!candidate.requires_burn());
        let mut instructions = Vec::new();
        candidate.append_instructions(&owner, &mut instructions);
        assert_eq!(instructions.len(), 1);
        assert_eq!(instructions[0].data, [9]);
    }
    assert_eq!(tuned_compute_limit(10_000, 10).unwrap(), 11_000);
    assert_eq!(tuned_compute_limit(1_000, 0).unwrap(), 2_000);
    assert_eq!(tuned_compute_limit(1_390_000, 10).unwrap(), 1_400_000);
    assert!(tuned_compute_limit(0, 10).is_err());
    assert!(tuned_compute_limit(1_400_001, 10).is_err());
    assert_eq!(set_compute_unit_limit(11_000).data, [2, 248, 42, 0, 0]);
}

#[test]
fn burn_and_close_compile_with_budget_in_order() {
    let owner = key([7; 32]);
    let mint = key([8; 32]);
    let candidate = CloseCandidate {
        mint,
        address: token_ata(&owner, &mint, &key(TOKEN)),
        program: key(TOKEN),
        raw_amount: 42,
        decimals: 6,
    };
    let mut instructions = vec![set_compute_unit_limit(20_000)];
    candidate.append_instructions(&owner, &mut instructions);
    let unsigned = compile_unsigned(&owner, &instructions, &[0; 32]).ok().unwrap();
    let wire = unsigned.wire;
    assert!(wire.len() <= MAX_TRANSACTION_BYTES);
    let decoded: VersionedTransaction = wincode::deserialize(&wire).unwrap();
    assert_eq!(
        decoded,
        VersionedTransaction {
            signatures: vec![solana_transaction::Signature::default()],
            message: wincode::deserialize(&unsigned.message).unwrap(),
        }
    );
    assert_eq!(wincode::serialize(&decoded).unwrap(), wire);
    let VersionedMessage::V0(message) = decoded.message else {
        panic!("expected v0 message");
    };
    assert_eq!(message.instructions.len(), 3);
    assert_eq!(
        message.instructions[0].data,
        set_compute_unit_limit(20_000).data
    );
    assert_eq!(message.instructions[1].data, instructions[1].data);
    assert_eq!(message.instructions[2].data, [9]);
}

#[test]
fn base58_import_accepts_quoted_seed_and_keypair() {
    let seed = [7u8; 32];
    let expected = Keypair::new_from_array(seed).pubkey();
    let quoted_seed = format!("\"{}\"", bs58::encode(seed).into_string());
    let decoded = decode_base58_keypair(&quoted_seed).ok().unwrap();
    assert_eq!(keypair_of(&decoded.as_array()[..]).pubkey(), expected);

    let mut keypair = [0u8; 64];
    keypair[..32].copy_from_slice(&seed);
    keypair[32..].copy_from_slice(expected.as_array());
    let quoted_keypair = format!("'{}'", bs58::encode(keypair).into_string());
    assert_eq!(
        decode_base58_keypair(&quoted_keypair).ok().unwrap().as_array(),
        &keypair
    );

    keypair[32] ^= 1;
    assert!(decode_base58_keypair(&bs58::encode(keypair).into_string()).is_err());
}

#[test]
fn base58_imports_are_refused_for_a_reason() {
    let refused = |text: &str| decode_base58_keypair(text).err().unwrap();
    let short = bs58::encode([7u8; 31]).into_string();
    assert_eq!(refused(&short), Error::KeyLength);
    let mut buffer = [0u8; 64];
    assert_eq!(
        refused("0").message(),
        bs58::decode("0").onto(&mut buffer[..]).unwrap_err().to_string()
    );
    let long = bs58::encode([7u8; 65]).into_string();
    assert_eq!(
        refused(&long).message(),
        bs58::decode(&long).onto(&mut buffer[..]).unwrap_err().to_string()
    );
    assert_eq!(
        refused(&bs58::encode([1u8; 64]).into_string()),
        Error::KeypairMismatch
    );
}

#[test]
fn v0_transaction_wincode_round_trip() {
    let signer = Keypair::new_from_array([7; 32]);
    let destination = key([9; 32]);
    let mut data = Vec::with_capacity(12);
    data.extend_from_slice(&2u32.to_le_bytes());
    data.extend_from_slice(&100u64.to_le_bytes());
    let instruction = Instruction {
        program_id: key(SYSTEM),
        accounts: vec![
            AccountMeta::new(signer.pubkey(), true),
            AccountMeta::new(destination, false),
        ],
        data,
    };
    let message = compile_unsigned(&signer.pubkey(), &vec![instruction], &[8; 32])
        .ok()
        .unwrap()
        .message;
    assert!(sign_v0(message.clone(), &Keypair::new_from_array([8; 32])).is_err());
    let transaction = sign_v0(message, &signer).ok().unwrap();
    let wire = transaction.wire();
    let decoded: VersionedTransaction = wincode::deserialize(&wire).unwrap();
    assert!(matches!(decoded.message, VersionedMessage::V0(_)));
    assert_eq!(decoded.signatures[0].as_array(), &transaction.signature);
    assert_eq!(
        decoded.signatures[0].to_string(),
        transaction.signature_text()
    );
    assert_eq!(decoded.signatures.len(), 1);
    let verifying_key =
        ed25519_dalek::VerifyingKey::from_bytes(signer.pubkey().as_array()).unwrap();
    let signature = ed25519_dalek::Signature::from_bytes(decoded.signatures[0].as_array());
    verifying_key
        .verify(&wincode::serialize(&decoded.message).unwrap(), &signature)
        .unwrap();
    assert_eq!(wincode::serialize(&decoded).unwrap(), wire);
}

#[test]
fn messages_of_several_signers_are_not_signed() {
    let signer = Keypair::new_from_array([7; 32]);
    let instruction = Instruction {
        program_id: key(SYSTEM),
        accounts: vec![AccountMeta::new(key([9; 32]), true)],
        data: Vec::new(),
    };
    let message = compile_unsigned(&signer.pubkey(), &vec![instruction], &[8; 32])
        .ok()
        .unwrap()
        .message;
    assert_eq!(
        sign_v0(message, &signer).err().unwrap(),
        Error::SignerMismatch
    );
    assert_eq!(
        sign_v0(vec![1, 2, 3], &signer).err().unwrap(),
        Error::SignerMismatch
    );
}

#[test]
fn large_transactions_are_refused() {
    let payer = key([1; 32]);
    let mut instructions = Vec::new();
    for index in 10..60 {
        instructions.push(close_token_account(&key([index; 32]), &payer, key(TOKEN)));
    }
    assert_eq!(
        compile_unsigned(&payer, &instructions, &[0; 32]).err().unwrap(),
        Error::PacketLimit
    );
}
