use solx::args::ExportKind;
use solx::config::{Config, Mode};
use solx::error::Error;
use solx::history::CommandHistory;
use solx::pubkey::Pubkey;
use solx::secret::SecretBytes;
use solx::session::{Session, SessionKey};
use solx::shell::{
    find_command, help, plugins, skipped_wallet, split_config, start, ui, App, Command, Start,
};
use solx::signer::Keypair;
use solx::vault::Vault;
use solx::wallet::{
    balance_lines, check_import, check_keypair_file, check_new_password, empty_list, export_prompt,
    history_limit, history_title, import_base58, import_keypair_file, import_mnemonic, import_numbers, import_source,
    import_warning, init_name, is_default, list, new_master, new_wallet, parse_delete, parse_new,
    show_created, show_deleted, show_wallet, wallet_line, ImportSource,
};

fn texts(words: &[&str]) -> Vec<String> {
    words.iter().map(|w| (*w).to_owned()).collect()
}

fn app(cached: bool) -> App {
    let mut config = Config::default();
    config.security.cache_unlocked_in_shell = cached;
    App {
        config,
        session: Some(Session::from_key([1; 16], SessionKey::new([2; 32]))),
        shell: true,
    }
}

/// Shows the history as the program does, on a vault file that is empty.
fn refresh(app: &mut App, force: bool) -> Result<(), Error> {
    if app.refresh_history(force, None) {
        let loaded = app.session.as_ref().unwrap().load(Vec::new());
        app.end_operation();
        loaded?;
    }
    Ok(())
}

#[test]
fn session_cleanup_covers_command_and_history_result_paths() {
    let mut success = app(false);
    assert!(success.dispatch(&[]).ok().unwrap().is_none());
    assert!(success.session.is_none());
    let mut failure = app(false);
    assert!(failure.dispatch(&["unknown".into()]).is_err());
    assert!(failure.session.is_none());
    let mut history = app(false);
    refresh(&mut history, true).unwrap();
    assert!(history.session.is_none());
    for force in [false, true] {
        let mut history = app(false);
        history.config.history.wallets.push("main".into());
        history.config.history.interval_secs = Some(10);
        assert!(refresh(&mut history, force).is_err());
        assert!(history.session.is_none());
    }
    let mut cached = app(true);
    assert!(cached.dispatch(&[]).ok().unwrap().is_none());
    assert!(cached.session.is_some());
}

#[test]
fn commands_are_found_behind_aliases() {
    let mut app = app(false);
    app.config.aliases.insert("ls".into(), texts(&["list", "--wallet"]));
    let run = app.dispatch(&texts(&["ls", "main"])).ok().unwrap().unwrap();
    assert_eq!(run.command, Command::List);
    assert_eq!(run.args, ["--wallet", "main"]);
    assert!(app.session.is_some());
    app.end_operation();
    assert!(app.session.is_none());
    assert_eq!(
        app.dispatch(&texts(&["x"])).err().unwrap().message(),
        "unknown command 'x'; use 'help'"
    );
    assert_eq!(find_command("close-ata"), Some(Command::CloseAta));
    assert_eq!(find_command("shell"), None);
    assert_eq!(plugins().len(), 13);
}

#[test]
fn the_session_of_a_new_vault_is_kept_in_a_shell() {
    let session = || Session::from_key([3; 16], SessionKey::new([4; 32]));
    let mut kept = app(true);
    kept.lock();
    assert!(kept.session.is_none());
    kept.keep_session(session());
    assert!(kept.session.is_some());
    let mut dropped = app(false);
    dropped.lock();
    dropped.keep_session(session());
    assert!(dropped.session.is_none());
    let mut single = app(true);
    single.lock();
    single.shell = false;
    single.keep_session(session());
    assert!(single.session.is_none());
}

#[test]
fn history_is_due_by_force_or_time() {
    let mut app = app(true);
    assert!(!app.refresh_history(true, None));
    app.config.history.wallets.push("main".into());
    assert!(app.refresh_history(true, Some(0)));
    assert!(!app.refresh_history(false, None));
    app.config.history.interval_secs = Some(10);
    assert!(app.refresh_history(false, None));
    assert!(!app.refresh_history(false, Some(9)));
    assert!(app.refresh_history(false, Some(10)));
}

#[test]
fn shell_lines_are_read() {
    let mut app = app(true);
    app.config.aliases.insert("q".into(), texts(&["exit"]));
    let mut history = CommandHistory::default();
    let words = app.shell_line(&mut history, "  list \t --wallet main\n").unwrap();
    assert_eq!(words, ["list", "--wallet", "main"]);
    assert_eq!(history.older(""), Some("  list \t --wallet main"));
    assert!(app.shell_line(&mut history, "exit now").is_none());
    assert!(app.shell_line(&mut history, "quit\n").is_none());
    // An alias does not leave the shell.
    assert_eq!(app.shell_line(&mut history, "q").unwrap(), ["exit"]);
    assert!(app.shell_line(&mut history, "\n").unwrap().is_empty());
}

#[test]
fn the_program_starts() {
    assert_eq!(start(Mode::Cli, &[]).unwrap(), Start::Shell);
    assert_eq!(start(Mode::Ui, &[]).unwrap_err(), Error::UiSoon);
    assert_eq!(start(Mode::Ui, &texts(&["shell"])).unwrap(), Start::Shell);
    assert_eq!(start(Mode::Cli, &texts(&["list"])).unwrap(), Start::Command);
    let (path, args) = split_config(texts(&["--config", "p", "list"])).unwrap();
    assert_eq!(path.as_deref(), Some("p"));
    assert_eq!(args, ["list"]);
    let (path, args) = split_config(texts(&["list", "--config"])).unwrap();
    assert!(path.is_none());
    assert_eq!(args, ["list", "--config"]);
    assert_eq!(
        split_config(texts(&["--config"])).unwrap_err(),
        Error::ConfigNeedsPath
    );
}

#[test]
fn help_is_shown() {
    let text = help(&[]).unwrap();
    assert!(text.starts_with("Usage: solx [--config PATH] <command> [options]\n"));
    assert!(text.contains("\n  help            show commands\n"));
    assert!(text.contains("\n  token-transfer  send SPL tokens\n"));
    assert!(text.ends_with("solx close-ata [--wallet NAME] [--burn] (--all | MINT [MINT ...])\n"));
    assert_eq!(help(&texts(&["x"])).unwrap_err(), Error::UnexpectedArguments);
    assert_eq!(ui(&[]).unwrap_err().message(), "later");
    assert_eq!(ui(&texts(&["x"])).unwrap_err(), Error::UnexpectedArguments);
}

#[test]
fn wallets_are_created() {
    assert_eq!(init_name(&[]).unwrap(), "main");
    assert_eq!(init_name(&texts(&["a"])).unwrap(), "a");
    assert_eq!(init_name(&texts(&["a b"])).unwrap_err(), Error::InvalidName);
    assert_eq!(init_name(&texts(&["a", "b"])).unwrap_err(), Error::UsageInit);
    assert_eq!(
        check_new_password("a", "b").unwrap_err(),
        Error::PasswordMismatch
    );
    assert_eq!(
        check_new_password("12345678901", "12345678901").unwrap_err(),
        Error::PasswordShort
    );
    check_new_password("123456789012", "123456789012").unwrap();
    let args = texts(&["a", "--new-master"]);
    assert!(parse_new(&args).unwrap().master);
    assert!(!parse_new(&args[..1]).unwrap().master);
    assert_eq!(parse_new(&[]).unwrap_err(), Error::UsageNew);
    assert_eq!(parse_new(&texts(&["a", "b"])).unwrap_err(), Error::UsageNew);
    let mut vault = Vault::default();
    let phrase = new_master(&mut vault, "a", SecretBytes::new(vec![0; 32])).ok().unwrap();
    assert_eq!(phrase.as_str(), format!("{}art", "abandon ".repeat(23)));
    let address = vault.account("a").ok().unwrap().pubkey;
    assert_eq!(
        show_created("a", &address, &phrase).as_str(),
        format!(
            "Created a: {}\nRecovery phrase (shown once; store it securely):\n{}\n",
            address.text(),
            phrase.as_str()
        )
    );
    let fresh = new_wallet(&mut vault, "b").ok().unwrap();
    assert_eq!(fresh.as_str(), vault.mnemonic("b").ok().unwrap().as_str());
    assert_ne!(fresh.as_str(), phrase.as_str());
    assert_eq!(
        new_wallet(&mut vault, "b").err().unwrap(),
        Error::WalletNameExists
    );
}

#[test]
fn keys_are_imported() {
    let mut vault = Vault::default();
    assert_eq!(
        check_import(&texts(&["a"]), true).unwrap_err(),
        Error::UsageImport
    );
    let inline = texts(&["a", "--base58", "key"]);
    assert_eq!(check_import(&inline, false).unwrap_err(), Error::InlineKey);
    check_import(&inline, true).unwrap();
    assert_eq!(
        import_source(&vault, &inline).unwrap(),
        ImportSource::Base58("key".into())
    );
    assert_eq!(
        import_source(&vault, &inline[..2]).unwrap(),
        ImportSource::Base58Prompt
    );
    assert_eq!(
        import_source(&vault, &texts(&["a", "--mnemonic"])).unwrap(),
        ImportSource::Mnemonic
    );
    assert_eq!(
        import_source(&vault, &texts(&["a", "--mnemonic", "x"])).unwrap_err(),
        Error::UsageImport
    );
    let file = import_source(&vault, &texts(&["a", "--keypair-file", "p"])).unwrap();
    assert_eq!(file, ImportSource::KeypairFile("p".into()));
    assert_eq!(
        import_warning(&file),
        "Warning: the source keypair file is still on disk.\n"
    );
    assert_eq!(import_warning(&ImportSource::Mnemonic), "");
    let phrase = format!("{}about", "abandon ".repeat(11));
    import_mnemonic(&mut vault, "a", &phrase).unwrap();
    assert_eq!(vault.mnemonic("a").ok().unwrap().as_str(), phrase);
    assert_eq!(
        vault.account("a").ok().unwrap().pubkey.text(),
        "HAgk14JpMQLgt6rVgv7cBQFJWFto5Dqxi472uT3DKpqk"
    );
    assert_eq!(
        import_mnemonic(&mut vault, "b", "abandon").unwrap_err().message(),
        bip39::Mnemonic::parse("abandon").unwrap_err().to_string()
    );
    let bytes = Keypair::new_from_array([7; 32]).to_keypair_bytes();
    let numbers = SecretBytes::copy_of(&bytes.as_array()[..]);
    import_numbers(&mut vault, "b", &numbers).unwrap();
    import_base58(&mut vault, "c", &bs58::encode([7u8; 32]).into_string()).unwrap();
    assert_eq!(
        vault.account("b").ok().unwrap().pubkey,
        vault.account("c").ok().unwrap().pubkey
    );
    assert_eq!(
        import_numbers(&mut vault, "d", &SecretBytes::new(vec![0; 63])).unwrap_err(),
        Error::KeypairFileLength
    );
    assert_eq!(
        import_source(&vault, &texts(&["a", "--mnemonic"])).unwrap_err(),
        Error::WalletNameExists
    );
    let contents = SecretBytes::new(format!("{:?}", bytes.as_array()).into_bytes());
    import_keypair_file(&mut vault, "d", &contents).unwrap();
    assert_eq!(
        vault.account("d").ok().unwrap().pubkey,
        vault.account("c").ok().unwrap().pubkey
    );
    assert_eq!(
        import_keypair_file(&mut vault, "e", &SecretBytes::new(b"[256]".to_vec()))
            .unwrap_err()
            .message(),
        serde_json::from_slice::<Vec<u8>>(b"[256]").unwrap_err().to_string()
    );
    assert_eq!(
        import_keypair_file(&mut vault, "e", &SecretBytes::new(vec![b' '; 1025])).unwrap_err(),
        Error::KeypairFileTooLarge
    );
    check_keypair_file(1024).unwrap();
    assert_eq!(
        check_keypair_file(1025).unwrap_err(),
        Error::KeypairFileTooLarge
    );
}

#[test]
fn wallets_are_listed() {
    let mut vault = Vault::default();
    assert!(list(&vault, None).unwrap().is_empty());
    assert_eq!(empty_list(&vault), Some("No saved wallets.\n"));
    assert_eq!(is_default(&vault, "a").unwrap_err(), Error::NoAccounts);
    vault.add_master("a", SecretBytes::new(vec![0; 32])).unwrap();
    vault.add_derived("b").unwrap();
    assert_eq!(list(&vault, None).unwrap(), [0, 1]);
    assert_eq!(empty_list(&vault), None);
    assert_eq!(list(&vault, Some("b")).unwrap(), [1]);
    assert_eq!(list(&vault, Some("c")).unwrap_err(), Error::UnknownWallet);
    assert!(is_default(&vault, "a").unwrap());
    assert!(!is_default(&vault, "b").unwrap());
    let address = Pubkey::new_from_array([0; 32]);
    let ones = "1".repeat(32);
    assert_eq!(wallet_line("a", &address), format!("a  {ones}\n"));
    assert_eq!(show_wallet("Derived", "a", &address), format!("Derived a: {ones}\n"));
    assert_eq!(history_title("a", &address), format!("History for a ({ones}):\n"));
    assert_eq!(
        balance_lines("a", 0),
        (
            "  SOL: 0\n".to_owned(),
            "  Warning: a has zero SOL balance\n".to_owned()
        )
    );
    assert_eq!(
        balance_lines("a", 2_500_000_000),
        ("  SOL: 2.5\n".to_owned(), String::new())
    );
    assert_eq!(
        skipped_wallet("x"),
        "History: skipping unknown wallet 'x'.\n"
    );
}

#[test]
fn deletions_are_told() {
    let mut vault = Vault::default();
    vault.add_master("a", SecretBytes::new(vec![0; 32])).unwrap();
    vault.add_derived("b").unwrap();
    assert_eq!(parse_delete(&texts(&["a"])).unwrap(), "a");
    assert_eq!(parse_delete(&[]).unwrap_err(), Error::UsageDelete);
    vault.remove_account("a", false).unwrap();
    assert_eq!(
        show_deleted(&vault, "a", false, true),
        "Deleted local wallet a.\nDefault wallet: b\n"
    );
    vault.remove_account("b", true).unwrap();
    assert_eq!(
        show_deleted(&vault, "b", true, true),
        "Deleted local wallet b.\nUnused recovery phrase erased from the vault.\nThe vault has no saved wallets.\n"
    );
    assert_eq!(
        show_deleted(&vault, "b", false, false),
        "Deleted local wallet b.\n"
    );
}

#[test]
fn history_limits_are_checked() {
    let limit = |words: &[&str]| {
        let args = texts(words);
        let options = solx::args::Options::parse(&args, &["wallet", "limit"]).ok().unwrap();
        history_limit(&options, 10)
    };
    assert_eq!(limit(&[]).unwrap(), 10);
    assert_eq!(limit(&["--limit", "100"]).unwrap(), 100);
    assert_eq!(limit(&["--limit", "+7"]).unwrap(), 7);
    assert_eq!(limit(&["--limit", "0"]).unwrap_err(), Error::HistoryRange);
    assert_eq!(limit(&["--limit", "101"]).unwrap_err(), Error::HistoryRange);
    assert_eq!(
        limit(&["--limit", "x"]).unwrap_err().message(),
        "x".parse::<usize>().unwrap_err().to_string()
    );
}

#[test]
fn exports_ask_with_the_whole_text() {
    let mut vault = Vault::default();
    vault.add_master("a", SecretBytes::new(vec![0; 32])).unwrap();
    let address = vault.account("a").ok().unwrap().pubkey.text();
    let rule = "-".repeat(48);
    assert_eq!(
        export_prompt(&vault, "a", ExportKind::PrivateKey).unwrap(),
        format!(
            "{rule}\nExport wallet: a\nAddress: {address}\nExport type: private key (base58, 64-byte keypair)\nWarning: secret output can remain in terminal scrollback or redirected files.\nType 'a' to reveal the secret: "
        )
    );
}

#[test]
fn a_shell_begins_with_the_configured_history() {
    let mut app = app(true);
    app.shell = false;
    assert!(!app.enter_shell());
    assert!(app.shell && app.session.is_some());
    app.config.history.fetch_on_start = true;
    assert!(app.enter_shell());
    let mut vault = Vault::default();
    vault.add_master("a", SecretBytes::new(vec![0; 32])).unwrap();
    assert!(app.configured_history(&vault).is_empty());
    app.config.history.wallets = texts(&["x", "a"]);
    let entries = app.configured_history(&vault);
    assert_eq!(entries.len(), 2);
    assert_eq!((entries[0].name.as_str(), entries[0].address), ("x", None));
    assert_eq!(
        (entries[1].name.as_str(), entries[1].address),
        ("a", Some(vault.account("a").ok().unwrap().pubkey))
    );
}
