use solx::config::{
    check_config_size, default_dir, default_path, expand_home, Aliases, Config, Location, Mode,
};
use solx::error::Error;
use solx::name::valid_name;

fn texts(words: &[&str]) -> Vec<String> {
    words.iter().map(|w| (*w).to_owned()).collect()
}

#[test]
fn alias_expands_once() {
    let mut config = Config::default();
    config
        .aliases
        .insert("x1".into(), texts(&["list", "--wallet", "main"]));
    assert_eq!(
        config.expand_alias(&["x1".into()]).unwrap(),
        ["list", "--wallet", "main"]
    );
}

#[test]
fn aliases_keep_one_meaning_and_the_other_words() {
    let mut aliases = Aliases::new();
    aliases.insert("a".into(), texts(&["b"]));
    aliases.insert("b".into(), texts(&["c"]));
    aliases.insert("a".into(), texts(&["b", "x"]));
    assert_eq!(aliases.len(), 2);
    let mut config = Config::default();
    config.aliases = aliases;
    // What an alias stands for is not expanded again.
    assert_eq!(
        config.expand_alias(&texts(&["a", "y"])).unwrap(),
        ["b", "x", "y"]
    );
    assert_eq!(config.expand_alias(&texts(&["z"])).unwrap(), ["z"]);
    assert!(config.expand_alias(&[]).unwrap().is_empty());
}

#[test]
fn defaults_are_valid() {
    let mut config = Config::default();
    assert_eq!(config.mode, Mode::Cli);
    assert_eq!(config.rpc.cluster, "devnet");
    assert_eq!(config.rpc_timeout(), std::time::Duration::from_secs(15));
    config.validate().unwrap();
    assert!(config.security.optimizes());
    config.security.simulate_before_send = false;
    assert!(!config.security.optimizes());
}

#[test]
fn limits_of_the_configuration() {
    let refused = |change: fn(&mut Config)| {
        let mut config = Config::default();
        change(&mut config);
        config.validate().unwrap_err()
    };
    assert_eq!(refused(|c| c.rpc.timeout_secs = 0), Error::RpcTimeout);
    assert_eq!(refused(|c| c.rpc.timeout_secs = 121), Error::RpcTimeout);
    assert_eq!(refused(|c| c.history.limit = 101), Error::HistoryLimit);
    assert_eq!(
        refused(|c| c.security.compute_unit_margin_percent = 101),
        Error::ComputeMargin
    );
    assert_eq!(
        refused(|c| c.history.wallets = vec![String::new(); 17]),
        Error::HistoryWallets
    );
    assert_eq!(
        refused(|c| c.history.interval_secs = Some(9)),
        Error::HistoryInterval
    );
    assert_eq!(
        refused(|c| c.aliases.insert("a".into(), Vec::new())),
        Error::InvalidAlias
    );
    assert_eq!(
        refused(|c| c.aliases.insert("a".into(), vec!["x".repeat(257)])),
        Error::InvalidAlias
    );
    assert_eq!(
        refused(|c| {
            for i in 0..65 {
                c.aliases.insert(format!("a{i}"), vec!["x".into()]);
            }
        }),
        Error::TooManyAliases
    );
    assert!(check_config_size(64 * 1024).is_ok());
    assert_eq!(
        check_config_size(64 * 1024 + 1).unwrap_err(),
        Error::ConfigTooLarge
    );
}

#[test]
fn urls_need_encryption_and_no_credentials() {
    let check = |url: &str| {
        let mut config = Config::default();
        config.rpc.url = Some(url.into());
        config.validate()
    };
    for good in [
        "https://api.devnet.solana.com",
        "http://127.0.0.1:8899",
        "http://localhost:8899",
        "http://[::1]:8899",
    ] {
        check(good).unwrap();
    }
    assert_eq!(
        check("http://example.com").unwrap_err(),
        Error::RpcNotHttps
    );
    assert_eq!(check("ftp://localhost").unwrap_err(), Error::RpcNotHttps);
    assert_eq!(
        check("https://user@example.com").unwrap_err(),
        Error::RpcCredentials
    );
    assert_eq!(
        check("https://:pass@example.com").unwrap_err(),
        Error::RpcCredentials
    );
    assert_eq!(
        check("no url").unwrap_err().message(),
        reqwest::Url::parse("no url").unwrap_err().to_string()
    );
}

#[test]
fn places_and_names() {
    assert_eq!(default_dir(), Location::UnderHome(".solx".into()));
    assert_eq!(
        default_path(),
        Location::UnderHome(".solx/config.toml".into())
    );
    assert_eq!(expand_home("~"), Location::Home);
    assert_eq!(expand_home("~/a/b"), Location::UnderHome("a/b".into()));
    assert_eq!(expand_home("~x"), Location::Given("~x".into()));
    assert!(valid_name("main_wallet-1"));
    assert!(!valid_name(""));
    assert!(!valid_name("ä"));
    assert!(valid_name(&"x".repeat(32)));
    assert!(!valid_name(&"x".repeat(33)));
}

#[test]
fn places_are_found_below_the_home_directory() {
    let path = |place: &Location, home: Option<&str>| {
        String::from_utf8(place.resolve(home.map(str::as_bytes))).unwrap()
    };
    assert_eq!(path(&default_path(), Some("/home/a")), "/home/a/.solx/config.toml");
    assert_eq!(path(&default_path(), Some("/home/a/")), "/home/a/.solx/config.toml");
    assert_eq!(path(&default_path(), None), "./.solx/config.toml");
    assert_eq!(path(&default_path(), Some("")), ".solx/config.toml");
    assert_eq!(path(&default_dir(), Some("/")), "/.solx");
    assert_eq!(path(&Config::default().vault, Some("/h")), "/h/.solx/vault.enc");
    assert_eq!(path(&expand_home("~"), Some("/h")), "/h");
    assert_eq!(path(&expand_home("~"), None), ".");
    assert_eq!(path(&expand_home("~/a/b"), None), "./a/b");
    assert_eq!(path(&expand_home("~//a"), Some("/h")), "/a");
    assert_eq!(path(&expand_home("a/b"), Some("/h")), "a/b");
    let home: &[u8] = &[0x2f, 0xff];
    assert_eq!(default_dir().resolve(Some(home)), b"/\xff/.solx");
}
