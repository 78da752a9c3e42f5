use serde_json::Value;
use solx::config::Config;
use solx::error::Error;
use solx::json::{Json, JsonKind};
use solx::pubkey::Pubkey;
use solx::rpc::{
    account_info_result, balance_result, confirm_result, fee_from_response,
    latest_blockhash_result, parse_token_accounts, print_history, safe_text, send_result,
    signatures_result, simulate_result, token_balance_result, token_decimals_result, Param, Rpc,
    RpcCall, Setting, MAX_BODY,
};

fn json(value: &Value) -> Json {
    parsed(&value.to_string())
}

fn parsed(text: &str) -> Json {
    Json::parse(text.as_bytes()).ok().unwrap()
}

fn key(bytes: [u8; 32]) -> Pubkey {
    Pubkey::new_from_array(bytes)
}

/// A call in compact JSON.
fn written(call: &RpcCall) -> String {
    let params: Vec<Value> = call
        .params
        .iter()
        .map(|param| match param {
            Param::Text(text) => Value::String(text.clone()),
            Param::Texts(texts) => Value::from(texts.clone()),
            Param::Options(options) => Value::Object(
                options
                    .iter()
                    .map(|(name, setting)| {
                        let value = match setting {
                            Setting::Text(text) => Value::String(text.clone()),
                            Setting::Number(n) => Value::from(*n),
                            Setting::Flag(yes) => Value::Bool(*yes),
                        };
                        (name.clone(), value)
                    })
                    .collect(),
            ),
        })
        .collect();
    format!("{} {}", call.method, Value::Array(params))
}

#[test]
fn parsed_token_balance_uses_raw_amount_and_checks_program() {
    let program = key([3; 32]);
    let mint = key([4; 32]);
    let address = key([5; 32]);
    let mut response: Value = serde_json::from_str(&format!(
        r#"{{"value": [{{
            "pubkey": "{}",
            "account": {{
                "owner": "{}",
                "data": {{"parsed": {{"info": {{
                    "mint": "{}",
                    "tokenAmount": {{"amount": "0", "decimals": 2, "uiAmountString": "0.00"}}
                }}}}}}
            }}
        }}]}}"#,
        address.text(),
        program.text(),
        mint.text()
    ))
    .unwrap();
    let accounts = parse_token_accounts(&json(&response), &program).ok().unwrap();
    assert_eq!(accounts[0].raw_amount, 0);
    assert_eq!(accounts[0].decimals, 2);
    assert_eq!(accounts[0].display_amount, "0.00");
    assert_eq!(accounts[0].address, address);
    assert_eq!(accounts[0].mint, mint);
    assert_eq!(accounts.len(), 1);
    response["value"][0]["account"]["owner"] = Value::String(mint.text());
    assert!(parse_token_accounts(&json(&response), &program).is_err());
}

#[test]
fn token_accounts_are_refused_for_a_reason() {
    let program = key([3; 32]);
    let refused = |text: String| {
        parse_token_accounts(&parsed(&text), &program)
            .err()
            .unwrap()
            .message()
    };
    let item = |address: &str, info: &str| {
        format!(
            r#"{{"value": [{{"pubkey": {address}, "account": {{"owner": "{}", "data": {{"parsed": {{{info}}}}}}}}}]}}"#,
            program.text()
        )
    };
    let good = format!("\"{}\"", program.text());
    let amount = |amount: &str| format!(r#""info": {{"mint": {good}, "tokenAmount": {{{amount}}}}}"#);
    assert_eq!(refused("{}".into()), "invalid token account response");
    let many = vec!["0"; 513].join(",");
    assert_eq!(
        refused(format!(r#"{{"value": [{many}]}}"#)),
        "too many token accounts in RPC response"
    );
    assert_eq!(refused(item("7", "")), "invalid token account address");
    assert_eq!(
        refused(r#"{"value": [{"pubkey": "x"}]}"#.into()),
        "token account has unexpected owner program"
    );
    assert_eq!(refused(item(&good, "")), "invalid parsed token account");
    assert_eq!(refused(item(&good, r#""info": {}"#)), "invalid token mint");
    assert_eq!(refused(item(&good, &amount(""))), "invalid raw token amount");
    assert_eq!(
        refused(item(&good, &amount(r#""amount": "x""#))),
        "invalid digit found in string"
    );
    assert_eq!(
        refused(item(&good, &amount(r#""amount": "1""#))),
        "invalid token decimals"
    );
    assert_eq!(
        refused(item(&good, &amount(r#""amount": "1", "decimals": 256"#))),
        u8::try_from(256u64).unwrap_err().to_string()
    );
    assert_eq!(
        refused(item("\"x!\"", &amount(r#""amount": "1", "decimals": 2"#))),
        "Invalid Base58 string"
    );
    let accounts = parse_token_accounts(
        &parsed(&item(&good, &amount(r#""amount": "12", "decimals": 2"#))),
        &program,
    )
    .ok()
    .unwrap();
    assert_eq!(accounts[0].display_amount, "12");
}

#[test]
fn fee_response_requires_a_usable_quote() {
    assert_eq!(
        fee_from_response(&parsed(r#"{"value": 5000}"#)).unwrap(),
        5_000
    );
    assert!(fee_from_response(&parsed(r#"{"value": null}"#)).is_err());
    assert!(fee_from_response(&parsed(r#"{"value": "5000"}"#)).is_err());
}

#[test]
fn calls_are_written_for_the_node() {
    let address = key([0; 32]);
    let one = "1".repeat(32);
    for (call, expected) in [
        (
            Rpc::balance(&address),
            format!(r#"getBalance ["{one}",{{"commitment":"confirmed"}}]"#),
        ),
        (
            Rpc::account_info(&address),
            format!(
                r#"getAccountInfo ["{one}",{{"commitment":"confirmed","encoding":"base64"}}]"#
            ),
        ),
        (
            Rpc::token_balance(&address),
            format!(r#"getTokenAccountBalance ["{one}",{{"commitment":"confirmed"}}]"#),
        ),
        (
            Rpc::token_decimals(&address),
            format!(r#"getTokenSupply ["{one}",{{"commitment":"confirmed"}}]"#),
        ),
        (
            Rpc::latest_blockhash(),
            r#"getLatestBlockhash [{"commitment":"confirmed"}]"#.to_owned(),
        ),
        (
            Rpc::fee_for_message(b"abc"),
            r#"getFeeForMessage ["YWJj",{"commitment":"confirmed"}]"#.to_owned(),
        ),
        (
            Rpc::token_accounts(&address, &address),
            format!(
                r#"getTokenAccountsByOwner ["{one}",{{"programId":"{one}"}},{{"commitment":"confirmed","encoding":"jsonParsed"}}]"#
            ),
        ),
        (
            Rpc::signatures(&address, 7),
            format!(r#"getSignaturesForAddress ["{one}",{{"commitment":"confirmed","limit":7}}]"#),
        ),
        (
            Rpc::simulate(b"a"),
            r#"simulateTransaction ["YQ==",{"commitment":"confirmed","encoding":"base64","sigVerify":false}]"#
                .to_owned(),
        ),
        (
            Rpc::send(b"ab"),
            r#"sendTransaction ["YWI=",{"encoding":"base64","maxRetries":0,"preflightCommitment":"confirmed","skipPreflight":false}]"#
                .to_owned(),
        ),
        (
            Rpc::confirm("sig"),
            r#"getSignatureStatuses [["sig"],{"searchTransactionHistory":false}]"#.to_owned(),
        ),
    ] {
        assert_eq!(written(&call), expected);
    }
}

#[test]
fn answers_are_read() {
    let answer = parsed(r#"{"jsonrpc": "2.0", "id": 1, "result": {"value": 3}}"#);
    let result = Rpc::call("getBalance", &answer).ok().unwrap();
    assert_eq!(balance_result(result).unwrap(), 3);
    let answer = parsed(r#"{"error": {"code": -1}, "result": 1}"#);
    assert_eq!(
        Rpc::call("getBalance", &answer).err().unwrap().message(),
        r#"RPC getBalance: {"code":-1}"#
    );
    assert_eq!(
        Rpc::call("x", &parsed("{}")).err().unwrap(),
        Error::RpcResultMissing
    );
    assert_eq!(
        balance_result(&parsed(r#"{"value": -3}"#)).unwrap_err(),
        Error::InvalidBalance
    );
    assert!(account_info_result(&parsed(r#"{"value": null}"#)).ok().unwrap().is_none());
    assert!(account_info_result(&parsed(r#"{"value": {}}"#)).ok().unwrap().is_some());
    assert_eq!(
        account_info_result(&parsed(r#"{"value": 1}"#)).err().unwrap(),
        Error::InvalidAccountInfo
    );
    assert_eq!(
        token_balance_result(&parsed(r#"{"value": {"amount": "12"}}"#)).unwrap(),
        12
    );
    assert_eq!(
        token_balance_result(&parsed(r#"{"value": {"amount": ""}}"#)).unwrap_err(),
        Error::NumberEmpty
    );
    assert_eq!(
        token_balance_result(&parsed("{}")).unwrap_err(),
        Error::InvalidTokenBalance
    );
    assert_eq!(
        token_decimals_result(&parsed(r#"{"value": {"decimals": 6}}"#)).unwrap(),
        6
    );
    assert_eq!(
        token_decimals_result(&parsed(r#"{"value": {"decimals": 256}}"#)).unwrap_err(),
        Error::OutOfRange
    );
    assert_eq!(
        token_decimals_result(&parsed("{}")).unwrap_err(),
        Error::InvalidTokenSupply
    );
    let hash = solana_message::Hash::new_from_array([9; 32]);
    let answer = parsed(&format!(r#"{{"value": {{"blockhash": "{hash}"}}}}"#));
    assert_eq!(latest_blockhash_result(&answer).ok().unwrap(), [9; 32]);
    let answer = parsed(r#"{"value": {"blockhash": "?"}}"#);
    assert_eq!(
        latest_blockhash_result(&answer).err().unwrap().message(),
        "?".parse::<solana_message::Hash>().unwrap_err().to_string()
    );
    assert_eq!(
        latest_blockhash_result(&parsed("{}")).err().unwrap(),
        Error::InvalidBlockhash
    );
    assert_eq!(
        simulate_result(&parsed("{}")).err().unwrap(),
        Error::InvalidSimulation
    );
    assert_eq!(
        simulate_result(&parsed(r#"{"value": {}}"#)).err().unwrap(),
        Error::SimulationNoErr
    );
    assert!(simulate_result(&parsed(r#"{"value": {"err": null}}"#)).is_ok());
    assert_eq!(send_result(&parsed(r#""abc""#)).ok().unwrap(), "abc");
    assert_eq!(send_result(&parsed("1")).err().unwrap(), Error::InvalidSend);
    let long = format!("\"{}\"", "x".repeat(101));
    assert_eq!(
        send_result(&parsed(&long)).err().unwrap(),
        Error::InvalidSignature
    );
}

#[test]
fn statuses_are_read() {
    let status = |text: &str| confirm_result(&parsed(&format!(r#"{{"value": [{text}]}}"#)));
    assert!(!status("null").unwrap());
    assert!(status(r#"{"err": null, "confirmationStatus": "confirmed"}"#).unwrap());
    assert!(status(r#"{"err": null, "confirmationStatus": "finalized"}"#).unwrap());
    assert!(!status(r#"{"err": null, "confirmationStatus": "processed"}"#).unwrap());
    assert_eq!(
        status(r#"{"err": {"a": 1}}"#).unwrap_err().message(),
        r#"transaction failed: {"a":1}"#
    );
    assert_eq!(
        status("{}").unwrap_err().message(),
        "transaction failed: null"
    );
    assert_eq!(status("").unwrap_err(), Error::InvalidStatus);
}

#[test]
fn history_is_shown() {
    let answer = parsed(r#"[{"signature": "a\u001bb", "slot": 7, "err": null}, {}]"#);
    let rows = signatures_result(&answer, 2).ok().unwrap();
    assert_eq!(print_history(rows), "  ab  slot 7  ok\n  ?  slot 0  error\n");
    assert_eq!(print_history(&Vec::new()), "  no recent signatures\n");
    assert_eq!(
        signatures_result(&answer, 1).err().unwrap(),
        Error::TooManySignatures
    );
    assert_eq!(
        signatures_result(&parsed("{}"), 1).err().unwrap(),
        Error::InvalidHistory
    );
}

#[test]
fn shown_text_is_short_and_has_no_control_characters() {
    assert_eq!(safe_text("a\u{1b}[31m\r\nb\u{85}c", 100), "a[31m\nbc");
    assert_eq!(safe_text("\u{7}äöü", 2), "äö");
    assert_eq!(safe_text("abc", 0), "");
}

#[test]
fn nodes_come_from_the_configuration() {
    let mut config = Config::default();
    assert_eq!(Rpc::new(&config).err().unwrap(), Error::RpcNotConfigured);
    config.rpc.url = Some("https://api.example.com:8899/path".into());
    let rpc = Rpc::new(&config).ok().unwrap();
    assert_eq!(rpc.url, "https://api.example.com:8899/path");
    assert_eq!(rpc.endpoint, "api.example.com");
    assert_eq!(rpc.cluster, "devnet");
    assert_eq!(rpc.timeout.as_secs(), 15);
    config.rpc.url = Some("data:text/plain,x".into());
    assert_eq!(Rpc::new(&config).err().unwrap(), Error::RpcNoHost);
    assert!(Rpc::check_body(MAX_BODY).is_ok());
    assert_eq!(
        Rpc::check_body(MAX_BODY + 1).unwrap_err().message(),
        "RPC response exceeds 2 MiB"
    );
}

#[test]
fn answers_are_read_from_bytes() {
    let read = |body: &[u8]| Rpc::read_answer("getBalance", body);
    let result = read(br#"{"id": 1, "result": {"value": 7, "text": "a"}}"#).ok().unwrap();
    assert_eq!(result.get_u64("value"), Some(7));
    assert_eq!(result.get_str("text"), Some("a"));
    assert_eq!(result.text, r#"{"text":"a","value":7}"#);
    assert_eq!(
        read(br#"{"error": "no", "result": 1}"#).err().unwrap().message(),
        "RPC getBalance: \"no\""
    );
    assert_eq!(read(b"{}").err().unwrap(), Error::RpcResultMissing);
    assert_eq!(
        read(b"{").err().unwrap().message(),
        serde_json::from_slice::<Value>(b"{").unwrap_err().to_string()
    );
    assert_eq!(
        read(&vec![b' '; MAX_BODY as usize + 1]).err().unwrap(),
        Error::BodyTooLarge
    );
}

#[test]
fn values_are_told_apart() {
    let value = parsed(r#"[null, true, 5, -5, 1.5, "t", {"a": [0, {"b": 9}]}]"#);
    let items = value.as_list().unwrap();
    assert!(items[0].is_null());
    assert!(matches!(items[1].kind, JsonKind::Bool(true)));
    assert_eq!(items[2].as_u64(), Some(5));
    assert!(matches!(items[3].kind, JsonKind::Number));
    assert_eq!(items[4].as_u64(), None);
    assert_eq!(items[5].as_str(), Some("t"));
    assert!(items[6].is_object());
    assert_eq!(items[6].pointer_u64(&["a", "1", "b"]), Some(9));
    assert_eq!(items[6].pointer_u64(&["a", "01", "b"]), None);
    assert_eq!(items[6].pointer_u64(&["a", "+1", "b"]), None);
    assert!(items[6].pointer(&["a", "2"]).is_none());
    assert!(value.pointer(&["6", "a"]).is_some());
}
