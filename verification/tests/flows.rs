use solx::args::Options;
use solx::close::{CloseCandidate, CloseNext, Closing, Eligible};
use solx::config::SecurityConfig;
use solx::error::Error;
use solx::instruction::{ata, system_transfer, ASSOCIATED_TOKEN, TOKEN, TOKEN_2022};
use solx::json::Json;
use solx::pubkey::Pubkey;
use solx::rpc::{Param, RpcCall, TokenAccount};
use solx::secret::SecretBytes;
use solx::select::Selecting;
use solx::send::{Event, Next, SendPlan, Sending, SpendAll};
use solx::signer::Keypair;
use solx::transfer::{Need, TokenStage, TokenTransfer, Transfer};
use solx::vault::Vault;

use base64::Engine;

fn parsed(text: &str) -> Json {
    Json::parse(text.as_bytes()).ok().unwrap()
}

fn key(bytes: [u8; 32]) -> Pubkey {
    Pubkey::new_from_array(bytes)
}

fn texts(words: &[&str]) -> Vec<String> {
    words.iter().map(|w| (*w).to_owned()).collect()
}

fn signer() -> Keypair {
    Keypair::new_from_array([7; 32])
}

/// A plan that sends some lamports, or everything.
fn plan(spend_all: Option<u64>, change: impl Fn(&mut SecurityConfig)) -> SendPlan {
    let mut security = SecurityConfig::default();
    change(&mut security);
    let target = key([8; 32]);
    SendPlan {
        signer: signer(),
        instructions: vec![system_transfer(&signer().pubkey(), &target, 5)],
        details: "details".into(),
        burn_confirmation: false,
        spend_all: spend_all.map(|balance| SpendAll { balance, target }),
        security,
        cluster: "devnet".into(),
        endpoint: "host".into(),
    }
}

fn blockhash() -> String {
    format!(
        r#"{{"value": {{"blockhash": "{}"}}}}"#,
        key([9; 32]).text()
    )
}

/// The transaction that a call carries.
fn transaction(call: &RpcCall) -> Vec<u8> {
    let Param::Text(text) = &call.params[0] else {
        panic!("no transaction");
    };
    base64::engine::general_purpose::STANDARD.decode(text).unwrap()
}

/// Answers the calls of a sending in turn: which calls were made, what was shown, and how it ended.
fn run(
    plan: SendPlan,
    line: Option<&str>,
    answer: impl Fn(&RpcCall, usize) -> Result<String, Error>,
) -> (Vec<String>, String, Result<bool, Error>) {
    let mut calls: Vec<String> = Vec::new();
    let mut shown = String::new();
    let mut event = Event::Begin;
    let mut sending = Sending::new(plan);
    loop {
        let (next_sending, action) = sending.send_transaction(event);
        sending = next_sending;
        shown.push_str(&action.output);
        event = match action.next {
            Next::Call(call) => {
                let before = calls.iter().filter(|m| **m == call.method).count();
                calls.push(call.method.clone());
                match answer(&call, before) {
                    Ok(text) => Event::Reply(parsed(&text)),
                    Err(error) => Event::Failed(error),
                }
            }
            Next::Ask(question) => {
                shown.push_str(question);
                calls.push("ask".into());
                Event::Line(line.map(str::to_owned))
            }
            Next::Pause(seconds) => {
                assert_eq!(seconds, 2);
                Event::Resumed
            }
            Next::Done(confirmed) => return (calls, shown, Ok(confirmed)),
            Next::Fail(error) => return (calls, shown, Err(error)),
        };
    }
}

/// A node that accepts everything.
fn willing(call: &RpcCall, _: usize) -> Result<String, Error> {
    Ok(match call.method.as_str() {
        "getLatestBlockhash" => blockhash(),
        "simulateTransaction" => {
            r#"{"value": {"err": null, "unitsConsumed": 300, "postBalances": [0]}}"#.into()
        }
        "getFeeForMessage" => r#"{"value": 5000}"#.into(),
        "sendTransaction" => {
            let wire = transaction(call);
            format!("\"{}\"", bs58::encode(&wire[1..65]).into_string())
        }
        "getSignatureStatuses" => {
            r#"{"value": [{"err": null, "confirmationStatus": "confirmed"}]}"#.into()
        }
        _ => panic!("unexpected call"),
    })
}

#[test]
fn a_transaction_is_sent_after_simulation_and_agreement() {
    let (calls, shown, result) = run(plan(None, |_| ()), Some(" yes\n"), willing);
    assert!(result.unwrap());
    assert_eq!(
        calls,
        [
            "getLatestBlockhash",
            "simulateTransaction",
            "simulateTransaction",
            "ask",
            "sendTransaction",
            "getSignatureStatuses"
        ]
    );
    assert!(shown.contains("Configured cluster: devnet\nRPC host: host\nFee payer: "));
    assert!(shown.contains("\ndetails\nCompute-unit limit: 1300\nInstruction 1: ComputeBudget"));
    assert!(shown.contains("Simulation: OK\nCompute units: 300\n"));
    assert!(shown.contains("Send transaction? Type 'yes': Submitted: "));
    assert!(shown.contains("\nConfirmed: "));
}

#[test]
fn what_is_sent_is_signed_by_the_payer() {
    run(plan(None, |_| ()), Some("yes"), |call, before| {
        if call.method == "sendTransaction" {
            let wire = transaction(call);
            let payer = ed25519_dalek::VerifyingKey::from_bytes(signer().pubkey().as_array());
            let signature = ed25519_dalek::Signature::from_slice(&wire[1..65]).unwrap();
            payer.unwrap().verify_strict(&wire[65..], &signature).unwrap();
        }
        willing(call, before)
    })
    .2
    .unwrap();
}

#[test]
fn nothing_is_sent_without_agreement() {
    for line in [None, Some("no"), Some("YES"), Some("BURN")] {
        let (calls, _, result) = run(plan(None, |_| ()), line, willing);
        assert_eq!(result.unwrap_err(), Error::Cancelled);
        assert!(!calls.contains(&"sendTransaction".to_owned()));
    }
    let mut burning = plan(None, |s| s.confirm_every_transaction = false);
    burning.burn_confirmation = true;
    let (_, shown, result) = run(burning, Some("yes"), willing);
    assert!(shown.ends_with("Burn tokens and send transaction? Type 'BURN': "));
    assert_eq!(result.unwrap_err(), Error::Cancelled);
    let mut burning = plan(None, |_| ());
    burning.burn_confirmation = true;
    assert!(run(burning, Some("BURN"), willing).2.unwrap());
    let (calls, _, result) = run(
        plan(None, |s| s.confirm_every_transaction = false),
        None,
        willing,
    );
    assert!(result.unwrap());
    assert!(!calls.contains(&"ask".to_owned()));
}

#[test]
fn simulations_decide() {
    let failing = |call: &RpcCall, before: usize| match (call.method.as_str(), before) {
        ("simulateTransaction", 1) => Ok(r#"{"value": {"err": "no"}}"#.to_owned()),
        _ => willing(call, before),
    };
    let (calls, shown, result) = run(plan(None, |_| ()), Some("yes"), failing);
    assert_eq!(
        result.unwrap_err().message(),
        "Simulation failed; transaction not sent"
    );
    assert!(shown.contains("Simulation: FAILED"));
    assert_eq!(calls.last().unwrap(), "simulateTransaction");
    let probing = |call: &RpcCall, before: usize| match call.method.as_str() {
        "simulateTransaction" => Ok(r#"{"value": {"err": null}}"#.to_owned()),
        _ => willing(call, before),
    };
    assert_eq!(
        run(plan(None, |_| ()), Some("yes"), probing).2.unwrap_err(),
        Error::ProbeNoUnits
    );
    let (calls, shown, result) = run(
        plan(None, |s| {
            s.simulate_before_send = false;
            s.show_details = false;
        }),
        Some("yes"),
        willing,
    );
    assert!(result.unwrap());
    assert_eq!(
        calls,
        ["getLatestBlockhash", "ask", "sendTransaction", "getSignatureStatuses"]
    );
    assert!(!shown.contains("Instruction"));
    let (_, shown, result) = run(
        plan(None, |s| {
            s.optimize_compute_units = false;
            s.show_simulation = false;
        }),
        Some("yes"),
        willing,
    );
    assert!(result.unwrap());
    assert!(shown.contains("\nSimulation: OK\nSend transaction?"));
    assert!(!shown.contains("Compute-unit limit"));
}

#[test]
fn everything_is_sent_but_the_fee() {
    let (calls, shown, result) = run(plan(Some(1_000_005_000), |_| ()), Some("yes"), willing);
    assert!(result.unwrap());
    assert_eq!(
        calls,
        [
            "getLatestBlockhash",
            "simulateTransaction",
            "getFeeForMessage",
            "getFeeForMessage",
            "simulateTransaction",
            "ask",
            "sendTransaction",
            "getSignatureStatuses"
        ]
    );
    assert!(shown.contains(
        "Balance: 1.000005 SOL\nNetwork fee: 0.000005 SOL\nSend: 1 SOL\nExpected remaining: 0 SOL\n"
    ));
    assert_eq!(
        run(plan(Some(5_000), |_| ()), Some("yes"), willing).2.unwrap_err(),
        Error::InsufficientForAll
    );
    let dearer = |call: &RpcCall, before: usize| match (call.method.as_str(), before) {
        ("getFeeForMessage", 1) => Ok(r#"{"value": 5001}"#.to_owned()),
        _ => willing(call, before),
    };
    assert_eq!(
        run(plan(Some(10_000), |_| ()), Some("yes"), dearer).2.unwrap_err(),
        Error::FeeChanged
    );
    let unknown = |call: &RpcCall, before: usize| match call.method.as_str() {
        "getFeeForMessage" => Ok(r#"{"value": null}"#.to_owned()),
        _ => willing(call, before),
    };
    assert_eq!(
        run(plan(Some(10_000), |_| ()), Some("yes"), unknown).2.unwrap_err(),
        Error::FeeUnavailable
    );
    let leaving = |call: &RpcCall, before: usize| match call.method.as_str() {
        "simulateTransaction" => Ok(
            r#"{"value": {"err": null, "unitsConsumed": 300, "postBalances": [1]}}"#.to_owned(),
        ),
        _ => willing(call, before),
    };
    assert_eq!(
        run(plan(Some(10_000), |_| ()), Some("yes"), leaving).2.unwrap_err(),
        Error::AllLeavesRest
    );
}

#[test]
fn the_outcome_of_sending_is_told() {
    let lost = |call: &RpcCall, before: usize| match call.method.as_str() {
        "sendTransaction" => Err(Error::Outside("timeout".into())),
        _ => willing(call, before),
    };
    let message = run(plan(None, |_| ()), Some("yes"), lost).2.unwrap_err().message();
    assert!(message.starts_with("send outcome unknown; check signature "));
    assert!(message.ends_with(" before retrying: timeout"));
    let other = |call: &RpcCall, before: usize| match call.method.as_str() {
        "sendTransaction" => Ok("\"other\"".to_owned()),
        _ => willing(call, before),
    };
    assert_eq!(
        run(plan(None, |_| ()), Some("yes"), other).2.unwrap_err(),
        Error::OtherSignature
    );
    let pending = |call: &RpcCall, before: usize| match call.method.as_str() {
        "getSignatureStatuses" => Ok(r#"{"value": [null]}"#.to_owned()),
        _ => willing(call, before),
    };
    let (calls, shown, result) = run(plan(None, |_| ()), Some("yes"), pending);
    assert!(!result.unwrap());
    assert_eq!(
        calls.iter().filter(|m| *m == "getSignatureStatuses").count(),
        20
    );
    assert!(shown.contains("Confirmation pending; check signature: "));
    let mut empty = plan(None, |_| ());
    empty.instructions.clear();
    assert_eq!(
        run(empty, Some("yes"), willing).2.unwrap_err(),
        Error::NoInstructions
    );
    let unreachable = |_: &RpcCall, _: usize| Err(Error::Outside("offline".into()));
    assert_eq!(
        run(plan(None, |_| ()), Some("yes"), unreachable).2.unwrap_err().message(),
        "offline"
    );
}

fn vault() -> Vault {
    let mut vault = Vault::default();
    vault.add_master("main", SecretBytes::new(vec![0; 32])).unwrap();
    vault.add_derived("child").unwrap();
    vault
}

#[test]
fn transfers_are_asked_for() {
    let mut vault = vault();
    let args = texts(&["--to", "child", "--amount", "1.5"]);
    let options = Options::parse(&args, &["wallet", "to", "amount"]).ok().unwrap();
    let mut transfer = Transfer::new(&vault, &options).ok().unwrap();
    let child = vault.account("child").ok().unwrap().pubkey;
    let main = vault.account("main").ok().unwrap().pubkey;
    assert_eq!(transfer.target, child);
    assert_eq!(transfer.lamports, Some(1_500_000_000));
    let (warning, need) = transfer.begin();
    assert_eq!(warning, format!("Warning: first transfer to {}\n", child.text()));
    assert!(matches!(need, Need::Call(call) if call.method == "getBalance"));
    let (warning, need) = transfer.transfer(&parsed(r#"{"value": 0}"#));
    assert_eq!(warning, "Warning: recipient has zero SOL balance\n");
    assert!(matches!(need, Need::Ready));
    assert_eq!(
        transfer.details(),
        format!(
            "SOL transfer: 1.5 SOL\nFrom: main ({})\nTo: {}",
            main.text(),
            child.text()
        )
    );
    assert!(transfer.spend_all().is_none());
    vault.remember_recipient(&child);
    let args = texts(&["--to", "child", "--amount", "ALL"]);
    let options = Options::parse(&args, &["wallet", "to", "amount"]).ok().unwrap();
    let mut transfer = Transfer::new(&vault, &options).ok().unwrap();
    assert!(transfer.begin().0.is_empty());
    let (warning, need) = transfer.transfer(&parsed(r#"{"value": 9}"#));
    assert!(warning.is_empty());
    let Need::Call(call) = need else {
        panic!("the balance of the source is needed");
    };
    assert!(matches!(&call.params[0], Param::Text(text) if *text == main.text()));
    assert!(matches!(
        transfer.transfer(&parsed(r#"{"value": 42}"#)).1,
        Need::Ready
    ));
    assert_eq!(transfer.spend_all().unwrap().balance, 42);
    assert!(transfer.details().starts_with("SOL transfer: ALL\n"));
}

#[test]
fn transfers_are_refused_for_a_reason() {
    let vault = vault();
    let refused = |words: &[&str]| {
        let args = texts(words);
        let options = Options::parse(&args, &["wallet", "to", "amount"]).ok().unwrap();
        Transfer::new(&vault, &options).err().unwrap().message()
    };
    assert_eq!(refused(&["--wallet", "x"]), "unknown wallet");
    assert_eq!(refused(&[]), "missing --to");
    assert_eq!(refused(&["--to", "?"]), "Invalid Base58 string");
    assert_eq!(refused(&["--to", "child"]), "missing --amount");
    assert_eq!(
        refused(&["--to", "child", "--amount", "0"]),
        "amount must be positive"
    );
    assert_eq!(
        refused(&["--to", "main", "--amount", "1"]),
        "cannot transfer to the same wallet"
    );
}

fn mint_answer(owner: [u8; 32]) -> Json {
    parsed(&format!(
        r#"{{"value": {{"owner": "{}"}}}}"#,
        key(owner).text()
    ))
}

#[test]
fn token_transfers_are_prepared() {
    let vault = vault();
    let mint = key([5; 32]);
    let mint_text = mint.text();
    let args = texts(&["--mint", &mint_text, "--to", "child", "--amount", "1.25"]);
    let options = Options::parse(&args, &["wallet", "mint", "to", "amount"]).ok().unwrap();
    let prepare = |answers: &[Json]| {
        let mut transfer = TokenTransfer::new(&vault, &options).ok().unwrap();
        let mut need = transfer.begin();
        let mut methods = Vec::new();
        for answer in answers {
            match need {
                Need::Call(call) => methods.push(call.method),
                _ => panic!("no call"),
            }
            need = transfer.token_transfer(answer).1;
        }
        (transfer, need, methods)
    };
    let there = parsed(r#"{"value": {}}"#);
    let supply = parsed(r#"{"value": {"decimals": 2}}"#);
    let rich = parsed(r#"{"value": {"amount": "125"}}"#);
    let answers = [
        mint_answer(TOKEN),
        supply,
        there,
        rich,
        parsed(r#"{"value": 1}"#),
    ];
    let (transfer, need, methods) = prepare(&answers);
    assert!(matches!(need, Need::Ready));
    assert_eq!(
        methods,
        [
            "getAccountInfo",
            "getTokenSupply",
            "getAccountInfo",
            "getTokenAccountBalance",
            "getBalance"
        ]
    );
    let TokenStage::Ready { terms } = transfer.stage else {
        panic!("not ready");
    };
    let main = vault.account("main").ok().unwrap().pubkey;
    let child = vault.account("child").ok().unwrap().pubkey;
    assert_eq!(terms.amount, 125);
    assert_eq!(terms.source_ata, ata(&main, &mint, &key(TOKEN)).ok().unwrap());
    let list = transfer.instructions(&terms).ok().unwrap();
    assert_eq!(list[0].program_id, key(ASSOCIATED_TOKEN));
    assert_eq!(list[0].data, [1]);
    assert_eq!(list[1].program_id, key(TOKEN));
    assert_eq!(list[1].data, [12, 125, 0, 0, 0, 0, 0, 0, 0, 2]);
    assert_eq!(
        transfer.details(&terms),
        format!(
            "Token transfer: 1.25 units\nMint: {}\nFrom: main ({})\nTo: {}\nDestination ATA: {}\nMay fund recipient ATA rent",
            mint_text,
            main.text(),
            child.text(),
            ata(&child, &mint, &key(TOKEN)).ok().unwrap().text()
        )
    );
    let failed = |answers: &[Json]| match prepare(answers).1 {
        Need::Fail(error) => error,
        _ => panic!("no failure"),
    };
    assert_eq!(failed(&[mint_answer([1; 32])]), Error::MintNotToken);
    assert_eq!(
        failed(&[parsed(r#"{"value": null}"#)]),
        Error::MintMissing
    );
    assert_eq!(failed(&[parsed(r#"{"value": {}}"#)]), Error::InvalidMintOwner);
    assert_eq!(
        failed(&[
            mint_answer(TOKEN_2022),
            parsed(r#"{"value": {"decimals": 1}}"#)
        ]),
        Error::AmountPlaces
    );
    let supply = || parsed(r#"{"value": {"decimals": 2}}"#);
    assert_eq!(
        failed(&[mint_answer(TOKEN), supply(), parsed(r#"{"value": null}"#)]),
        Error::SourceAtaMissing
    );
    assert_eq!(
        failed(&[
            mint_answer(TOKEN),
            supply(),
            parsed(r#"{"value": {}}"#),
            parsed(r#"{"value": {"amount": "124"}}"#)
        ]),
        Error::InsufficientTokens
    );
}

#[test]
fn accounts_are_selected_by_mint() {
    let owner = signer().pubkey();
    let select = |mints: &[String], burn: bool, answers: Vec<Json>| {
        let mut selecting = Selecting::new(owner, mints.to_vec(), burn);
        let mut need = selecting.advance();
        for answer in &answers {
            assert!(matches!(need, Need::Call(_)));
            need = selecting.selected_atas(answer);
        }
        (selecting.found, need)
    };
    let mint = key([5; 32]);
    let balance = |n: u64| parsed(&format!(r#"{{"value": {{"amount": "{n}"}}}}"#));
    let answers = |n: u64| {
        vec![
            mint_answer(TOKEN),
            mint_answer(TOKEN),
            mint_answer(TOKEN),
            balance(n),
        ]
    };
    let (found, need) = select(&[mint.text()], false, answers(0));
    assert!(matches!(need, Need::Ready));
    assert_eq!(found.len(), 1);
    assert_eq!(found[0].address, ata(&owner, &mint, &key(TOKEN)).ok().unwrap());
    let (_, need) = select(&[mint.text()], false, answers(3));
    assert!(matches!(need, Need::Fail(Error::AtaNotEmpty)));
    let mut burning = answers(3);
    burning.push(parsed(r#"{"value": {"decimals": 4}}"#));
    let (found, need) = select(&[mint.text()], true, burning);
    assert!(matches!(need, Need::Ready));
    assert_eq!((found[0].raw_amount, found[0].decimals), (3, 4));
    let (_, need) = select(&[mint.text(), mint.text()], false, answers(0));
    assert!(matches!(need, Need::Fail(Error::DuplicateMint)));
    let (_, need) = select(
        &[mint.text()],
        false,
        vec![mint_answer(TOKEN), mint_answer(TOKEN_2022)],
    );
    assert!(matches!(need, Need::Fail(Error::AtaOwner)));
    let gone = || parsed(r#"{"value": null}"#);
    let (_, need) = select(&[mint.text()], false, vec![mint_answer(TOKEN), gone()]);
    assert!(matches!(need, Need::Fail(Error::AtaMissing)));
    let (_, need) = select(
        &[mint.text()],
        false,
        vec![mint_answer(TOKEN), mint_answer(TOKEN), gone()],
    );
    assert!(matches!(need, Need::Fail(Error::AtaGone)));
}

#[test]
fn eligible_accounts_are_counted_once() {
    let owner = signer().pubkey();
    let account = |mint: [u8; 32], address: Option<Pubkey>, raw_amount: u64| TokenAccount {
        address: match address {
            Some(address) => address,
            None => ata(&owner, &key(mint), &key(TOKEN)).ok().unwrap(),
        },
        mint: key(mint),
        raw_amount,
        decimals: 0,
        display_amount: "0".into(),
    };
    let accounts = vec![
        account([1; 32], None, 0),
        account([1; 32], None, 0),
        account([2; 32], None, 7),
        account([3; 32], Some(key([3; 32])), 0),
    ];
    let eligible = Eligible::new()
        .eligible_atas(&owner, &key(TOKEN), &accounts, false)
        .ok()
        .unwrap();
    assert_eq!(eligible.candidates.len(), 1);
    assert_eq!(
        eligible.found_text(),
        "Found 1 eligible ATAs; skipped 1 non-empty and 1 non-associated token accounts.\n"
    );
    let eligible = Eligible::new()
        .eligible_atas(&owner, &key(TOKEN), &accounts, true)
        .ok()
        .unwrap();
    assert_eq!(eligible.candidates.len(), 2);
}

#[test]
fn accounts_are_closed_in_full_batches() {
    let owner = signer().pubkey();
    let candidates: Vec<CloseCandidate> = (0..60)
        .map(|i| CloseCandidate {
            mint: key([i; 32]),
            address: key([i + 100; 32]),
            program: key(TOKEN),
            raw_amount: 0,
            decimals: 0,
        })
        .collect();
    let mut closing = Closing::new(owner, "main".into(), true, candidates.clone());
    let mut closed = Vec::new();
    let mut next = closing.begin();
    loop {
        match next {
            CloseNext::Send(batch) => {
                assert!(batch.details.starts_with(&format!(
                    "Close {} associated token account(s); reclaim account lamports\nOwner/destination: main ({})\nMint: ",
                    batch.instructions.len(),
                    owner.text()
                )));
                assert!(!batch.burn_confirmation);
                closed.extend(batch.instructions.iter().map(|i| i.accounts[0].pubkey));
                next = closing.send_close_batches(true);
            }
            CloseNext::Finished(text) => {
                assert_eq!(text, "Closed 60 associated token account(s).\n");
                break;
            }
            CloseNext::Fail(error) => panic!("{}", error.message()),
        }
    }
    let expected: Vec<Pubkey> = candidates.iter().map(|c| c.address).collect();
    assert_eq!(closed, expected);
    let mut closing = Closing::new(owner, "main".into(), true, candidates);
    assert!(matches!(closing.begin(), CloseNext::Send(_)));
    assert!(matches!(
        closing.send_close_batches(false),
        CloseNext::Finished(text)
            if text == "Stopped after a pending batch; check its signature before retrying.\n"
    ));
    let mut closing = Closing::new(owner, "main".into(), true, Vec::new());
    assert!(matches!(
        closing.begin(),
        CloseNext::Finished(text)
            if text == "No eligible associated token accounts to close.\n"
    ));
}

#[test]
fn burning_is_announced() {
    let owner = signer().pubkey();
    let candidate = CloseCandidate {
        mint: key([1; 32]),
        address: key([2; 32]),
        program: key(TOKEN),
        raw_amount: 150,
        decimals: 2,
    };
    let mut closing = Closing::new(owner, "main".into(), false, vec![candidate]);
    let CloseNext::Send(batch) = closing.begin() else {
        panic!("no batch");
    };
    assert!(batch.burn_confirmation);
    assert_eq!(batch.instructions.len(), 2);
    assert!(batch.details.ends_with(&format!(
        "\nBURN 1.5 token units (150 base units) from mint {}, ATA: {}\nBurning destroys those tokens; only the ATA lamports are reclaimed.",
        key([1; 32]).text(),
        key([2; 32]).text()
    )));
}

#[test]
fn only_confirmed_transfers_make_recipients_known() {
    let args = texts(&["--to", "child", "--amount", "1"]);
    let options = Options::parse(&args, &["wallet", "to", "amount"]).ok().unwrap();
    let mut data = vault();
    data.written(vec![1, 2]);
    let child = data.account("child").ok().unwrap().pubkey;
    let transfer = Transfer::new(&data, &options).ok().unwrap();
    assert!(!transfer.remembers(false));
    assert!(!transfer.sent(&mut data, false));
    assert!(!data.is_known_recipient(&child));
    assert!(transfer.remembers(true));
    assert!(transfer.sent(&mut data, true));
    assert!(data.is_known_recipient(&child));
    assert_eq!(data.recipients.len(), 1);
    assert_eq!(data.source_bytes, Some(vec![1, 2]));
    // Once the vault knows the address, there is nothing more to save.
    assert!(!transfer.sent(&mut data, true));
    assert_eq!(data.recipients.len(), 1);
    let transfer = Transfer::new(&data, &options).ok().unwrap();
    assert!(!transfer.remembers(true));

    let mint = key([5; 32]).text();
    let args = texts(&["--mint", &mint, "--to", "child", "--amount", "1"]);
    let options = Options::parse(&args, &["wallet", "mint", "to", "amount"]).ok().unwrap();
    let mut data = vault();
    let transfer = TokenTransfer::new(&data, &options).ok().unwrap();
    assert!(!transfer.remembers(false));
    assert!(!transfer.sent(&mut data, false));
    assert!(data.recipients.is_empty());
    assert!(transfer.remembers(true));
    assert!(transfer.sent(&mut data, true));
    assert_eq!(data.recipients, [*child.as_array()]);
    // A full list is saved as it is.
    let mut data = vault();
    data.recipients = vec![[3; 32]; 256];
    assert!(transfer.sent(&mut data, true));
    assert_eq!(data.recipients.len(), 256);
}
