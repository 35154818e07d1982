use wallet_tracker::commands::{
    register_wallet, remove_tracked_wallet, list_transactions, list_wallets, RegisterOutcome,
    RemoveOutcome, StartCommand, TxListOutcome,
};
use wallet_tracker::models::{
    EtherScanErc, EtherScanErcDetails, EtherScanTrx, EtherScanTrxDetail, Transaction, User,
};
use wallet_tracker::poller::run_cycle;
use wallet_tracker::repository::{DataRepository, MemoryRepository};
use wallet_tracker::supervisor::{notice_recipients, recover_pollers};

const ADDR: &str = "0x5aAeb6053F3E94C9b9A09f33669435E7Ef1BeAed";
const ADDR2: &str = "0xfB6916095ca1df60bB79Ce92cE3Ea74c37c5d359";

fn trx_detail(hash: &str, value: &str, is_error: &str) -> EtherScanTrxDetail {
    EtherScanTrxDetail {
        blockNumber: "1".to_string(),
        timeStamp: "0".to_string(),
        hash: hash.to_string(),
        nonce: "0".to_string(),
        blockHash: "b".to_string(),
        transactionIndex: "0".to_string(),
        from: "alice".to_string(),
        to: "bob".to_string(),
        value: value.to_string(),
        gas: "21000".to_string(),
        gasPrice: "1".to_string(),
        isError: is_error.to_string(),
        txreceipt_status: "1".to_string(),
        input: "0x".to_string(),
        contractAddress: "".to_string(),
        cumulativeGasUsed: "21000".to_string(),
        gasUsed: "21000".to_string(),
        confirmations: "10".to_string(),
    }
}

fn erc_detail(hash: &str, value: &str, token_name: &str, token_decimal: &str) -> EtherScanErcDetails {
    EtherScanErcDetails {
        blockNumber: "1".to_string(),
        timeStamp: "0".to_string(),
        hash: hash.to_string(),
        nonce: "0".to_string(),
        blockHash: "b".to_string(),
        from: "carol".to_string(),
        contractAddress: "c".to_string(),
        to: "dave".to_string(),
        value: value.to_string(),
        tokenName: token_name.to_string(),
        tokenSymbol: "TOK".to_string(),
        tokenDecimal: token_decimal.to_string(),
        transactionIndex: "0".to_string(),
        gas: "60000".to_string(),
        gasPrice: "1".to_string(),
        gasUsed: "60000".to_string(),
        cumulativeGasUsed: "60000".to_string(),
        input: "0x".to_string(),
        confirmations: "10".to_string(),
    }
}

fn trx_answer(d: EtherScanTrxDetail) -> Option<EtherScanTrx> {
    Some(EtherScanTrx { status: "1".to_string(), message: "OK".to_string(), result: vec![d] })
}

fn erc_answer(d: EtherScanErcDetails) -> Option<EtherScanErc> {
    Some(EtherScanErc { status: "1".to_string(), message: "OK".to_string(), result: vec![d] })
}

#[test]
fn start_registers_a_user_once() {
    let mut repo = MemoryRepository::new();
    let start = StartCommand::new();
    assert!(!start.handle(&mut repo, 42));
    assert!(start.handle(&mut repo, 42));
    let u = repo.get_user(42).expect("user exists after start");
    assert_eq!(u.chat_id, "42");
}

#[test]
fn register_requires_start_and_a_valid_address() {
    let mut repo = MemoryRepository::new();
    let (outcome, p) = register_wallet(&mut repo, 42, "0xnotanaddress");
    assert!(matches!(outcome, RegisterOutcome::InvalidAddress));
    assert!(p.is_none());
    let (outcome, p) = register_wallet(&mut repo, 42, ADDR);
    assert!(matches!(outcome, RegisterOutcome::UserNotFound));
    assert!(p.is_none());
}

#[test]
fn register_persists_the_wallet_for_the_user() {
    let mut repo = MemoryRepository::new();
    StartCommand::new().handle(&mut repo, 42);
    let (outcome, p) = register_wallet(&mut repo, 42, ADDR);
    assert!(matches!(outcome, RegisterOutcome::Registered));
    let poller = p.expect("a poller is handed back");
    assert!(poller.is_active());
    assert_eq!(poller.address, ADDR);
    assert_eq!(poller.chat_id, 42);
    let u = repo.get_user(42).unwrap();
    let w = repo.get_wallet(None, ADDR.to_string()).expect("wallet persisted");
    assert_eq!(w.address, ADDR);
    assert_eq!(Some(w.user_id), u.id);
    let (outcome, _) = register_wallet(&mut repo, 42, ADDR);
    assert!(matches!(outcome, RegisterOutcome::AlreadyTracked));
}

#[test]
fn native_transfer_is_persisted_and_notified() {
    let mut repo = MemoryRepository::new();
    StartCommand::new().handle(&mut repo, 42);
    let (_, p) = register_wallet(&mut repo, 42, ADDR);
    let mut poller = p.unwrap();
    let native = trx_answer(trx_detail("H1", "2000000000000000000", "0"));
    let notes = run_cycle(&mut poller, &mut repo, &native, &None);
    assert!(poller.is_active());
    assert_eq!(notes.len(), 1);
    assert_eq!(notes[0].chat_id, 42);
    assert!(notes[0].text.contains("Transfer 2 ETH"));
    let t = repo
        .get_transaction("H1".to_string(), None, Some("ETH".to_string()))
        .expect("transaction stored");
    assert_eq!(t.token, "ETH");
    assert_eq!(t.decimal, 18);
    assert!(t.status);
    assert_eq!(t.amount, "2000000000000000000");
    assert_eq!(t.wallet_id, poller.wallet_id);
}

#[test]
fn repeated_transfer_is_deduplicated() {
    let mut repo = MemoryRepository::new();
    StartCommand::new().handle(&mut repo, 42);
    let (_, p) = register_wallet(&mut repo, 42, ADDR);
    let mut poller = p.unwrap();
    let native = trx_answer(trx_detail("H1", "2000000000000000000", "0"));
    let first = run_cycle(&mut poller, &mut repo, &native, &None);
    assert_eq!(first.len(), 1);
    // a later cycle returns the identical transfer again
    let second = run_cycle(&mut poller, &mut repo, &native, &None);
    assert_eq!(second.len(), 0);
    let rows = repo.get_all_transactions(poller.wallet_id);
    assert_eq!(rows.len(), 1);
}

#[test]
fn same_hash_different_token_is_a_different_key() {
    let mut repo = MemoryRepository::new();
    StartCommand::new().handle(&mut repo, 42);
    let (_, p) = register_wallet(&mut repo, 42, ADDR);
    let mut poller = p.unwrap();
    let native = trx_answer(trx_detail("H1", "2000000000000000000", "0"));
    let erc = erc_answer(erc_detail("H1", "500000", "Tether USD", "6"));
    let notes = run_cycle(&mut poller, &mut repo, &native, &erc);
    assert_eq!(notes.len(), 2);
    assert!(notes[1].text.contains("Transfer 0.5 Tether USD"));
    let rows = repo.get_all_transactions(poller.wallet_id);
    assert_eq!(rows.len(), 2);
    let t = repo
        .get_transaction("H1".to_string(), None, Some("Tether USD".to_string()))
        .unwrap();
    assert_eq!(t.decimal, 6);
    assert!(t.status);
}

#[test]
fn zero_value_native_transfer_is_skipped() {
    let mut repo = MemoryRepository::new();
    StartCommand::new().handle(&mut repo, 42);
    let (_, p) = register_wallet(&mut repo, 42, ADDR);
    let mut poller = p.unwrap();
    let native = trx_answer(trx_detail("H3", "0", "0"));
    let notes = run_cycle(&mut poller, &mut repo, &native, &None);
    assert_eq!(notes.len(), 0);
    assert!(repo.get_transaction("H3".to_string(), None, None).is_none());
}

#[test]
fn failed_fetches_are_swallowed() {
    let mut repo = MemoryRepository::new();
    StartCommand::new().handle(&mut repo, 42);
    let (_, p) = register_wallet(&mut repo, 42, ADDR);
    let mut poller = p.unwrap();
    let notes = run_cycle(&mut poller, &mut repo, &None, &None);
    assert_eq!(notes.len(), 0);
    assert!(poller.is_active());
    assert_eq!(repo.get_all_transactions(poller.wallet_id).len(), 0);
}

#[test]
fn removed_wallet_stops_the_poller_without_effects() {
    let mut repo = MemoryRepository::new();
    StartCommand::new().handle(&mut repo, 42);
    let (_, p) = register_wallet(&mut repo, 42, ADDR);
    let mut poller = p.unwrap();
    assert!(matches!(
        remove_tracked_wallet(&mut repo, 42, ADDR),
        RemoveOutcome::Removed
    ));
    assert!(repo.get_wallet(None, ADDR.to_string()).is_none());
    // the still-running poller observes the deletion at its next check
    let native = trx_answer(trx_detail("H1", "2000000000000000000", "0"));
    let notes = run_cycle(&mut poller, &mut repo, &native, &None);
    assert_eq!(notes.len(), 0);
    assert!(!poller.is_active());
    assert!(repo.get_transaction("H1".to_string(), None, None).is_none());
}

#[test]
fn removal_cascades_to_transactions() {
    let mut repo = MemoryRepository::new();
    StartCommand::new().handle(&mut repo, 42);
    let (_, p) = register_wallet(&mut repo, 42, ADDR);
    let mut poller = p.unwrap();
    let native = trx_answer(trx_detail("H1", "2000000000000000000", "0"));
    run_cycle(&mut poller, &mut repo, &native, &None);
    let wallet_id = poller.wallet_id;
    assert_eq!(repo.get_all_transactions(wallet_id).len(), 1);
    remove_tracked_wallet(&mut repo, 42, ADDR);
    assert_eq!(repo.get_all_transactions(wallet_id).len(), 0);
}

#[test]
fn remove_rejects_untracked_and_unknown() {
    let mut repo = MemoryRepository::new();
    assert!(matches!(
        remove_tracked_wallet(&mut repo, 42, "junk"),
        RemoveOutcome::InvalidAddress
    ));
    assert!(matches!(
        remove_tracked_wallet(&mut repo, 42, ADDR),
        RemoveOutcome::UserNotFound
    ));
    StartCommand::new().handle(&mut repo, 42);
    assert!(matches!(
        remove_tracked_wallet(&mut repo, 42, ADDR),
        RemoveOutcome::NotTracked
    ));
}

#[test]
fn listing_wallets_and_transactions() {
    let mut repo = MemoryRepository::new();
    assert!(list_wallets(&repo, 42).is_none());
    StartCommand::new().handle(&mut repo, 42);
    assert_eq!(list_wallets(&repo, 42).unwrap().len(), 0);
    let (_, p) = register_wallet(&mut repo, 42, ADDR);
    register_wallet(&mut repo, 42, ADDR2);
    let ws = list_wallets(&repo, 42).unwrap();
    assert_eq!(ws.len(), 2);
    assert_eq!(ws[0].address, ADDR);
    assert_eq!(ws[1].address, ADDR2);
    let mut poller = p.unwrap();
    let native = trx_answer(trx_detail("H1", "2000000000000000000", "0"));
    run_cycle(&mut poller, &mut repo, &native, &None);
    match list_transactions(&repo, 42, ADDR) {
        TxListOutcome::Transactions(ts) => {
            assert_eq!(ts.len(), 1);
            assert_eq!(ts[0].tx_hash, "H1");
        }
        _ => panic!("expected the stored transactions"),
    }
    assert!(matches!(
        list_transactions(&repo, 42, ADDR2),
        TxListOutcome::Transactions(_)
    ));
    assert!(matches!(
        list_transactions(&repo, 7, ADDR),
        TxListOutcome::UserNotFound
    ));
    assert!(matches!(
        list_transactions(&repo, 42, "bad"),
        TxListOutcome::InvalidAddress
    ));
}

#[test]
fn recovery_spawns_one_poller_per_owned_wallet() {
    let mut repo = MemoryRepository::new();
    StartCommand::new().handle(&mut repo, 10);
    StartCommand::new().handle(&mut repo, 20);
    register_wallet(&mut repo, 10, ADDR);
    register_wallet(&mut repo, 20, ADDR2);
    // a wallet whose owner does not exist is skipped
    repo.add_wallet(999, ADDR.to_string());
    let pollers = recover_pollers(&repo);
    assert_eq!(pollers.len(), 2);
    assert!(pollers[0].is_active());
    assert_eq!(pollers[0].address, ADDR);
    assert_eq!(pollers[0].chat_id, 10);
    assert_eq!(pollers[1].address, ADDR2);
    assert_eq!(pollers[1].chat_id, 20);
}

#[test]
fn notice_reaches_users_with_parseable_ids() {
    let users = vec![
        User::new("5".to_string(), Some(1)),
        User::new("garbled".to_string(), Some(2)),
        User::new("-12".to_string(), Some(3)),
    ];
    assert_eq!(notice_recipients(&users), vec![5, -12]);
}

#[test]
fn transaction_renders_its_notification_text() {
    let t = Transaction::new(
        "alice".to_string(),
        "bob".to_string(),
        "1000000000000000000".to_string(),
        "H9".to_string(),
        "ETH".to_string(),
        1,
        0,
        None,
        None,
    );
    assert!(t.status);
    assert_eq!(
        t.to_string(),
        "Transfer 1 ETH, From alice To bob.\nLink: https://etherscan.io/tx/H9"
    );
    let u = Transaction::new(
        "alice".to_string(),
        "bob".to_string(),
        "500000".to_string(),
        "HA".to_string(),
        "Tether USD".to_string(),
        1,
        0,
        None,
        Some(false),
    );
    assert!(!u.status);
    assert_eq!(
        u.to_string(),
        "Transfer 0.5 Tether USD, From alice To bob.\nLink: https://etherscan.io/tx/HA"
    );
}

#[test]
fn ledger_records_render_their_notification_text() {
    let d = trx_detail("H1", "2000000000000000000", "0");
    assert_eq!(
        d.format_as_str(),
        "Transfer 2 ETH, From alice To bob.\nLink: https://etherscan.io/tx/H1"
    );
    let e = erc_detail("H2", "500000", "Tether USD", "6");
    assert_eq!(
        e.format_as_str(),
        "Transfer 0.5 Tether USD, From carol To dave.\nLink: https://etherscan.io/tx/H2"
    );
    // an unparseable decimal count falls back to zero
    let e0 = erc_detail("H2", "500000", "Tether USD", "junk");
    assert!(e0.format_as_str().contains("Transfer 500000 Tether USD"));
}

#[test]
fn removal_is_scoped_to_the_requesting_user() {
    let mut repo = MemoryRepository::new();
    StartCommand::new().handle(&mut repo, 5);
    StartCommand::new().handle(&mut repo, 7);
    let (_, p5) = register_wallet(&mut repo, 5, ADDR);
    let (outcome, _) = register_wallet(&mut repo, 7, ADDR);
    assert!(matches!(outcome, RegisterOutcome::Registered));
    let mut poller5 = p5.unwrap();
    let native = trx_answer(trx_detail("H1", "2000000000000000000", "0"));
    run_cycle(&mut poller5, &mut repo, &native, &None);
    // one user's removal must not touch the other user's wallet
    assert!(matches!(
        remove_tracked_wallet(&mut repo, 7, ADDR),
        RemoveOutcome::Removed
    ));
    assert!(matches!(
        remove_tracked_wallet(&mut repo, 7, ADDR),
        RemoveOutcome::NotTracked
    ));
    let u5 = repo.get_user(5).unwrap();
    let w5 = repo
        .get_wallet(Some(u5.id.unwrap()), ADDR.to_string())
        .expect("the other user's wallet survives");
    assert_eq!(w5.address, ADDR);
    assert_eq!(repo.get_all_transactions(w5.id.unwrap()).len(), 1);
    // the survivor's poller keeps running
    let notes = run_cycle(&mut poller5, &mut repo, &None, &None);
    assert!(poller5.is_active());
    assert_eq!(notes.len(), 0);
}

#[test]
fn duplicate_detection_ignores_address_case() {
    let mut repo = MemoryRepository::new();
    StartCommand::new().handle(&mut repo, 42);
    let uid = repo.get_user(42).unwrap().id.unwrap();
    // a row stored outside the command layer, in another casing
    repo.add_wallet(uid, ADDR.to_lowercase());
    assert!(repo.get_wallet_folded(uid, ADDR.to_string()).is_some());
    let (outcome, p) = register_wallet(&mut repo, 42, ADDR);
    assert!(matches!(outcome, RegisterOutcome::AlreadyTracked));
    assert!(p.is_none());
}
