use sybil::notify::{notify, notify_subscribers, PublishError};
use sybil::registry::{Chain, ChainRegistry, RegistryError, Subscription};
use sybil::timer::{map_pairs_to_asset_data, CycleError, FetchError, Pair, RateDataLight, Timer};

fn sub(id: u64, chain_id: u64, active: bool) -> Subscription {
    Subscription {
        id,
        chain_id,
        contract_addr: format!("0xc{}", id),
        method_abi: "function setRoot(bytes32)".to_string(),
        address: format!("0xa{}", id),
        rpc: "https://rpc.example".to_string(),
        active,
    }
}

fn registry() -> ChainRegistry {
    let mut reg = ChainRegistry::new();
    reg.add_chain(Chain {
        chain_id: 1,
        rpc: "https://one.example".to_string(),
        subscriptions: vec![sub(10, 1, true), sub(11, 1, true)],
    })
    .unwrap();
    reg
}

fn pair(id: &str, rate: u64, timestamp: u64, decimals: u8) -> Pair {
    Pair { id: id.to_string(), rate_data: Some(RateDataLight { rate, timestamp, decimals }) }
}

#[test]
fn pairs_become_records_in_order() {
    let recs = map_pairs_to_asset_data(vec![pair("BTC/USD", 45000, 7, 2), pair("ETH/USD", 3000, 8, 9)]);
    assert_eq!(recs.len(), 2);
    assert_eq!(recs[0].symbol, "BTC/USD");
    assert_eq!(recs[0].price, 45000);
    assert_eq!(recs[1].timestamp, 8);
    assert_eq!(recs[1].decimals, 9);
}

#[test]
fn cycle_commits_and_dispatches_active_subscriptions() {
    let reg = registry();
    let mut timer = Timer::new(60);
    let out = timer
        .fetch_prices_and_send_transactions(Ok(vec![pair("BTC/USD", 1, 1, 2), pair("ETH/USD", 2, 2, 2)]), &reg)
        .unwrap();
    assert_eq!(timer.asset_data_store.get_root(), Some(out.root));
    assert_eq!(out.root_hex, hex::encode(out.root));
    assert_eq!(out.dispatches.len(), 2);
    assert_eq!(out.dispatches[0].subscription.id, 10);
    assert_eq!(out.dispatches[1].chain_rpc, "https://one.example");
    let (d, proof) = timer.get_asset_data_with_proof("ETH/USD").unwrap();
    assert_eq!(d.price, 2);
    assert_eq!(proof.len(), 1);
    assert!(timer.get_asset_data_with_proof("XRP/USD").is_none());
}

#[test]
fn publisher_deactivates_underfunded_subscription() {
    let mut reg = registry();
    let a = sub(10, 1, true);
    let b = sub(11, 1, true);
    assert_eq!(notify(&mut reg, &a, 1, Some(0), 100), Err(PublishError::InsufficientFunds));
    assert_eq!(notify(&mut reg, &b, 1, Some(500), 100), Ok(()));
    assert!(!reg.chains[0].subscriptions[0].active);
    assert!(reg.chains[0].subscriptions[1].active);

    let mut timer = Timer::new(60);
    let out = timer.fetch_prices_and_send_transactions(Ok(vec![pair("BTC/USD", 1, 1, 2)]), &reg).unwrap();
    assert_eq!(out.dispatches.len(), 1);
    assert_eq!(out.dispatches[0].subscription.id, 11);
    let subs = notify_subscribers(&reg, 1).unwrap();
    assert_eq!(subs.len(), 1);
    assert_eq!(subs[0].id, 11);
}

#[test]
fn failed_balance_query_deactivates() {
    let mut reg = registry();
    let a = sub(11, 1, true);
    assert_eq!(notify(&mut reg, &a, 1, None, 1), Err(PublishError::BalanceQueryFailed));
    assert!(!reg.chains[0].subscriptions[1].active);
    assert_eq!(notify(&mut reg, &a, 9, Some(0), 1), Err(PublishError::ChainNotFound));
}

#[test]
fn unknown_chain_and_duplicate_chain() {
    let mut reg = registry();
    assert!(matches!(notify_subscribers(&reg, 2), Err(RegistryError::ChainNotFound)));
    let r = reg.add_chain(Chain { chain_id: 1, rpc: String::new(), subscriptions: vec![] });
    assert_eq!(r, Err(RegistryError::DuplicateChain));
    assert_eq!(reg.deactivate(3, 10), Err(RegistryError::ChainNotFound));
}

#[test]
fn fetch_failure_keeps_committed_root() {
    let reg = registry();
    let mut timer = Timer::new(60);
    let out = timer.fetch_prices_and_send_transactions(Ok(vec![pair("BTC/USD", 1, 1, 2)]), &reg).unwrap();
    let r = timer.fetch_prices_and_send_transactions(
        Err(FetchError { message: "unreachable".to_string() }),
        &reg,
    );
    assert!(matches!(r, Err(CycleError::Fetch(_))));
    assert_eq!(timer.asset_data_store.get_root(), Some(out.root));
}

#[test]
fn bad_fetches_keep_committed_root() {
    let reg = registry();
    let mut timer = Timer::new(60);
    let out = timer.fetch_prices_and_send_transactions(Ok(vec![pair("BTC/USD", 1, 1, 2)]), &reg).unwrap();
    let r = timer.fetch_prices_and_send_transactions(Ok(vec![]), &reg);
    assert!(matches!(r, Err(CycleError::EmptySnapshot)));
    let r = timer.fetch_prices_and_send_transactions(
        Ok(vec![pair("BTC/USD", 1, 1, 2), Pair { id: "ETH/USD".to_string(), rate_data: None }]),
        &reg,
    );
    assert!(matches!(r, Err(CycleError::MissingRate)));
    let r = timer.fetch_prices_and_send_transactions(Ok(vec![pair("BTC/USD", 1, 1, 2), pair("BTC/USD", 2, 2, 2)]), &reg);
    assert!(matches!(r, Err(CycleError::DuplicateSymbol)));
    assert_eq!(timer.asset_data_store.get_root(), Some(out.root));
    timer.set_interval(5);
    assert_eq!(timer.interval, 5);
    assert_eq!(timer.asset_data_store.get_root(), Some(out.root));
}
