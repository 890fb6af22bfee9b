use sybil::leaf::AssetData;
use sybil::store::{AssetDataStore, StoreError};

fn asset(symbol: &str, price: u64, timestamp: u64, decimals: u64) -> AssetData {
    AssetData { symbol: symbol.to_string(), price, timestamp, decimals }
}

fn create_sample_data() -> Vec<AssetData> {
    vec![
        asset("LTC/USD", 22, 1_000_003, 2),
        asset("BTC/USD", 45000, 1_000_000, 2),
        asset("ICP/USD", 10, 1_000_009, 2),
        asset("ETH/USD", 3000, 1000000, 2),
        asset("WWW/USD", 300, 1_000_010, 2),
    ]
}

#[test]
fn test_add_batch_asset_data() {
    let mut store = AssetDataStore::new();
    let data = create_sample_data();

    store.add_batch_asset_data(data.clone()).unwrap();

    assert_eq!(store.get_asset_data("BTC/USD"), Some(&data[1]));
    assert_eq!(store.get_asset_data("ETH/USD"), Some(&data[3]));
}

#[test]
fn test_generate_and_verify_proof() {
    let mut store = AssetDataStore::new();
    let data = create_sample_data();

    store.add_batch_asset_data(data.clone()).unwrap();
    store.commit().unwrap();

    let root = store.get_root().unwrap();

    let proof_ltc = store.generate_proof("LTC/USD").unwrap();
    let proof_btc = store.generate_proof("BTC/USD").unwrap();
    let proof_eth = store.generate_proof("ETH/USD").unwrap();
    let proof_icp = store.generate_proof("ICP/USD").unwrap();
    let proof_www = store.generate_proof("WWW/USD").unwrap();

    assert_eq!(store.verify_proof(proof_ltc, root, "LTC/USD"), Some(true));
    assert_eq!(store.verify_proof(proof_btc, root, "BTC/USD"), Some(true));
    assert_eq!(store.verify_proof(proof_eth, root, "ETH/USD"), Some(true));
    assert_eq!(store.verify_proof(proof_icp, root, "ICP/USD"), Some(true));
    assert_eq!(store.verify_proof(proof_www, root, "WWW/USD"), Some(true));
}

#[test]
fn single_leaf_tree() {
    let mut store = AssetDataStore::new();
    let d = asset("ICP/USD", 10, 1_000_009, 2);
    store.add_batch_asset_data(vec![d.clone()]).unwrap();
    store.commit().unwrap();
    let root = store.get_root().unwrap();
    let proof = store.generate_proof("ICP/USD").unwrap();
    assert!(proof.is_empty());
    assert_eq!(store.verify_proof(proof, root, "ICP/USD"), Some(true));
    assert_eq!(root, d.to_leaf());
}

#[test]
fn five_leaves_tampered_price_fails() {
    let mut store = AssetDataStore::new();
    store.add_batch_asset_data(create_sample_data()).unwrap();
    store.commit().unwrap();
    let root = store.get_root().unwrap();
    let proof = store.generate_proof("BTC/USD").unwrap();
    assert_eq!(proof.len(), 3 * 32);

    let mut tampered = create_sample_data();
    tampered[1].price = 45001;
    let mut other = AssetDataStore::new();
    other.add_batch_asset_data(tampered).unwrap();
    assert_eq!(other.verify_proof(proof.clone(), root, "BTC/USD"), Some(false));
    assert_eq!(store.verify_proof(proof, root, "BTC/USD"), Some(true));
}

#[test]
fn tampered_proof_or_root_fails() {
    let mut store = AssetDataStore::new();
    store.add_batch_asset_data(create_sample_data()).unwrap();
    store.commit().unwrap();
    let root = store.get_root().unwrap();
    let proof = store.generate_proof("ETH/USD").unwrap();

    let mut bad_proof = proof.clone();
    bad_proof[5] ^= 1;
    assert_eq!(store.verify_proof(bad_proof, root, "ETH/USD"), Some(false));

    let mut bad_root = root;
    bad_root[0] ^= 0x80;
    assert_eq!(store.verify_proof(proof.clone(), bad_root, "ETH/USD"), Some(false));

    let mut short = proof.clone();
    short.pop();
    assert_eq!(store.verify_proof(short, root, "ETH/USD"), Some(false));

    assert_eq!(store.verify_proof(proof, root, "DOGE/USD"), None);
}

#[test]
fn staging_is_isolated_until_commit() {
    let data = create_sample_data();
    let mut store = AssetDataStore::new();
    store.add_batch_asset_data(vec![data[0].clone(), data[1].clone()]).unwrap();
    store.commit().unwrap();
    let root0 = store.get_root().unwrap();
    assert_eq!(store.get_uncommitted_root(), Some(root0));

    store.add_batch_asset_data(vec![data[2].clone()]).unwrap();
    assert_eq!(store.get_root(), Some(root0));
    let staged = store.get_uncommitted_root().unwrap();
    assert_ne!(staged, root0);

    store.clear();
    assert_eq!(store.get_root(), None);
    assert_eq!(store.get_uncommitted_root(), None);
    assert_eq!(store.get_asset_data("LTC/USD"), None);
}

#[test]
fn duplicate_symbol_rejects_whole_batch() {
    let mut store = AssetDataStore::new();
    store.add_batch_asset_data(vec![asset("ETH/USD", 5, 5, 2)]).unwrap();
    let before = store.get_uncommitted_root();
    let r = store.add_batch_asset_data(vec![asset("BTC/USD", 1, 1, 2), asset("BTC/USD", 2, 2, 2)]);
    assert_eq!(r, Err(StoreError::DuplicateSymbol));
    assert_eq!(store.get_uncommitted_root(), before);
    assert_eq!(store.get_asset_data("BTC/USD"), None);

    let r = store.add_batch_asset_data(vec![asset("ETH/USD", 6, 6, 2)]);
    assert_eq!(r, Err(StoreError::DuplicateSymbol));
    assert_eq!(store.get_asset_data("ETH/USD").unwrap().price, 5);
}

#[test]
fn commit_of_empty_store_fails() {
    let mut store = AssetDataStore::new();
    assert_eq!(store.commit(), Err(StoreError::EmptyCommit));
    assert_eq!(store.get_root(), None);
    assert_eq!(store.get_root_hex(), None);
}

#[test]
fn batches_in_parts_give_same_root() {
    let data = create_sample_data();
    let mut whole = AssetDataStore::new();
    whole.add_batch_asset_data(data.clone()).unwrap();
    let mut parts = AssetDataStore::new();
    parts.add_batch_asset_data(data[..2].to_vec()).unwrap();
    parts.add_batch_asset_data(data[2..].to_vec()).unwrap();
    assert_eq!(whole.get_uncommitted_root(), parts.get_uncommitted_root());
}

#[test]
fn clear_then_stage_equals_fresh_root() {
    let data = create_sample_data();
    let mut store = AssetDataStore::new();
    store.add_batch_asset_data(vec![asset("XRP/USD", 1, 2, 3)]).unwrap();
    store.commit().unwrap();
    store.clear();
    store.add_batch_asset_data(data.clone()).unwrap();
    store.commit().unwrap();
    let mut fresh = AssetDataStore::new();
    fresh.add_batch_asset_data(data).unwrap();
    fresh.commit().unwrap();
    assert_eq!(store.get_root(), fresh.get_root());
}

#[test]
fn root_hex_is_lower_case_hex_of_root() {
    let mut store = AssetDataStore::new();
    store.add_batch_asset_data(create_sample_data()).unwrap();
    assert_eq!(store.get_root_hex(), None);
    let staged = store.get_uncommitted_root().unwrap();
    assert_eq!(store.get_uncommitted_root_hex(), Some(hex::encode(staged)));
    store.commit().unwrap();
    let hex_root = store.get_root_hex().unwrap();
    assert_eq!(hex_root.len(), 64);
    assert_eq!(hex_root, hex::encode(store.get_root().unwrap()));
    assert!(hex_root.chars().all(|c| c.is_ascii_digit() || ('a'..='f').contains(&c)));
}

#[test]
fn proof_hex_matches_proof_bytes() {
    let mut store = AssetDataStore::new();
    store.add_batch_asset_data(create_sample_data()).unwrap();
    store.commit().unwrap();
    let bytes = store.generate_proof("WWW/USD").unwrap();
    let hexes = store.generate_proof_hex("WWW/USD").unwrap();
    assert_eq!(hexes.len() * 32, bytes.len());
    for (k, h) in hexes.iter().enumerate() {
        assert_eq!(h, &hex::encode(&bytes[32 * k..32 * k + 32]));
    }
    assert_eq!(store.generate_proof_hex("NOPE"), None);
    assert_eq!(store.generate_proof("NOPE"), None);
}
