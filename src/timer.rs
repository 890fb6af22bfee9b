use vstd::prelude::*;
use crate::hex_text::hex_of;
use crate::leaf::{AssetData, Hash32, MAX_SYMBOL_BYTES};
use crate::merkle::root_opt;
use crate::registry::{dispatches_of, ChainRegistry, Dispatch};
use crate::store::{
    all_encodable, hex_proof, holds_symbol, leaves_of, unique_symbols, AssetDataStore, StoreError,
};

verus! {

/// A rate as the price source reports it.
#[derive(Debug)]
pub struct RateDataLight {
    pub rate: u64,
    pub timestamp: u64,
    pub decimals: u8,
}

/// A tracked pair and, once fetched, its rate.
#[derive(Debug)]
pub struct Pair {
    pub id: String,
    pub rate_data: Option<RateDataLight>,
}

/// The price source could not deliver.
#[derive(Debug)]
pub struct FetchError {
    pub message: String,
}

/// Why a snapshot cycle left the committed snapshot as it was.
#[derive(Debug)]
pub enum CycleError {
    Fetch(FetchError),
    /// A pair came back without a rate.
    MissingRate,
    /// A pair's id is too long to encode.
    SymbolTooLong,
    /// No pair came back.
    EmptySnapshot,
    /// Two pairs share an id.
    DuplicateSymbol,
}

/// What a completed cycle committed to, and whom to send it to.
#[derive(Debug)]
pub struct CycleOutcome {
    pub root: Hash32,
    pub root_hex: String,
    pub dispatches: Vec<Dispatch>,
}

/// Every pair carries a rate.
pub open spec fn rates_present(pairs: Seq<Pair>) -> bool {
    forall|k: int| 0 <= k < pairs.len() ==> (#[trigger] pairs[k]).rate_data is Some
}

/// The record of a pair with a rate.
pub open spec fn asset_of(p: Pair) -> AssetData {
    AssetData {
        symbol: p.id,
        price: p.rate_data->0.rate,
        timestamp: p.rate_data->0.timestamp,
        decimals: p.rate_data->0.decimals as u64,
    }
}

/// The records of pairs with rates, in order.
pub open spec fn assets_of(pairs: Seq<Pair>) -> Seq<AssetData> {
    pairs.map_values(|p: Pair| asset_of(p))
}

/// The records of the fetched pairs, one per pair, in order.
pub fn map_pairs_to_asset_data(pairs: Vec<Pair>) -> (r: Vec<AssetData>)
    requires
        rates_present(pairs@),
    ensures
        r@ == assets_of(pairs@),
{
    let mut r: Vec<AssetData> = Vec::new();
    let mut k: usize = 0;
    while k < pairs.len()
        invariant
            k <= pairs@.len(),
            rates_present(pairs@),
            r@ =~= assets_of(pairs@).subrange(0, k as int),
        decreases pairs@.len() - k,
    {
        let pair = &pairs[k];
        assert(pairs@[k as int].rate_data is Some);
        match &pair.rate_data {
            Some(rate_data) => {
                r.push(
                    AssetData {
                        symbol: pair.id.clone(),
                        price: rate_data.rate,
                        timestamp: rate_data.timestamp,
                        decimals: rate_data.decimals as u64,
                    },
                );
            },
            None => {},
        }
        k = k + 1;
    }
    assert(assets_of(pairs@).subrange(0, k as int) =~= assets_of(pairs@));
    r
}

fn check_rates(pairs: &Vec<Pair>) -> (r: bool)
    ensures
        r == rates_present(pairs@),
{
    let mut k: usize = 0;
    while k < pairs.len()
        invariant
            k <= pairs@.len(),
            forall|j: int| 0 <= j < k ==> (#[trigger] pairs@[j]).rate_data is Some,
        decreases pairs@.len() - k,
    {
        if pairs[k].rate_data.is_none() {
            return false;
        }
        k = k + 1;
    }
    true
}

fn check_encodable(recs: &Vec<AssetData>) -> (r: bool)
    ensures
        r == all_encodable(recs@),
{
    let mut k: usize = 0;
    while k < recs.len()
        invariant
            k <= recs@.len(),
            forall|j: int| 0 <= j < k ==> (#[trigger] recs@[j]).encodable(),
        decreases recs@.len() - k,
    {
        if recs[k].symbol.as_str().as_bytes().len() > MAX_SYMBOL_BYTES {
            assert(!recs@[k as int].encodable());
            return false;
        }
        k = k + 1;
    }
    true
}

/// The scheduler's state: its period and the snapshot it last committed.
pub struct Timer {
    pub interval: u64,
    pub asset_data_store: AssetDataStore,
}

impl Timer {
    pub fn new(interval: u64) -> (r: Timer)
        ensures
            r.interval == interval,
            r.asset_data_store.wf(),
            r.asset_data_store.records() == Seq::<AssetData>::empty(),
            r.asset_data_store.committed_root() is None,
    {
        Timer { interval, asset_data_store: AssetDataStore::new() }
    }

    /// Sets the period of the ticks; the snapshot is untouched.
    pub fn set_interval(&mut self, interval: u64)
        ensures
            final(self).interval == interval,
            final(self).asset_data_store == old(self).asset_data_store,
    {
        self.interval = interval;
    }

    /// One snapshot cycle, given what the price source returned: the rates
    /// become the new snapshot, its root is committed and handed to every
    /// active subscription. On any failure the previous snapshot and its
    /// committed root stay as they were.
    pub fn fetch_prices_and_send_transactions(
        &mut self,
        fetched: Result<Vec<Pair>, FetchError>,
        registry: &ChainRegistry,
    ) -> (r: Result<CycleOutcome, CycleError>)
        requires
            old(self).asset_data_store.wf(),
        ensures
            final(self).asset_data_store.wf(),
            final(self).interval == old(self).interval,
            r is Err ==> final(self).asset_data_store == old(self).asset_data_store,
            fetched is Err ==> r == Err::<CycleOutcome, CycleError>(
                CycleError::Fetch(fetched->Err_0),
            ),
            fetched is Ok ==> {
                let pairs = fetched->Ok_0@;
                let recs = assets_of(pairs);
                if !rates_present(pairs) {
                    r == Err::<CycleOutcome, CycleError>(CycleError::MissingRate)
                } else if !all_encodable(recs) {
                    r == Err::<CycleOutcome, CycleError>(CycleError::SymbolTooLong)
                } else if recs.len() == 0 {
                    r == Err::<CycleOutcome, CycleError>(CycleError::EmptySnapshot)
                } else if !unique_symbols(recs) {
                    r == Err::<CycleOutcome, CycleError>(CycleError::DuplicateSymbol)
                } else {
                    &&& r is Ok
                    &&& final(self).asset_data_store.records() == recs
                    &&& final(self).asset_data_store.committed_root() == root_opt(
                        leaves_of(recs),
                    )
                    &&& Some(r->Ok_0.root) == root_opt(leaves_of(recs))
                    &&& r->Ok_0.root_hex@ == hex_of(r->Ok_0.root@)
                    &&& r->Ok_0.dispatches@ == dispatches_of(registry.chains@)
                }
            },
    {
        let pairs = match fetched {
            Err(e) => {
                return Err(CycleError::Fetch(e));
            },
            Ok(pairs) => pairs,
        };
        if !check_rates(&pairs) {
            return Err(CycleError::MissingRate);
        }
        let assets = map_pairs_to_asset_data(pairs);
        if !check_encodable(&assets) {
            return Err(CycleError::SymbolTooLong);
        }
        if assets.len() == 0 {
            return Err(CycleError::EmptySnapshot);
        }
        let mut fresh = AssetDataStore::new();
        proof {
            assert(Seq::<AssetData>::empty() + assets@ =~= assets@);
        }
        match fresh.add_batch_asset_data(assets) {
            Ok(()) => {},
            Err(_) => {
                return Err(CycleError::DuplicateSymbol);
            },
        }
        let dispatches = registry.active_dispatches();
        match fresh.commit() {
            Ok(()) => {},
            Err(_) => {
                return Err(CycleError::EmptySnapshot);
            },
        }
        let root = match fresh.get_root() {
            Some(h) => h,
            None => {
                return Err(CycleError::EmptySnapshot);
            },
        };
        let root_hex = match fresh.get_root_hex() {
            Some(s) => s,
            None => {
                return Err(CycleError::EmptySnapshot);
            },
        };
        self.asset_data_store = fresh;
        Ok(CycleOutcome { root, root_hex, dispatches })
    }

    /// The record of `symbol` with its inclusion proof against the committed
    /// snapshot, one hex text per sibling.
    pub fn get_asset_data_with_proof(&self, symbol: &str) -> (r: Option<(&AssetData, Vec<String>)>)
        requires
            self.asset_data_store.wf(),
        ensures
            match r {
                Some(found) => exists|i: int|
                    holds_symbol(self.asset_data_store.records(), symbol@, i)
                        && self.asset_data_store.records()[i] == *found.0 && #[trigger] hex_proof(
                        self.asset_data_store.records(),
                        i,
                        found.1@,
                    ),
                None => forall|i: int|
                    !holds_symbol(self.asset_data_store.records(), symbol@, i),
            },
    {
        let asset_data = match self.asset_data_store.get_asset_data(symbol) {
            Some(d) => d,
            None => {
                return None;
            },
        };
        let proof = match self.asset_data_store.generate_proof_hex(symbol) {
            Some(p) => p,
            None => {
                return None;
            },
        };
        let ghost recs = self.asset_data_store.records();
        let ghost i = choose|i: int| holds_symbol(recs, symbol@, i) && recs[i] == *asset_data;
        let ghost j = choose|j: int| holds_symbol(recs, symbol@, j) && hex_proof(recs, j, proof@);
        proof {
            if i != j {
                if i < j {
                    assert(recs[i].symbol@ != recs[j].symbol@);
                } else {
                    assert(recs[j].symbol@ != recs[i].symbol@);
                }
            }
        }
        let r = Some((asset_data, proof));
        assert(hex_proof(recs, i, (r->0).1@));
        r
    }
}

} // verus!
