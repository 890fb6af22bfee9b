use vstd::prelude::*;
use vstd::utf8::{encode_utf8, encode_utf8_decode_utf8};
use crate::hex_text::{hex_of, to_hex};
use crate::leaf::{AssetData, Hash32, leaf_of};
use crate::merkle::{
    build_proof, compute_root, lemma_proof_len, lemma_proof_leads_to_root, proof_of, root_of, root_opt, walk,
    walk_proof,
};

verus! {

/// Why the store refused an operation.
#[derive(Debug, PartialEq, Eq, Structural)]
pub enum StoreError {
    /// A batch would give one symbol two records in the snapshot.
    DuplicateSymbol,
    /// `commit` found no staged leaves.
    EmptyCommit,
}

/// The leaves of a sequence of records, in order.
pub open spec fn leaves_of(recs: Seq<AssetData>) -> Seq<Hash32> {
    recs.map_values(|d: AssetData| leaf_of(d))
}

/// No symbol occurs twice.
pub open spec fn unique_symbols(recs: Seq<AssetData>) -> bool {
    forall|i: int, j: int|
        0 <= i < j < recs.len() ==> #[trigger] recs[i].symbol@ != #[trigger] recs[j].symbol@
}

/// Every symbol is short enough to encode.
pub open spec fn all_encodable(recs: Seq<AssetData>) -> bool {
    forall|i: int| 0 <= i < recs.len() ==> #[trigger] recs[i].encodable()
}

/// `hs` is the proof of record `i` as one hex text per 32-byte sibling.
pub open spec fn hex_proof(recs: Seq<AssetData>, i: int, hs: Seq<String>) -> bool {
    let p = proof_of(leaves_of(recs), i);
    &&& hs.len() * 32 == p.len()
    &&& forall|k: int|
        0 <= k < hs.len() ==> #[trigger] hs[k]@ == hex_of(p.subrange(32 * k, 32 * k + 32))
}

/// Record `i` carries the symbol `sym`.
pub open spec fn holds_symbol(recs: Seq<AssetData>, sym: Seq<char>, i: int) -> bool {
    0 <= i < recs.len() && recs[i].symbol@ == sym
}

/// The snapshot: records in leaf order, their leaves, the root over the staged
/// leaves and the root that was last committed.
pub struct AssetDataStore {
    leaves: Vec<Hash32>,
    records: Vec<AssetData>,
    committed: Option<Hash32>,
    uncommitted: Option<Hash32>,
}

/// Whether two strings hold the same characters.
pub fn same_symbol(a: &str, b: &str) -> (r: bool)
    ensures
        r == (a@ == b@),
{
    let x = a.as_bytes();
    let y = b.as_bytes();
    proof {
        encode_utf8_decode_utf8(a@);
        encode_utf8_decode_utf8(b@);
    }
    if x.len() != y.len() {
        return false;
    }
    let mut k: usize = 0;
    while k < x.len()
        invariant
            k <= x@.len(),
            x@.len() == y@.len(),
            x@ == encode_utf8(a@),
            y@ == encode_utf8(b@),
            forall|j: int| 0 <= j < k ==> x@[j] == y@[j],
        decreases x@.len() - k,
    {
        if x[k] != y[k] {
            assert(x@ != y@);
            return false;
        }
        k = k + 1;
    }
    assert(x@ =~= y@);
    true
}

/// The first of `recs[..upto]` that carries `sym`.
fn find_symbol(recs: &Vec<AssetData>, upto: usize, sym: &str) -> (r: Option<usize>)
    requires
        upto <= recs.len(),
    ensures
        match r {
            Some(i) => i < upto && recs@[i as int].symbol@ == sym@,
            None => forall|i: int| 0 <= i < upto ==> recs@[i].symbol@ != sym@,
        },
{
    let mut k: usize = 0;
    while k < upto
        invariant
            upto <= recs.len(),
            k <= upto,
            forall|i: int| 0 <= i < k ==> recs@[i].symbol@ != sym@,
        decreases upto - k,
    {
        if same_symbol(recs[k].symbol.as_str(), sym) {
            return Some(k);
        }
        k = k + 1;
    }
    None
}

/// The hex text of the 32 bytes of `p` from `start`.
fn chunk_hex(p: &Vec<u8>, start: usize) -> (r: String)
    requires
        start + 32 <= p@.len(),
    ensures
        r@ == hex_of(p@.subrange(start as int, start + 32)),
{
    let mut chunk: Vec<u8> = Vec::new();
    let mut k: usize = 0;
    while k < 32
        invariant
            k <= 32,
            start + 32 <= p.len(),
            chunk@ =~= p@.subrange(start as int, start + k),
        decreases 32 - k,
    {
        chunk.push(p[start + k]);
        k = k + 1;
    }
    to_hex(chunk.as_slice())
}

fn hash_eq(a: &Hash32, b: &Hash32) -> (r: bool)
    ensures
        r == (*a == *b),
{
    let mut k: usize = 0;
    while k < 32
        invariant
            k <= 32,
            forall|j: int| 0 <= j < k ==> a@[j] == b@[j],
        decreases 32 - k,
    {
        if a[k] != b[k] {
            return false;
        }
        k = k + 1;
    }
    assert(*a =~= *b);
    true
}

impl AssetDataStore {
    /// The records of the snapshot, in leaf order.
    pub closed spec fn records(&self) -> Seq<AssetData> {
        self.records@
    }

    /// The root that was last committed, if any since the store was cleared.
    pub closed spec fn committed_root(&self) -> Option<Hash32> {
        self.committed
    }

    /// The root over the staged leaves.
    pub open spec fn staged_root(&self) -> Option<Hash32> {
        root_opt(leaves_of(self.records()))
    }

    /// The leaves and the staged root agree with the records.
    pub closed spec fn inv(&self) -> bool {
        &&& self.leaves@ == leaves_of(self.records@)
        &&& self.uncommitted == root_opt(self.leaves@)
    }

    /// The store's invariant.
    pub open spec fn wf(&self) -> bool {
        &&& self.inv()
        &&& unique_symbols(self.records())
        &&& all_encodable(self.records())
    }

    pub fn new() -> (r: AssetDataStore)
        ensures
            r.wf(),
            r.records() == Seq::<AssetData>::empty(),
            r.committed_root() is None,
    {
        let r = AssetDataStore {
            leaves: Vec::new(),
            records: Vec::new(),
            committed: None,
            uncommitted: None,
        };
        assert(r.leaves@ =~= leaves_of(r.records@));
        r
    }

    /// Stages a batch after the present records, or refuses the whole batch
    /// when a symbol would occur twice.
    pub fn add_batch_asset_data(&mut self, batch_asset_data: Vec<AssetData>) -> (r: Result<
        (),
        StoreError,
    >)
        requires
            old(self).wf(),
            all_encodable(batch_asset_data@),
        ensures
            final(self).wf(),
            final(self).committed_root() == old(self).committed_root(),
            r is Ok <==> unique_symbols(old(self).records() + batch_asset_data@),
            r is Ok ==> final(self).records() == old(self).records() + batch_asset_data@,
            r is Err ==> r == Err::<(), StoreError>(StoreError::DuplicateSymbol),
            r is Err ==> final(self).records() == old(self).records(),
    {
        let ghost all = self.records@ + batch_asset_data@;
        let n = self.records.len();
        let mut j: usize = 0;
        assert(all.subrange(0, n as int) =~= self.records@);
        while j < batch_asset_data.len()
            invariant
                self.wf(),
                self.records@ == old(self).records@,
                self.committed == old(self).committed,
                n == self.records@.len(),
                all == self.records@ + batch_asset_data@,
                j <= batch_asset_data.len(),
                unique_symbols(self.records@),
                unique_symbols(all.subrange(0, n + j)),
            decreases batch_asset_data.len() - j,
        {
            let sym = batch_asset_data[j].symbol.as_str();
            let hit_old = find_symbol(&self.records, n, sym);
            if let Some(p) = hit_old {
                assert(all[p as int].symbol@ == all[n + j].symbol@);
                return Err(StoreError::DuplicateSymbol);
            }
            let hit_new = find_symbol(&batch_asset_data, j, sym);
            if let Some(p) = hit_new {
                assert(all[n + p].symbol@ == all[n + j].symbol@);
                return Err(StoreError::DuplicateSymbol);
            }
            assert forall|a: int, b: int|
                0 <= a < b < n + j + 1 implies #[trigger] all.subrange(0, n + j + 1)[a].symbol@
                != #[trigger] all.subrange(0, n + j + 1)[b].symbol@ by {
                if b < n + j {
                    assert(all.subrange(0, n + j)[a] == all[a]);
                    assert(all.subrange(0, n + j)[b] == all[b]);
                } else if a < n {
                    assert(all[a] == self.records@[a]);
                } else {
                    assert(all[a] == batch_asset_data@[a - n]);
                }
            }
            j = j + 1;
        }
        assert(all.subrange(0, n + j) =~= all);
        let mut k: usize = 0;
        while k < batch_asset_data.len()
            invariant
                n <= self.records@.len(),
                all == old(self).records@ + batch_asset_data@,
                k <= batch_asset_data.len(),
                self.records@ =~= all.subrange(0, n + k),
                self.leaves@ == leaves_of(self.records@),
                self.committed == old(self).committed,
                all_encodable(batch_asset_data@),
                n == old(self).records@.len(),
            decreases batch_asset_data.len() - k,
        {
            let d = batch_asset_data[k].copy();
            assert(batch_asset_data@[k as int].encodable());
            let leaf = d.to_leaf();
            self.records.push(d);
            self.leaves.push(leaf);
            assert(self.leaves@ =~= leaves_of(self.records@));
            k = k + 1;
        }
        self.uncommitted = compute_root(&self.leaves);
        assert(all_encodable(all));
        Ok(())
    }

    /// Makes the root over the staged leaves the committed root.
    pub fn commit(&mut self) -> (r: Result<(), StoreError>)
        requires
            old(self).wf(),
        ensures
            final(self).wf(),
            final(self).records() == old(self).records(),
            r is Ok <==> old(self).records().len() > 0,
            r is Ok ==> final(self).committed_root() == old(self).staged_root(),
            r is Err ==> r == Err::<(), StoreError>(StoreError::EmptyCommit),
            r is Err ==> final(self).committed_root() == old(self).committed_root(),
    {
        if self.records.len() == 0 {
            return Err(StoreError::EmptyCommit);
        }
        self.committed = self.uncommitted;
        Ok(())
    }

    /// Empties the store: no records, no roots.
    pub fn clear(&mut self)
        ensures
            final(self).wf(),
            final(self).records() == Seq::<AssetData>::empty(),
            final(self).committed_root() is None,
    {
        *self = AssetDataStore::new();
    }

    /// The record of `symbol`.
    pub fn get_asset_data(&self, symbol: &str) -> (r: Option<&AssetData>)
        requires
            self.wf(),
        ensures
            match r {
                Some(d) => exists|i: int|
                    holds_symbol(self.records(), symbol@, i) && self.records()[i] == *d,
                None => forall|i: int| !holds_symbol(self.records(), symbol@, i),
            },
    {
        match find_symbol(&self.records, self.records.len(), symbol) {
            Some(i) => Some(&self.records[i]),
            None => None,
        }
    }

    pub fn get_root(&self) -> (r: Option<Hash32>)
        ensures
            r == self.committed_root(),
    {
        self.committed
    }

    pub fn get_root_hex(&self) -> (r: Option<String>)
        ensures
            r is Some <==> self.committed_root() is Some,
            r is Some ==> r->0@ == hex_of(self.committed_root()->0@),
    {
        match &self.committed {
            Some(h) => Some(to_hex(h.as_slice())),
            None => None,
        }
    }

    pub fn get_uncommitted_root(&self) -> (r: Option<Hash32>)
        requires
            self.wf(),
        ensures
            r == self.staged_root(),
    {
        self.uncommitted
    }

    pub fn get_uncommitted_root_hex(&self) -> (r: Option<String>)
        requires
            self.wf(),
        ensures
            r is Some <==> self.staged_root() is Some,
            r is Some ==> r->0@ == hex_of(self.staged_root()->0@),
    {
        match &self.uncommitted {
            Some(h) => Some(to_hex(h.as_slice())),
            None => None,
        }
    }

    /// The inclusion proof of `symbol`'s leaf.
    pub fn generate_proof(&self, symbol: &str) -> (r: Option<Vec<u8>>)
        requires
            self.wf(),
        ensures
            match r {
                Some(p) => exists|i: int|
                    holds_symbol(self.records(), symbol@, i) && p@ == proof_of(
                        leaves_of(self.records()),
                        i,
                    ),
                None => forall|i: int| !holds_symbol(self.records(), symbol@, i),
            },
    {
        match find_symbol(&self.records, self.records.len(), symbol) {
            Some(i) => Some(build_proof(&self.leaves, i)),
            None => None,
        }
    }

    /// The inclusion proof of `symbol`'s leaf as one hex text per sibling.
    pub fn generate_proof_hex(&self, symbol: &str) -> (r: Option<Vec<String>>)
        requires
            self.wf(),
        ensures
            match r {
                Some(hs) => exists|i: int|
                    holds_symbol(self.records(), symbol@, i) && #[trigger] hex_proof(
                        self.records(),
                        i,
                        hs@,
                    ),
                None => forall|i: int| !holds_symbol(self.records(), symbol@, i),
            },
    {
        match find_symbol(&self.records, self.records.len(), symbol) {
            Some(i) => {
                let p = build_proof(&self.leaves, i);
                proof {
                    lemma_proof_len(self.leaves@, i as int);
                }
                let mut hs: Vec<String> = Vec::new();
                let mut pos: usize = 0;
                while pos < p.len()
                    invariant
                        self.wf(),
                        holds_symbol(self.records(), symbol@, i as int),
                        p@ == proof_of(self.leaves@, i as int),
                        p@.len() % 32 == 0,
                        pos % 32 == 0,
                        pos <= p@.len(),
                        hs@.len() * 32 == pos,
                        forall|k: int|
                            0 <= k < hs@.len() ==> #[trigger] hs@[k]@ == hex_of(
                                p@.subrange(32 * k, 32 * k + 32),
                            ),
                    decreases p@.len() - pos,
                {
                    let h = chunk_hex(&p, pos);
                    hs.push(h);
                    pos = pos + 32;
                }
                assert(holds_symbol(self.records(), symbol@, i as int));
                assert(hex_proof(self.records(), i as int, hs@));
                let r = Some(hs);
                assert(hex_proof(self.records(), i as int, r->0@));
                r
            },
            None => None,
        }
    }

    /// Whether `proof_hashes` leads from `symbol`'s leaf, recomputed from its
    /// record, to `root`; absent when the symbol has no record.
    pub fn verify_proof(&self, proof_hashes: Vec<u8>, root: Hash32, symbol: &str) -> (r: Option<
        bool,
    >)
        requires
            self.wf(),
        ensures
            match r {
                Some(b) => exists|i: int|
                    holds_symbol(self.records(), symbol@, i) && b == (walk(
                        leaf_of(self.records()[i]),
                        i,
                        self.records().len() as int,
                        proof_hashes@,
                    ) == Some(root)),
                None => forall|i: int| !holds_symbol(self.records(), symbol@, i),
            },
    {
        match find_symbol(&self.records, self.records.len(), symbol) {
            Some(i) => {
                assert(self.records@[i as int].encodable());
                assert(holds_symbol(self.records(), symbol@, i as int));
                let leaf = self.records[i].to_leaf();
                match walk_proof(leaf, i, self.records.len(), proof_hashes.as_slice()) {
                    Some(h) => Some(hash_eq(&h, &root)),
                    None => Some(false),
                }
            },
            None => None,
        }
    }
}

/// Once the staged root is committed, the proof issued for any record
/// verifies against the committed root.
pub proof fn lemma_issued_proof_verifies(store: AssetDataStore, i: int)
    requires
        store.wf(),
        store.committed_root() == store.staged_root(),
        0 <= i < store.records().len(),
    ensures
        walk(
            leaf_of(store.records()[i]),
            i,
            store.records().len() as int,
            proof_of(leaves_of(store.records()), i),
        ) == store.committed_root(),
{
    lemma_proof_leads_to_root(leaves_of(store.records()), i);
}

/// Staging two batches one after the other gives the same records, and so
/// the same root, as staging them as one batch.
pub proof fn lemma_batches_compose(before: Seq<AssetData>, a: Seq<AssetData>, b: Seq<AssetData>)
    ensures
        (before + a) + b == before + (a + b),
        root_opt(leaves_of((before + a) + b)) == root_opt(leaves_of(before + (a + b))),
{
    assert((before + a) + b =~= before + (a + b));
}

/// Clearing and then staging `x` gives the root computed over `x` alone,
/// whatever the store held before.
pub proof fn lemma_clear_then_stage(x: Seq<AssetData>)
    ensures
        root_opt(leaves_of(Seq::<AssetData>::empty() + x)) == root_opt(leaves_of(x)),
{
    assert(Seq::<AssetData>::empty() + x =~= x);
}

} // verus!
