use vstd::prelude::*;

verus! {

/// A standing order to publish each new root to one contract on one chain.
#[derive(Debug)]
pub struct Subscription {
    pub id: u64,
    pub chain_id: u64,
    /// The contract that receives the root.
    pub contract_addr: String,
    /// The ABI of the contract's method that takes the root.
    pub method_abi: String,
    /// The account that pays for gas.
    pub address: String,
    /// The RPC endpoint used for this subscription's balance query.
    pub rpc: String,
    pub active: bool,
}

impl Subscription {
    pub fn copy(&self) -> (r: Subscription)
        ensures
            r == *self,
    {
        Subscription {
            id: self.id,
            chain_id: self.chain_id,
            contract_addr: self.contract_addr.clone(),
            method_abi: self.method_abi.clone(),
            address: self.address.clone(),
            rpc: self.rpc.clone(),
            active: self.active,
        }
    }
}

/// A chain with its RPC endpoint and its subscriptions, in order.
#[derive(Debug)]
pub struct Chain {
    pub chain_id: u64,
    pub rpc: String,
    pub subscriptions: Vec<Subscription>,
}

/// One publication of a root: a subscription and the chain it is sent to.
#[derive(Debug)]
pub struct Dispatch {
    pub chain_id: u64,
    pub chain_rpc: String,
    pub subscription: Subscription,
}

/// Why the registry refused an operation.
#[derive(Debug, PartialEq, Eq, Structural)]
pub enum RegistryError {
    ChainNotFound,
    DuplicateChain,
}

/// The active subscriptions of `subs`, in order.
pub open spec fn active_subscriptions(subs: Seq<Subscription>) -> Seq<Subscription>
    decreases subs.len(),
{
    if subs.len() == 0 {
        Seq::empty()
    } else {
        let rest = active_subscriptions(subs.drop_last());
        if subs.last().active {
            rest.push(subs.last())
        } else {
            rest
        }
    }
}

/// The dispatch of subscription `s` of chain `c`.
pub open spec fn dispatch_of(c: Chain, s: Subscription) -> Dispatch {
    Dispatch { chain_id: c.chain_id, chain_rpc: c.rpc, subscription: s }
}

/// The dispatches of every active subscription, chain by chain, in order.
pub open spec fn dispatches_of(chains: Seq<Chain>) -> Seq<Dispatch>
    decreases chains.len(),
{
    if chains.len() == 0 {
        Seq::empty()
    } else {
        let c = chains.last();
        dispatches_of(chains.drop_last()) + active_subscriptions(c.subscriptions@).map_values(
            |s: Subscription| dispatch_of(c, s),
        )
    }
}

/// `subs` with every subscription of id `id` switched off.
pub open spec fn deactivated(subs: Seq<Subscription>, id: u64) -> Seq<Subscription> {
    subs.map_values(
        |s: Subscription|
            if s.id == id {
                Subscription { active: false, ..s }
            } else {
                s
            },
    )
}

/// `after` is `before` with every subscription of id `sub_id` on chain
/// `chain_id` switched off.
pub open spec fn switched_off(before: Seq<Chain>, after: Seq<Chain>, chain_id: u64, sub_id: u64) -> bool {
    &&& after.len() == before.len()
    &&& forall|i: int|
        0 <= i < before.len() ==> {
            let c = #[trigger] before[i];
            let d = after[i];
            if c.chain_id == chain_id {
                d.chain_id == c.chain_id && d.rpc == c.rpc && d.subscriptions@ == deactivated(
                    c.subscriptions@,
                    sub_id,
                )
            } else {
                d == c
            }
        }
}

/// Chain `i` has id `id`.
pub open spec fn has_chain(chains: Seq<Chain>, id: u64, i: int) -> bool {
    0 <= i < chains.len() && chains[i].chain_id == id
}

/// Every active subscription of `subs` is kept, and only those.
pub proof fn lemma_active_only(subs: Seq<Subscription>)
    ensures
        forall|k: int|
            0 <= k < active_subscriptions(subs).len() ==> (#[trigger] active_subscriptions(
                subs,
            )[k]).active,
    decreases subs.len(),
{
    if subs.len() > 0 {
        let rest = active_subscriptions(subs.drop_last());
        lemma_active_only(subs.drop_last());
        assert forall|k: int| 0 <= k < active_subscriptions(subs).len() implies (
        #[trigger] active_subscriptions(subs)[k]).active by {
            if k < rest.len() {
                assert(active_subscriptions(subs)[k] == rest[k]);
            }
        }
    }
}

/// A dispatch is only ever made for an active subscription.
pub proof fn lemma_dispatches_active(chains: Seq<Chain>)
    ensures
        forall|k: int|
            0 <= k < dispatches_of(chains).len() ==> (#[trigger] dispatches_of(
                chains,
            )[k]).subscription.active,
    decreases chains.len(),
{
    if chains.len() > 0 {
        let c = chains.last();
        lemma_dispatches_active(chains.drop_last());
        lemma_active_only(c.subscriptions@);
        let head = dispatches_of(chains.drop_last());
        let tail = active_subscriptions(c.subscriptions@).map_values(
            |s: Subscription| dispatch_of(c, s),
        );
        assert forall|k: int| 0 <= k < dispatches_of(chains).len() implies (
        #[trigger] dispatches_of(chains)[k]).subscription.active by {
            if k >= head.len() {
                assert(dispatches_of(chains)[k] == tail[k - head.len()]);
                assert(active_subscriptions(c.subscriptions@)[k - head.len()].active);
            } else {
                assert(dispatches_of(chains)[k] == head[k]);
            }
        }
    }
}

/// The active subscriptions of `subs`, copied.
pub fn collect_active(subs: &Vec<Subscription>) -> (r: Vec<Subscription>)
    ensures
        r@ == active_subscriptions(subs@),
{
    let mut r: Vec<Subscription> = Vec::new();
    let mut k: usize = 0;
    while k < subs.len()
        invariant
            k <= subs.len(),
            r@ == active_subscriptions(subs@.subrange(0, k as int)),
        decreases subs.len() - k,
    {
        assert(subs@.subrange(0, k + 1).drop_last() =~= subs@.subrange(0, k as int));
        if subs[k].active {
            r.push(subs[k].copy());
        }
        k = k + 1;
    }
    assert(subs@.subrange(0, k as int) =~= subs@);
    r
}

/// The registry of chains; chain ids are unique.
pub struct ChainRegistry {
    pub chains: Vec<Chain>,
}

impl ChainRegistry {
    /// No two chains share an id.
    pub open spec fn wf(&self) -> bool {
        forall|i: int, j: int|
            0 <= i < j < self.chains@.len() ==> #[trigger] self.chains@[i].chain_id
                != #[trigger] self.chains@[j].chain_id
    }

    pub fn new() -> (r: ChainRegistry)
        ensures
            r.wf(),
            r.chains@ == Seq::<Chain>::empty(),
    {
        ChainRegistry { chains: Vec::new() }
    }

    /// The position of the chain with id `chain_id`.
    pub fn find_chain(&self, chain_id: u64) -> (r: Option<usize>)
        ensures
            match r {
                Some(i) => has_chain(self.chains@, chain_id, i as int),
                None => forall|i: int|
                    0 <= i < self.chains@.len() ==> #[trigger] self.chains@[i].chain_id
                        != chain_id,
            },
    {
        let mut k: usize = 0;
        while k < self.chains.len()
            invariant
                k <= self.chains@.len(),
                forall|i: int| 0 <= i < k ==> #[trigger] self.chains@[i].chain_id != chain_id,
            decreases self.chains@.len() - k,
        {
            if self.chains[k].chain_id == chain_id {
                return Some(k);
            }
            k = k + 1;
        }
        None
    }

    /// Adds a chain, unless one with its id is already there.
    pub fn add_chain(&mut self, chain: Chain) -> (r: Result<(), RegistryError>)
        requires
            old(self).wf(),
        ensures
            final(self).wf(),
            r is Ok <==> forall|i: int| !has_chain(old(self).chains@, chain.chain_id, i),
            r is Ok ==> final(self).chains@ == old(self).chains@.push(chain),
            r is Err ==> r == Err::<(), RegistryError>(RegistryError::DuplicateChain),
            r is Err ==> final(self).chains@ == old(self).chains@,
    {
        match self.find_chain(chain.chain_id) {
            Some(_) => Err(RegistryError::DuplicateChain),
            None => {
                let ghost id = chain.chain_id;
                self.chains.push(chain);
                assert forall|a: int, b: int|
                    0 <= a < b < self.chains@.len() implies #[trigger] self.chains@[a].chain_id
                    != #[trigger] self.chains@[b].chain_id by {
                    if b == self.chains@.len() - 1 {
                        assert(!has_chain(old(self).chains@, id, a));
                    } else {
                        assert(old(self).chains@[a].chain_id != old(self).chains@[b].chain_id);
                    }
                }
                Ok(())
            },
        }
    }

    /// Switches off every subscription of id `subscription_id` on chain
    /// `chain_id`; nothing else changes.
    pub fn deactivate(&mut self, chain_id: u64, subscription_id: u64) -> (r: Result<
        (),
        RegistryError,
    >)
        requires
            old(self).wf(),
        ensures
            final(self).wf(),
            r is Ok <==> exists|i: int| has_chain(old(self).chains@, chain_id, i),
            r is Err ==> r == Err::<(), RegistryError>(RegistryError::ChainNotFound),
            r is Err ==> final(self).chains@ == old(self).chains@,
            switched_off(old(self).chains@, final(self).chains@, chain_id, subscription_id),
    {
        match self.find_chain(chain_id) {
            None => Err(RegistryError::ChainNotFound),
            Some(i) => {
                let old_subs = &self.chains[i].subscriptions;
                let mut subs: Vec<Subscription> = Vec::new();
                let mut k: usize = 0;
                while k < old_subs.len()
                    invariant
                        k <= old_subs@.len(),
                        subs@ =~= deactivated(old_subs@, subscription_id).subrange(0, k as int),
                    decreases old_subs@.len() - k,
                {
                    let mut s = old_subs[k].copy();
                    if s.id == subscription_id {
                        s.active = false;
                    }
                    subs.push(s);
                    k = k + 1;
                }
                assert(subs@ =~= deactivated(old_subs@, subscription_id));
                let ghost pos = i as int;
                assert(old_subs@ == old(self).chains@[pos].subscriptions@);
                let chain = Chain {
                    chain_id: self.chains[i].chain_id,
                    rpc: self.chains[i].rpc.clone(),
                    subscriptions: subs,
                };
                self.chains.set(i, chain);
                assert forall|a: int, b: int|
                    0 <= a < b < self.chains@.len() implies #[trigger] self.chains@[a].chain_id
                    != #[trigger] self.chains@[b].chain_id by {
                    assert(old(self).chains@[a].chain_id != old(self).chains@[b].chain_id);
                }
                assert forall|j: int| 0 <= j < old(self).chains@.len() && j != i implies
                    #[trigger] old(self).chains@[j].chain_id != chain_id by {
                    if j < i {
                        assert(old(self).chains@[j].chain_id != old(self).chains@[i as int].chain_id);
                    } else {
                        assert(old(self).chains@[i as int].chain_id != old(self).chains@[j].chain_id);
                    }
                }
                assert(self.chains@[pos].subscriptions@ == deactivated(
                    old(self).chains@[pos].subscriptions@,
                    subscription_id,
                ));
                assert(self.chains@[pos].rpc == old(self).chains@[pos].rpc);
                assert forall|j: int| 0 <= j < old(self).chains@.len() && j != pos implies
                    #[trigger] self.chains@[j] == old(self).chains@[j] by {}
                Ok(())
            },
        }
    }

    /// The dispatches of every active subscription of every chain.
    pub fn active_dispatches(&self) -> (r: Vec<Dispatch>)
        ensures
            r@ == dispatches_of(self.chains@),
    {
        let mut r: Vec<Dispatch> = Vec::new();
        let mut i: usize = 0;
        while i < self.chains.len()
            invariant
                i <= self.chains@.len(),
                r@ == dispatches_of(self.chains@.subrange(0, i as int)),
            decreases self.chains@.len() - i,
        {
            let c = &self.chains[i];
            let subs = collect_active(&c.subscriptions);
            let ghost start = r@;
            let mut k: usize = 0;
            while k < subs.len()
                invariant
                    k <= subs@.len(),
                    r@ =~= start + subs@.subrange(0, k as int).map_values(
                        |s: Subscription| dispatch_of(*c, s),
                    ),
                decreases subs@.len() - k,
            {
                r.push(Dispatch { chain_id: c.chain_id, chain_rpc: c.rpc.clone(), subscription: subs[k].copy() });
                k = k + 1;
            }
            assert(subs@.subrange(0, k as int) =~= subs@);
            assert(self.chains@.subrange(0, i + 1).drop_last() =~= self.chains@.subrange(0, i as int));
            i = i + 1;
        }
        assert(self.chains@.subrange(0, i as int) =~= self.chains@);
        r
    }
}

} // verus!
