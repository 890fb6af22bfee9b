use vstd::prelude::*;
use crate::registry::{
    active_subscriptions, collect_active, has_chain, switched_off, ChainRegistry, RegistryError,
    Subscription,
};

verus! {

/// The active subscriptions of chain `chain_id`, to be handed to the
/// publisher one by one.
pub fn notify_subscribers(registry: &ChainRegistry, chain_id: u64) -> (r: Result<
    Vec<Subscription>,
    RegistryError,
>)
    ensures
        r is Err <==> forall|i: int| !has_chain(registry.chains@, chain_id, i),
        r is Err ==> r == Err::<Vec<Subscription>, RegistryError>(RegistryError::ChainNotFound),
        match r {
            Ok(subs) => exists|i: int|
                has_chain(registry.chains@, chain_id, i) && subs@ == active_subscriptions(
                    registry.chains@[i].subscriptions@,
                ),
            Err(_) => true,
        },
{
    match registry.find_chain(chain_id) {
        Some(i) => Ok(collect_active(&registry.chains[i].subscriptions)),
        None => Err(RegistryError::ChainNotFound),
    }
}

/// Why a publication did not go out.
#[derive(Debug, PartialEq, Eq, Structural)]
pub enum PublishError {
    /// The gas balance could not be read; the subscription was switched off.
    BalanceQueryFailed,
    /// The gas balance is below the minimum; the subscription was switched off.
    InsufficientFunds,
    /// The subscription's chain is not in the registry.
    ChainNotFound,
}

/// Decides one publication once the gas balance of the subscription's payer
/// has been queried (`None`: the query failed). With enough gas the
/// transaction may be submitted; otherwise the subscription is switched off.
pub fn notify(
    registry: &mut ChainRegistry,
    subscription: &Subscription,
    chain_id: u64,
    balance: Option<u128>,
    min_balance: u128,
) -> (r: Result<(), PublishError>)
    requires
        old(registry).wf(),
    ensures
        final(registry).wf(),
        (balance is Some && balance->0 >= min_balance) ==> r is Ok && final(registry).chains@
            == old(registry).chains@,
        !(balance is Some && balance->0 >= min_balance) ==> {
            if exists|i: int| has_chain(old(registry).chains@, chain_id, i) {
                &&& switched_off(
                    old(registry).chains@,
                    final(registry).chains@,
                    chain_id,
                    subscription.id,
                )
                &&& r == Err::<(), PublishError>(
                    if balance is None {
                        PublishError::BalanceQueryFailed
                    } else {
                        PublishError::InsufficientFunds
                    },
                )
            } else {
                &&& final(registry).chains@ == old(registry).chains@
                &&& r == Err::<(), PublishError>(PublishError::ChainNotFound)
            }
        },
{
    let err = match balance {
        Some(b) => {
            if b >= min_balance {
                return Ok(());
            }
            PublishError::InsufficientFunds
        },
        None => PublishError::BalanceQueryFailed,
    };
    match registry.deactivate(chain_id, subscription.id) {
        Ok(()) => Err(err),
        Err(_) => Err(PublishError::ChainNotFound),
    }
}

} // verus!
