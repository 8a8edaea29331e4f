//! What holds of the registry and of the aggregation, stated over the
//! partition's model.
use crate::aggregate::{active_at, is_step, kyc_proved, none_active, KycStep};
use crate::registry::{added, banned, lemma_added_wf, registry_wf, unbanned};
use crate::store::DictModel;
use vstd::prelude::*;

verus! {

/// Whether some active provider at an index in `from..n` confirms the
/// account by `oracle`.
pub open spec fn proved_from(m: DictModel, n: u64, from: int, oracle: spec_fn(Seq<u8>) -> bool) -> bool {
    exists|i: u64| #![trigger active_at(m, i)] from <= i < n && active_at(m, i) && oracle(m.index[i])
}

/// The partition after registering each of `ps`, in order.
pub open spec fn added_all(m: DictModel, ps: Seq<Seq<u8>>) -> DictModel
    decreases ps.len(),
{
    if ps.len() == 0 {
        m
    } else {
        added(added_all(m, ps.drop_last()), ps.last())
    }
}

/// With no provider registered, no account is proved: the walk ends at
/// once with `false`.
pub proof fn lemma_empty_registry(m: DictModel, r: KycStep, oracle: spec_fn(Seq<u8>) -> bool)
    requires
        registry_wf(m, 0),
        is_step(m, 0, 0, None, r),
    ensures
        r == KycStep::Done(false),
        !kyc_proved(m, 0, oracle),
{
}

/// Each step of the walk follows the aggregation: ending with `false`
/// means that no active provider from `from` on confirms, and asking the
/// provider at `index` leaves to decide whether it or one after it
/// confirms. So a walk from `0` whose answers come from `oracle` ends with
/// `kyc_proved(m, n, oracle)`.
pub proof fn lemma_step_follows_aggregation(
    m: DictModel,
    n: u64,
    from: u64,
    r: KycStep,
    oracle: spec_fn(Seq<u8>) -> bool,
)
    requires
        registry_wf(m, n),
        is_step(m, n, from, None, r) || is_step(m, n, from, Some(false), r),
    ensures
        kyc_proved(m, n, oracle) == proved_from(m, n, 0, oracle),
        r == KycStep::Done(false) ==> !proved_from(m, n, from as int, oracle),
        r matches KycStep::Consult { index, provider } ==> proved_from(m, n, from as int, oracle)
            == (oracle(provider@) || proved_from(m, n, index + 1, oracle)),
{
    if let KycStep::Consult { index, provider } = r {
        if proved_from(m, n, from as int, oracle) {
            let i = choose|i: u64|
                #![trigger active_at(m, i)]
                from <= i < n && active_at(m, i) && oracle(m.index[i]);
            if i != index {
                assert(!active_at(m, i) || i > index);
            }
        }
        if proved_from(m, n, index + 1, oracle) {
            let i = choose|i: u64|
                #![trigger active_at(m, i)]
                index + 1 <= i < n && active_at(m, i) && oracle(m.index[i]);
            assert(from <= i);
        }
        if oracle(provider@) {
            assert(active_at(m, index));
        }
    }
}

/// Registering distinct new providers one after another gives them the
/// next indices in the order of the calls, and the count grows by one for
/// each.
pub proof fn lemma_distinct_adds(m: DictModel, n: u64, ps: Seq<Seq<u8>>)
    requires
        registry_wf(m, n),
        n + ps.len() <= u64::MAX,
        ps.no_duplicates(),
        forall|j: int| 0 <= j < ps.len() ==> !m.status.contains_key(#[trigger] ps[j]),
    ensures
        registry_wf(added_all(m, ps), (n + ps.len()) as u64),
        forall|k: u64| k < n ==> #[trigger] added_all(m, ps).index[k] == m.index[k],
        forall|j: int| 0 <= j < ps.len() ==> #[trigger] added_all(m, ps).index[(n + j) as u64] == ps[j],
    decreases ps.len(),
{
    if ps.len() > 0 {
        let front = ps.drop_last();
        let p = ps.last();
        assert forall|j: int| 0 <= j < front.len() implies !m.status.contains_key(#[trigger] front[j]) by {
            assert(front[j] == ps[j]);
        }
        assert(front.no_duplicates()) by {
            assert forall|a: int, b: int| 0 <= a < front.len() && 0 <= b < front.len() && a != b implies front[a] != front[b] by {
                assert(front[a] == ps[a] && front[b] == ps[b]);
            }
        }
        lemma_distinct_adds(m, n, front);
        let mf = added_all(m, front);
        let nf = (n + front.len()) as u64;
        assert(!mf.status.contains_key(p)) by {
            if mf.status.contains_key(p) {
                let k = choose|k: u64| #![trigger mf.index[k]] k < nf && mf.index[k] == p;
                if k < n {
                    assert(mf.index[k] == m.index[k]);
                    assert(m.status.contains_key(m.index[k]));
                    assert(ps[ps.len() - 1] == p);
                } else {
                    let j = k - n;
                    assert(mf.index[(n + j) as u64] == front[j]);
                    assert(front[j] == ps[j]);
                    assert(ps[ps.len() - 1] == p);
                }
            }
        }
        lemma_added_wf(mf, nf, p);
        let ma = added_all(m, ps);
        assert(ma == added(mf, p));
        assert forall|j: int| 0 <= j < ps.len() implies #[trigger] ma.index[(n + j) as u64] == ps[j] by {
            if j < front.len() {
                assert(mf.index[(n + j) as u64] == front[j]);
            }
        }
    }
}

/// Registering the same provider a second time changes nothing.
pub proof fn lemma_add_twice(m: DictModel, n: u64, p: Seq<u8>)
    requires
        registry_wf(m, n),
        n < u64::MAX,
    ensures
        added(added(m, p), p) == added(m, p),
{
    lemma_added_wf(m, n, p);
}

/// Banning an active (or unknown) provider and then unbanning it restores
/// the partition, so every later aggregation is as if it had never been
/// banned.
pub proof fn lemma_ban_then_unban(m: DictModel, p: Seq<u8>)
    requires
        m.status.contains_key(p) ==> m.status[p],
    ensures
        unbanned(banned(m, p), p) == m,
{
    if m.status.contains_key(p) {
        assert(unbanned(banned(m, p), p).status =~= m.status);
    }
}

/// Banning a provider that has no status entry creates none.
pub proof fn lemma_ban_unknown(m: DictModel, p: Seq<u8>)
    requires
        !m.status.contains_key(p),
    ensures
        banned(m, p) == m,
        !banned(m, p).status.contains_key(p),
{
}

/// With one active provider `p` that confirms the account, the account is
/// proved, and the walk asks `p` first; once `p` is banned, the account is
/// no longer proved and the walk ends with `false` without asking anyone.
pub proof fn lemma_single_provider_banned(
    m: DictModel,
    p: Seq<u8>,
    oracle: spec_fn(Seq<u8>) -> bool,
    first: KycStep,
    after_ban: KycStep,
)
    requires
        registry_wf(m, 1),
        m.index[0] == p,
        m.status[p],
        oracle(p),
        is_step(m, 1, 0, None, first),
        is_step(banned(m, p), 1, 0, None, after_ban),
    ensures
        kyc_proved(m, 1, oracle),
        first matches KycStep::Consult { index, provider } && index == 0 && provider@ == p,
        !kyc_proved(banned(m, p), 1, oracle),
        after_ban == KycStep::Done(false),
{
    assert(m.index.contains_key(0));
    assert(m.status.contains_key(m.index[0]));
    assert(active_at(m, 0));
    let mb = banned(m, p);
    assert(!active_at(mb, 0));
    assert(none_active(mb, 0, 2)) by {
        assert forall|i: u64| #![trigger active_at(mb, i)] 0 <= i < 2 implies !active_at(mb, i) by {
            if i == 1 {
                assert(!mb.index.contains_key(1));
            }
        }
    }
    if let KycStep::Consult { index, provider } = after_ban {
        assert(active_at(mb, index));
    }
}

} // verus!
