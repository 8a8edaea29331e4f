//! Aggregation of the providers' answers for one account.
//!
//! The registry is walked in registration order, from index `0` through
//! `len` inclusive (the last probe never finds an entry). Each active
//! provider is asked in turn; the first that confirms the account ends the
//! walk with `true`, and a walk that finds no confirming provider ends with
//! `false`. Banned providers are never asked.
//!
//! Asking a provider is a call out of this library, so the walk is a step
//! function: given where the walk stands and the last answer, it says whom
//! to ask next or what the result is. The caller asks the provider (with
//! the account and index hint, unchanged) and hands the answer back with
//! the next step.
use crate::provider::ProviderId;
use crate::registry::{registry_wf, ProviderDict};
use crate::store::{DictModel, RegistryStore};
use vstd::prelude::*;

verus! {

/// What the walk does next.
#[derive(Clone, Copy, Debug)]
pub enum KycStep {
    /// Ask `provider`, registered at `index`; resume at `index + 1`.
    Consult { index: u64, provider: ProviderId },
    /// The walk is over with this result.
    Done(bool),
}

/// Whether the provider at index `i` exists and is active.
pub open spec fn active_at(m: DictModel, i: u64) -> bool {
    &&& m.index.contains_key(i)
    &&& m.status.contains_key(m.index[i])
    &&& m.status[m.index[i]]
}

/// No provider at an index in `lo..hi` is active.
pub open spec fn none_active(m: DictModel, lo: int, hi: int) -> bool {
    forall|i: u64| #![trigger active_at(m, i)] lo <= i < hi ==> !active_at(m, i)
}

/// The step that the walk takes in partition `m` with `n` providers, at
/// index `from`, after `answer` (`None` before the first call).
pub open spec fn is_step(m: DictModel, n: u64, from: u64, answer: Option<bool>, r: KycStep) -> bool {
    if answer == Some(true) {
        r == KycStep::Done(true)
    } else {
        match r {
            KycStep::Consult { index, provider } => from <= index < n && active_at(m, index)
                && m.index[index] == provider@ && none_active(m, from as int, index as int),
            KycStep::Done(b) => !b && none_active(m, from as int, n + 1),
        }
    }
}

/// Whether some active provider, among the `n` of partition `m`, confirms
/// the account by `oracle`.
pub open spec fn kyc_proved(m: DictModel, n: u64, oracle: spec_fn(Seq<u8>) -> bool) -> bool {
    exists|i: u64| #![trigger active_at(m, i)] i < n && active_at(m, i) && oracle(m.index[i])
}

impl ProviderDict {
    /// One step of the walk: after `answer`, resuming at index `from`.
    /// A confirmation ends it with `true`; otherwise the first active
    /// provider at an index in `from..=len` is named, or, with none, the
    /// walk ends with `false`.
    pub fn is_kyc_proved(&self, store: &RegistryStore, from: u64, answer: Option<bool>) -> (r:
        KycStep)
        requires
            self.wf_in(store),
        ensures
            is_step(store.partition().unwrap(), self.spec_len(), from, answer, r),
    {
        if let Some(true) = answer {
            return KycStep::Done(true);
        }
        let ghost m = store.partition().unwrap();
        let len = self.len();
        if from > len {
            return KycStep::Done(false);
        }
        let mut provider_index: u64 = from;
        loop
            invariant
                from <= provider_index <= len,
                answer != Some(true),
                self.wf_in(store),
                m == store.partition().unwrap(),
                len == self.spec_len(),
                none_active(m, from as int, provider_index as int),
            decreases len - provider_index,
        {
            if let Some(provider) = store.get_index(provider_index) {
                if let Some(true) = store.get_status(&provider) {
                    assert(active_at(m, provider_index));
                    return KycStep::Consult { index: provider_index, provider };
                }
            }
            assert(!active_at(m, provider_index));
            if provider_index == len {
                return KycStep::Done(false);
            }
            provider_index = provider_index + 1;
        }
    }
}

} // verus!
