//! The provider registry: registration, banning and unbanning, kept in the
//! registry's storage partition.
//!
//! Providers are registered at dense indices `0..len`, in the order of
//! their registration; every registered provider has exactly one status
//! entry, `true` when active and `false` when banned.
use crate::provider::{ProviderId, ProviderKey};
use crate::store::{DictModel, RegistryStore};
use vstd::prelude::*;

verus! {

/// Why a registry operation failed.
#[derive(Clone, Copy, Debug, PartialEq, Eq, Structural)]
pub enum RegistryError {
    /// The key presented as a provider is not a contract-package hash.
    InvalidProviderKey,
    /// The registry's partition exists already.
    AlreadyInitialized,
    /// The registry's partition, or its count entry, does not exist.
    MissingRegistry,
}

/// The registry's invariant over its partition, with `n` providers.
pub open spec fn registry_wf(m: DictModel, n: u64) -> bool {
    &&& m.count == Some(n)
    &&& forall|k: u64| #![trigger m.index.contains_key(k)] m.index.contains_key(k) <==> k < n
    &&& forall|k: u64| #![trigger m.index[k]] k < n ==> m.status.contains_key(m.index[k])
    &&& forall|p: Seq<u8>|
        #![trigger m.status.contains_key(p)]
        m.status.contains_key(p) ==> exists|k: u64| #![trigger m.index[k]] k < n && m.index[k] == p
}

/// The partition as `init` leaves it for the providers `ps`.
pub open spec fn initial(ps: Seq<Seq<u8>>) -> DictModel {
    DictModel {
        count: Some(ps.len() as u64),
        index: Map::new(|k: u64| k < ps.len(), |k: u64| ps[k as int]),
        status: Map::new(|p: Seq<u8>| ps.contains(p), |p: Seq<u8>| true),
    }
}

/// The partition after registering `p`: a new provider gets the next index
/// and is active; one that has a status entry changes nothing.
pub open spec fn added(m: DictModel, p: Seq<u8>) -> DictModel {
    if m.status.contains_key(p) {
        m
    } else {
        let n = m.count.unwrap();
        DictModel {
            count: Some((n + 1) as u64),
            index: m.index.insert(n, p),
            status: m.status.insert(p, true),
        }
    }
}

/// The partition after banning `p`: only an active provider changes.
pub open spec fn banned(m: DictModel, p: Seq<u8>) -> DictModel {
    if m.status.contains_key(p) && m.status[p] {
        DictModel { status: m.status.insert(p, false), ..m }
    } else {
        m
    }
}

/// The partition after unbanning `p`: only a banned provider changes.
pub open spec fn unbanned(m: DictModel, p: Seq<u8>) -> DictModel {
    if m.status.contains_key(p) && !m.status[p] {
        DictModel { status: m.status.insert(p, true), ..m }
    } else {
        m
    }
}

/// The identities of a list of providers.
pub open spec fn ids_of(v: Seq<ProviderId>) -> Seq<Seq<u8>> {
    v.map_values(|p: ProviderId| p@)
}

/// The partition that `init` leaves keeps the registry's invariant.
pub proof fn lemma_initial_wf(ps: Seq<Seq<u8>>)
    requires
        ps.len() <= u64::MAX,
    ensures
        registry_wf(initial(ps), ps.len() as u64),
{
    let m = initial(ps);
    assert forall|k: u64| #![trigger m.index[k]] k < ps.len() implies m.status.contains_key(
        m.index[k],
    ) by {
        assert(ps[k as int] == m.index[k]);
    }
    assert forall|p: Seq<u8>| #![trigger m.status.contains_key(p)] m.status.contains_key(
        p,
    ) implies exists|k: u64| #![trigger m.index[k]] k < ps.len() && m.index[k] == p by {
        let j = choose|j: int| 0 <= j < ps.len() && ps[j] == p;
        assert(m.index[j as u64] == p);
    }
}

/// Registering keeps the registry's invariant; a new provider takes
/// index `n`.
pub proof fn lemma_added_wf(m: DictModel, n: u64, p: Seq<u8>)
    requires
        registry_wf(m, n),
        n < u64::MAX,
    ensures
        m.status.contains_key(p) ==> added(m, p) == m,
        !m.status.contains_key(p) ==> registry_wf(added(m, p), (n + 1) as u64) && added(
            m,
            p,
        ).index[n] == p,
        registry_wf(added(m, p), added(m, p).count.unwrap()),
{
    if !m.status.contains_key(p) {
        let m2 = added(m, p);
        assert forall|k: u64| #![trigger m2.index[k]] k < n + 1 implies m2.status.contains_key(
            m2.index[k],
        ) by {
            if k < n {
                assert(m.status.contains_key(m.index[k]));
            }
        }
        assert forall|q: Seq<u8>| #![trigger m2.status.contains_key(q)] m2.status.contains_key(
            q,
        ) implies exists|k: u64| #![trigger m2.index[k]] k < n + 1 && m2.index[k] == q by {
            if q == p {
                assert(m2.index[n] == q);
            } else {
                assert(m.status.contains_key(q));
                let k = choose|k: u64| #![trigger m.index[k]] k < n && m.index[k] == q;
                assert(m2.index[k] == q);
            }
        }
        assert forall|k: u64| #![trigger m2.index.contains_key(k)] m2.index.contains_key(k) <==> k
            < n + 1 by {
            if k != n {
                assert(m.index.contains_key(k) <==> k < n);
            }
        }
    }
}

/// Changing the status of a registered provider keeps the registry's
/// invariant.
pub proof fn lemma_status_change_wf(m: DictModel, n: u64, p: Seq<u8>, b: bool)
    requires
        registry_wf(m, n),
        m.status.contains_key(p),
    ensures
        registry_wf(DictModel { status: m.status.insert(p, b), ..m }, n),
{
    let m2 = DictModel { status: m.status.insert(p, b), ..m };
    assert(m2.status.dom() =~= m.status.dom());
    assert forall|k: u64| #![trigger m2.index[k]] k < n implies m2.status.contains_key(
        m2.index[k],
    ) by {
        assert(m.status.contains_key(m.index[k]));
    }
    assert forall|q: Seq<u8>| #![trigger m2.status.contains_key(q)] m2.status.contains_key(
        q,
    ) implies exists|k: u64| #![trigger m2.index[k]] k < n && m2.index[k] == q by {
        assert(m.status.contains_key(q));
        let k = choose|k: u64| #![trigger m.index[k]] k < n && m.index[k] == q;
        assert(m2.index[k] == q);
    }
}

/// An open registry: its partition, found in storage, and its provider count.
pub struct ProviderDict {
    len: u64,
}

impl ProviderDict {
    /// The number of providers ever registered.
    pub closed spec fn spec_len(&self) -> u64 {
        self.len
    }

    /// The registry holds in `store`: the partition exists and keeps the
    /// registry's invariant with this count.
    pub open spec fn wf_in(&self, store: &RegistryStore) -> bool {
        &&& store.wf()
        &&& store.partition() is Some
        &&& registry_wf(store.partition().unwrap(), self.spec_len())
    }

    /// The number of providers ever registered.
    pub fn len(&self) -> (r: u64)
        ensures
            r == self.spec_len(),
    {
        self.len
    }

    /// Creates the registry's partition and registers `initial_providers`
    /// at indices `0..n`, in order, all active. Fails, changing nothing,
    /// where the partition exists.
    pub fn init(store: &mut RegistryStore, initial_providers: &Vec<ProviderId>) -> (r: Result<
        (),
        RegistryError,
    >)
        requires
            old(store).wf(),
        ensures
            final(store).wf(),
            old(store).partition() is Some ==> r == Err::<(), RegistryError>(
                RegistryError::AlreadyInitialized,
            ) && *final(store) == *old(store),
            old(store).partition() is None ==> r is Ok && final(store).partition() == Some(
                initial(ids_of(initial_providers@)),
            ) && registry_wf(
                final(store).partition().unwrap(),
                initial_providers@.len() as u64,
            ),
    {
        if !store.new_dictionary() {
            return Err(RegistryError::AlreadyInitialized);
        }
        let ghost ps = ids_of(initial_providers@);
        let mut i: usize = 0;
        proof {
            let m = store.partition().unwrap();
            assert(m.index =~= Map::new(|k: u64| k < i, |k: u64| ps[k as int]));
            assert(m.status =~= Map::new(
                |p: Seq<u8>| exists|j: int| 0 <= j < i && ps[j] == p,
                |p: Seq<u8>| true,
            ));
        }
        while i < initial_providers.len()
            invariant
                0 <= i <= initial_providers@.len(),
                ps == ids_of(initial_providers@),
                store.wf(),
                store.partition() == Some(
                    DictModel {
                        count: None,
                        index: Map::new(|k: u64| k < i, |k: u64| ps[k as int]),
                        status: Map::new(
                            |p: Seq<u8>| exists|j: int| 0 <= j < i && ps[j] == p,
                            |p: Seq<u8>| true,
                        ),
                    },
                ),
            decreases initial_providers@.len() - i,
        {
            let p = initial_providers[i];
            store.put_index(i as u64, p);
            store.put_status(&p, true);
            proof {
                let m = store.partition().unwrap();
                assert(ps[i as int] == p@);
                assert(m.index =~= Map::new(|k: u64| k < i + 1, |k: u64| ps[k as int]));
                assert forall|q: Seq<u8>|
                    m.status.contains_key(q) <==> exists|j: int| 0 <= j < i + 1 && ps[j] == q by {
                    if q == p@ {
                        assert(ps[i as int] == q);
                    }
                    if exists|j: int| 0 <= j < i + 1 && ps[j] == q {
                        let j = choose|j: int| 0 <= j < i + 1 && ps[j] == q;
                        if j < i {
                            assert(exists|j: int| 0 <= j < i && ps[j] == q);
                        }
                    }
                }
                assert(m.status =~= Map::new(
                    |q: Seq<u8>| exists|j: int| 0 <= j < i + 1 && ps[j] == q,
                    |q: Seq<u8>| true,
                ));
            }
            i = i + 1;
        }
        store.put_count(initial_providers.len() as u64);
        proof {
            let m = store.partition().unwrap();
            let fin = initial(ps);
            assert forall|q: Seq<u8>| m.status.contains_key(q) <==> ps.contains(q) by {
                if ps.contains(q) {
                    let j = choose|j: int| 0 <= j < ps.len() && ps[j] == q;
                    assert(exists|j: int| 0 <= j < i && ps[j] == q);
                }
            }
            assert(m.status =~= fin.status);
            assert(m.index =~= fin.index);
            lemma_initial_wf(ps);
        }
        Ok(())
    }

    /// Attaches to the registry's partition and reads its provider count.
    pub fn open(store: &RegistryStore) -> (r: Result<ProviderDict, RegistryError>)
        requires
            store.wf(),
        ensures
            match store.partition() {
                Some(m) => match m.count {
                    Some(n) => r matches Ok(d) && d.spec_len() == n,
                    None => r == Err::<ProviderDict, RegistryError>(
                        RegistryError::MissingRegistry,
                    ),
                },
                None => r == Err::<ProviderDict, RegistryError>(RegistryError::MissingRegistry),
            },
    {
        if !store.has_dictionary() {
            return Err(RegistryError::MissingRegistry);
        }
        match store.get_count() {
            Some(n) => Ok(ProviderDict { len: n }),
            None => Err(RegistryError::MissingRegistry),
        }
    }

    /// Registers the provider named by `provider_key` at the next index, as
    /// active, unless it has a status entry already, banned or not.
    pub fn add_kyc_provider(&mut self, store: &mut RegistryStore, provider_key: ProviderKey) -> (r:
        Result<(), RegistryError>)
        requires
            old(self).wf_in(old(store)),
            old(self).spec_len() < u64::MAX,
        ensures
            final(self).wf_in(final(store)),
            match provider_key {
                ProviderKey::Hash(h) => r is Ok && final(store).partition() == Some(
                    added(old(store).partition().unwrap(), h@),
                ) && final(self).spec_len() == added(
                    old(store).partition().unwrap(),
                    h@,
                ).count.unwrap(),
                ProviderKey::Other => r == Err::<(), RegistryError>(
                    RegistryError::InvalidProviderKey,
                ) && *final(store) == *old(store) && *final(self) == *old(self),
            },
    {
        let provider = match Self::convert_provider_key(provider_key) {
            Ok(p) => p,
            Err(e) => return Err(e),
        };
        if store.get_status(&provider).is_none() {
            let ghost m = store.partition().unwrap();
            let n = self.len;
            store.put_index(n, provider);
            store.put_status(&provider, true);
            store.put_count(n + 1);
            self.len = n + 1;
            proof {
                lemma_added_wf(m, n, provider@);
            }
        }
        Ok(())
    }

    /// Bans the provider named by `provider_key` where it is active; in any
    /// other state nothing changes.
    pub fn ban_provider(&self, store: &mut RegistryStore, provider_key: ProviderKey) -> (r: Result<
        (),
        RegistryError,
    >)
        requires
            self.wf_in(old(store)),
        ensures
            self.wf_in(final(store)),
            match provider_key {
                ProviderKey::Hash(h) => r is Ok && final(store).partition() == Some(
                    banned(old(store).partition().unwrap(), h@),
                ),
                ProviderKey::Other => r == Err::<(), RegistryError>(
                    RegistryError::InvalidProviderKey,
                ) && *final(store) == *old(store),
            },
    {
        let provider = match Self::convert_provider_key(provider_key) {
            Ok(p) => p,
            Err(e) => return Err(e),
        };
        if let Some(true) = store.get_status(&provider) {
            let ghost m = store.partition().unwrap();
            store.put_status(&provider, false);
            proof {
                lemma_status_change_wf(m, self.len, provider@, false);
            }
        }
        Ok(())
    }

    /// Unbans the provider named by `provider_key` where it is banned; in
    /// any other state nothing changes.
    pub fn unban_provider(&self, store: &mut RegistryStore, provider_key: ProviderKey) -> (r:
        Result<(), RegistryError>)
        requires
            self.wf_in(old(store)),
        ensures
            self.wf_in(final(store)),
            match provider_key {
                ProviderKey::Hash(h) => r is Ok && final(store).partition() == Some(
                    unbanned(old(store).partition().unwrap(), h@),
                ),
                ProviderKey::Other => r == Err::<(), RegistryError>(
                    RegistryError::InvalidProviderKey,
                ) && *final(store) == *old(store),
            },
    {
        let provider = match Self::convert_provider_key(provider_key) {
            Ok(p) => p,
            Err(e) => return Err(e),
        };
        if let Some(false) = store.get_status(&provider) {
            let ghost m = store.partition().unwrap();
            store.put_status(&provider, true);
            proof {
                lemma_status_change_wf(m, self.len, provider@, true);
            }
        }
        Ok(())
    }

    /// Turns a presented key into a provider identity; only a hash key is
    /// accepted.
    pub fn convert_provider_key(key: ProviderKey) -> (r: Result<ProviderId, RegistryError>)
        ensures
            match key {
                ProviderKey::Hash(h) => r matches Ok(id) && id@ == h@,
                ProviderKey::Other => r == Err::<ProviderId, RegistryError>(
                    RegistryError::InvalidProviderKey,
                ),
            },
    {
        match key {
            ProviderKey::Hash(h) => Ok(ProviderId::new(h)),
            ProviderKey::Other => Err(RegistryError::InvalidProviderKey),
        }
    }
}

} // verus!
