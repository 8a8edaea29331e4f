use kyc_proxy::aggregate::KycStep;
use kyc_proxy::keys::{index_key, len_key, status_key};
use kyc_proxy::provider::{ProviderId, ProviderKey};
use kyc_proxy::registry::{ProviderDict, RegistryError};
use kyc_proxy::store::RegistryStore;

fn id(b: u8) -> ProviderId {
    ProviderId::new([b; 32])
}

fn deployed(initial: &[u8]) -> RegistryStore {
    let mut store = RegistryStore::new();
    let providers: Vec<ProviderId> = initial.iter().map(|b| id(*b)).collect();
    assert_eq!(ProviderDict::init(&mut store, &providers), Ok(()));
    store
}

/// Runs the walk to its end, answering each consulted provider by `oracle`;
/// returns the result and the providers asked, in order.
fn walk(store: &RegistryStore, oracle: impl Fn(u8) -> bool) -> (bool, Vec<u8>) {
    let dict = ProviderDict::open(store).unwrap();
    let mut asked = Vec::new();
    let mut from = 0u64;
    let mut answer = None;
    loop {
        match dict.is_kyc_proved(store, from, answer) {
            KycStep::Consult { index, provider } => {
                asked.push(provider.hash[0]);
                answer = Some(oracle(provider.hash[0]));
                from = index + 1;
            }
            KycStep::Done(result) => return (result, asked),
        }
    }
}

fn expect_kyc(store: &RegistryStore, oracle: impl Fn(u8) -> bool, result: bool) {
    if walk(store, oracle).0 != result {
        panic!("User(999)");
    }
}

fn add(store: &mut RegistryStore, b: u8) {
    let mut dict = ProviderDict::open(store).unwrap();
    assert_eq!(dict.add_kyc_provider(store, ProviderKey::Hash([b; 32])), Ok(()));
}

fn ban(store: &mut RegistryStore, b: u8) {
    let dict = ProviderDict::open(store).unwrap();
    assert_eq!(dict.ban_provider(store, ProviderKey::Hash([b; 32])), Ok(()));
}

fn unban(store: &mut RegistryStore, b: u8) {
    let dict = ProviderDict::open(store).unwrap();
    assert_eq!(dict.unban_provider(store, ProviderKey::Hash([b; 32])), Ok(()));
}

fn count(store: &RegistryStore) -> u64 {
    ProviderDict::open(store).unwrap().len()
}

fn at(store: &RegistryStore, k: u64) -> Option<u8> {
    store.get_index(k).map(|p| p.hash[0])
}

fn status(store: &RegistryStore, b: u8) -> Option<bool> {
    store.get_status(&id(b))
}

#[test]
fn test_deploy() {
    let store = deployed(&[]);
    assert_eq!(count(&store), 0);
}

#[test]
fn test_no_provider() {
    let store = deployed(&[]);
    expect_kyc(&store, |_| true, false);
}

#[test]
#[should_panic = "User(999)"]
fn test_no_provider_failing() {
    let store = deployed(&[]);
    expect_kyc(&store, |_| true, true);
}

#[test]
fn test_single_provider_proxy_negative() {
    let mut store = deployed(&[]);
    add(&mut store, 1);
    expect_kyc(&store, |_| false, false);
}

#[test]
fn empty_registry_is_never_proved() {
    let store = deployed(&[]);
    assert_eq!(walk(&store, |_| true), (false, vec![]));
}

#[test]
fn single_negative_provider_is_asked_and_refuses() {
    let store = deployed(&[7]);
    assert_eq!(walk(&store, |_| false), (false, vec![7]));
}

#[test]
fn providers_are_asked_in_registration_order() {
    let mut store = deployed(&[]);
    add(&mut store, 1);
    add(&mut store, 2);
    assert_eq!(walk(&store, |b| b == 2), (true, vec![1, 2]));
}

#[test]
fn first_confirmation_ends_the_walk() {
    let store = deployed(&[1, 2, 3]);
    assert_eq!(walk(&store, |b| b != 3), (true, vec![1]));
}

#[test]
fn banned_provider_is_not_asked() {
    let mut store = deployed(&[5]);
    ban(&mut store, 5);
    assert_eq!(walk(&store, |_| true), (false, vec![]));
}

#[test]
fn banning_the_only_confirming_provider() {
    let mut store = deployed(&[5]);
    assert_eq!(walk(&store, |_| true), (true, vec![5]));
    ban(&mut store, 5);
    assert_eq!(walk(&store, |_| true), (false, vec![]));
}

#[test]
fn distinct_adds_take_the_next_indices() {
    let mut store = deployed(&[]);
    add(&mut store, 4);
    add(&mut store, 9);
    add(&mut store, 2);
    assert_eq!(count(&store), 3);
    assert_eq!(at(&store, 0), Some(4));
    assert_eq!(at(&store, 1), Some(9));
    assert_eq!(at(&store, 2), Some(2));
    assert_eq!(at(&store, 3), None);
}

#[test]
fn adds_continue_after_initial_providers() {
    let mut store = deployed(&[1, 2]);
    add(&mut store, 3);
    assert_eq!(count(&store), 3);
    assert_eq!(at(&store, 2), Some(3));
    assert_eq!(status(&store, 3), Some(true));
}

#[test]
fn adding_twice_changes_nothing() {
    let mut store = deployed(&[]);
    add(&mut store, 4);
    add(&mut store, 4);
    assert_eq!(count(&store), 1);
    assert_eq!(at(&store, 0), Some(4));
    assert_eq!(at(&store, 1), None);
    assert_eq!(status(&store, 4), Some(true));
}

#[test]
fn re_adding_a_banned_provider_keeps_it_banned() {
    let mut store = deployed(&[4]);
    ban(&mut store, 4);
    add(&mut store, 4);
    assert_eq!(count(&store), 1);
    assert_eq!(status(&store, 4), Some(false));
    assert_eq!(walk(&store, |_| true), (false, vec![]));
}

#[test]
fn ban_then_unban_restores_the_provider() {
    let mut store = deployed(&[1, 2]);
    ban(&mut store, 2);
    assert_eq!(status(&store, 2), Some(false));
    unban(&mut store, 2);
    assert_eq!(status(&store, 2), Some(true));
    assert_eq!(walk(&store, |b| b == 2), (true, vec![1, 2]));
}

#[test]
fn banning_an_unknown_provider_creates_no_entry() {
    let mut store = deployed(&[1]);
    ban(&mut store, 8);
    assert_eq!(status(&store, 8), None);
    unban(&mut store, 8);
    assert_eq!(status(&store, 8), None);
    assert_eq!(count(&store), 1);
}

#[test]
fn unbanning_an_active_provider_changes_nothing() {
    let mut store = deployed(&[1]);
    unban(&mut store, 1);
    assert_eq!(status(&store, 1), Some(true));
    ban(&mut store, 1);
    ban(&mut store, 1);
    assert_eq!(status(&store, 1), Some(false));
}

#[test]
fn init_registers_in_order_and_active() {
    let store = deployed(&[3, 1, 2]);
    assert_eq!(count(&store), 3);
    assert_eq!(at(&store, 0), Some(3));
    assert_eq!(at(&store, 1), Some(1));
    assert_eq!(at(&store, 2), Some(2));
    assert_eq!(status(&store, 1), Some(true));
    assert_eq!(status(&store, 9), None);
}

#[test]
fn second_init_fails_and_changes_nothing() {
    let mut store = deployed(&[1]);
    assert_eq!(
        ProviderDict::init(&mut store, &vec![id(2)]),
        Err(RegistryError::AlreadyInitialized)
    );
    assert_eq!(count(&store), 1);
    assert_eq!(at(&store, 0), Some(1));
    assert_eq!(status(&store, 2), None);
}

#[test]
fn open_before_init_fails() {
    let store = RegistryStore::new();
    assert!(matches!(ProviderDict::open(&store), Err(RegistryError::MissingRegistry)));
}

#[test]
fn open_without_count_fails() {
    let mut store = RegistryStore::new();
    assert!(store.new_dictionary());
    assert!(!store.new_dictionary());
    assert!(matches!(ProviderDict::open(&store), Err(RegistryError::MissingRegistry)));
}

#[test]
fn keys_other_than_hashes_are_refused() {
    let mut store = deployed(&[1]);
    let mut dict = ProviderDict::open(&store).unwrap();
    assert_eq!(
        dict.add_kyc_provider(&mut store, ProviderKey::Other),
        Err(RegistryError::InvalidProviderKey)
    );
    assert_eq!(
        dict.ban_provider(&mut store, ProviderKey::Other),
        Err(RegistryError::InvalidProviderKey)
    );
    assert_eq!(
        dict.unban_provider(&mut store, ProviderKey::Other),
        Err(RegistryError::InvalidProviderKey)
    );
    assert_eq!(count(&store), 1);
    assert_eq!(status(&store, 1), Some(true));
}

#[test]
fn hash_key_converts_to_its_provider() {
    let p = ProviderDict::convert_provider_key(ProviderKey::Hash([6; 32])).unwrap();
    assert!(p.same_as(&id(6)));
    assert!(!p.same_as(&id(7)));
}

#[test]
fn walk_resumes_after_a_refusal() {
    let mut store = deployed(&[1, 2, 3]);
    ban(&mut store, 2);
    let dict = ProviderDict::open(&store).unwrap();
    assert!(matches!(dict.is_kyc_proved(&store, 1, Some(false)), KycStep::Consult { index: 2, .. }));
    assert!(matches!(dict.is_kyc_proved(&store, 3, Some(false)), KycStep::Done(false)));
    assert!(matches!(dict.is_kyc_proved(&store, 9, None), KycStep::Done(false)));
    assert!(matches!(dict.is_kyc_proved(&store, 0, Some(true)), KycStep::Done(true)));
}

#[test]
fn dictionary_keys_follow_the_layout() {
    assert_eq!(len_key(), "len");
    assert_eq!(index_key(0), "0");
    assert_eq!(index_key(7), "7");
    assert_eq!(index_key(10), "10");
    assert_eq!(index_key(1234), "1234");
    assert_eq!(index_key(u64::MAX), "18446744073709551615");
    let mut hash = [0u8; 32];
    hash[0] = 0xab;
    hash[31] = 0x0f;
    let expected = format!("ab{}0f", "00".repeat(30));
    assert_eq!(status_key(&ProviderId::new(hash)), expected);
    assert_eq!(status_key(&id(0x5c)), "5c".repeat(32));
}
