use pallet_dex::{pair_id, AccountId, Pool, PoolRegistry, RegistryError};

#[test]
fn create_refuses_an_existing_key() {
    let mut r = PoolRegistry::new();
    let pool = Pool { account: AccountId::Pool(0), lp_token: 9 };
    assert_eq!(r.create(pair_id(1, 2), pool), Ok(()));
    assert_eq!(r.create(pair_id(2, 1), pool), Err(RegistryError::PoolExists));
    assert_eq!(r.len(), 1);
    assert_eq!(r.lookup(&pair_id(2, 1)), Some(0));
    assert_eq!(r.lookup(&pair_id(1, 3)), None);
    assert_eq!(r.pool(0), pool);
}

#[test]
fn add_provider_is_bounded_and_set_like() {
    let mut r = PoolRegistry::new();
    r.create(pair_id(3, 4), Pool { account: AccountId::Pool(0), lp_token: 9 }).unwrap();
    assert_eq!(r.add_provider(0, 10, 2), Ok(()));
    assert_eq!(r.add_provider(0, 10, 2), Ok(()));
    assert_eq!(r.add_provider(0, 11, 2), Ok(()));
    assert_eq!(r.add_provider(0, 12, 2), Err(RegistryError::ProvidersFull));
    assert_eq!(r.add_provider(0, 11, 2), Ok(()));
    assert_eq!(r.providers(0), vec![10, 11]);
    assert_eq!(r.provider_count(0), 2);
    assert!(r.is_provider(0, 11));
    assert!(!r.is_provider(0, 12));
}
