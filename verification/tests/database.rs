use request_responses::database::{
    database_open_match_chain_specs, ChainSpec, DatabaseMatch, DatabaseOpen, StorageEntry,
};

fn chain_spec() -> ChainSpec {
    ChainSpec::new(vec![
        StorageEntry { key: vec![1], value: vec![10, 11] },
        StorageEntry { key: vec![2, 2], value: vec![] },
    ])
}

#[test]
fn a_database_that_holds_a_chain_is_used_as_it_is() {
    let found: DatabaseOpen<&str, u32> = DatabaseOpen::Open("chain");
    match database_open_match_chain_specs(found, &chain_spec()) {
        DatabaseMatch::Ready(database) => assert_eq!(database, "chain"),
        DatabaseMatch::InsertGenesis { .. } => panic!("the chain was to be kept"),
    }
}

#[test]
fn an_empty_database_gets_the_genesis_block() {
    let found: DatabaseOpen<&str, u32> = DatabaseOpen::Empty(7);
    let spec = chain_spec();
    match database_open_match_chain_specs(found, &spec) {
        DatabaseMatch::InsertGenesis { database, genesis } => {
            assert_eq!(database, 7);
            assert_eq!(genesis.parent_hash, vec![0u8; 32]);
            assert_eq!(genesis.number, 0);
            assert!(genesis.digest_logs.is_empty());
            assert_eq!(genesis.storage.len(), 2);
            assert_eq!(genesis.storage[0].key, vec![1]);
            assert_eq!(genesis.storage[0].value, vec![10, 11]);
            assert_eq!(genesis.storage[1].key, vec![2, 2]);
            assert_eq!(genesis.storage[1].value, Vec::<u8>::new());
        }
        DatabaseMatch::Ready(_) => panic!("the genesis block was to be written"),
    }
    assert_eq!(spec.genesis_storage().len(), 2);
}
