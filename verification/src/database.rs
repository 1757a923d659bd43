//! What to do with a database that was just opened: use it as it is, or start it with
//! the genesis block of the chain.

use vstd::prelude::*;
use vstd::slice::slice_to_vec;

verus! {

/// A database as it was found on opening. `D` is the host's handle to a database that
/// holds a chain, `E` its handle to one that holds nothing yet.
#[derive(Debug)]
pub enum DatabaseOpen<D, E> {
    /// The database holds a chain already.
    Open(D),
    /// The database is empty.
    Empty(E),
}

/// One entry of the storage: a key and the value under it.
#[derive(Debug)]
pub struct StorageEntry {
    pub key: Vec<u8>,
    pub value: Vec<u8>,
}

impl View for StorageEntry {
    type V = (Seq<u8>, Seq<u8>);

    open spec fn view(&self) -> (Seq<u8>, Seq<u8>) {
        (self.key@, self.value@)
    }
}

/// The entries of a list of storage entries, in order.
pub open spec fn storage_view(entries: Seq<StorageEntry>) -> Seq<(Seq<u8>, Seq<u8>)> {
    Seq::new(entries.len(), |i: int| entries[i]@)
}

/// What of a chain's specification the start of its database depends on.
#[derive(Debug)]
pub struct ChainSpec {
    genesis_storage: Vec<StorageEntry>,
}

impl ChainSpec {
    /// The storage at the genesis block, in the order in which it was given.
    pub closed spec fn spec_genesis_storage(&self) -> Seq<(Seq<u8>, Seq<u8>)> {
        storage_view(self.genesis_storage@)
    }

    /// The specification of a chain that starts from `genesis_storage`.
    pub fn new(genesis_storage: Vec<StorageEntry>) -> (spec: ChainSpec)
        ensures
            spec.spec_genesis_storage() == storage_view(genesis_storage@),
    {
        ChainSpec { genesis_storage }
    }

    /// The storage at the genesis block.
    pub fn genesis_storage(&self) -> (entries: &Vec<StorageEntry>)
        ensures
            storage_view(entries@) == self.spec_genesis_storage(),
    {
        &self.genesis_storage
    }
}

/// The genesis block as far as it does not depend on hashing: it has no parent, the
/// number zero and no digest item, and the storage is that of the chain's
/// specification.
#[derive(Debug)]
pub struct GenesisBlock {
    /// The hash of the parent: 32 zero bytes.
    pub parent_hash: Vec<u8>,
    /// The number of the block: zero.
    pub number: u64,
    /// The digest items: none.
    pub digest_logs: Vec<Vec<u8>>,
    /// The storage whose Merkle root is the block's state root.
    pub storage: Vec<StorageEntry>,
}

/// What the host does with the database: go on with it, or first write the genesis
/// block into it.
#[derive(Debug)]
pub enum DatabaseMatch<D, E> {
    /// The database holds a chain: it is used as it is.
    Ready(D),
    /// The database is empty: the genesis block is to be written into it.
    InsertGenesis { database: E, genesis: GenesisBlock },
}

/// A copy of the entries, byte for byte.
fn copy_storage(entries: &Vec<StorageEntry>) -> (copy: Vec<StorageEntry>)
    ensures
        storage_view(copy@) == storage_view(entries@),
{
    let mut copy: Vec<StorageEntry> = Vec::new();
    let mut i: usize = 0;
    while i < entries.len()
        invariant
            i <= entries.len(),
            copy.len() == i,
            forall|j: int| 0 <= j < i ==> copy[j]@ == entries[j]@,
        decreases entries.len() - i,
    {
        let entry = &entries[i];
        copy.push(
            StorageEntry {
                key: slice_to_vec(entry.key.as_slice()),
                value: slice_to_vec(entry.value.as_slice()),
            },
        );
        i += 1;
    }
    assert(storage_view(copy@) =~= storage_view(entries@));
    copy
}

/// Thirty-two zero bytes.
fn zero_hash() -> (hash: Vec<u8>)
    ensures
        hash@ == Seq::new(32, |i: int| 0u8),
{
    let mut hash: Vec<u8> = Vec::new();
    let mut i: usize = 0;
    while i < 32
        invariant
            i <= 32,
            hash.len() == i,
            forall|j: int| 0 <= j < i ==> hash[j] == 0u8,
        decreases 32 - i,
    {
        hash.push(0u8);
        i += 1;
    }
    assert(hash@ =~= Seq::new(32, |i: int| 0u8));
    hash
}

/// Decides what becomes of a database that was just opened. One that holds a chain is
/// handed back untouched. An empty one is handed back with the genesis block that the
/// chain's specification calls for.
pub fn database_open_match_chain_specs<D, E>(
    database: DatabaseOpen<D, E>,
    chain_spec: &ChainSpec,
) -> (next: DatabaseMatch<D, E>)
    ensures
        match database {
            DatabaseOpen::Open(open) => next == DatabaseMatch::<D, E>::Ready(open),
            DatabaseOpen::Empty(empty) => next matches DatabaseMatch::InsertGenesis {
                database,
                genesis,
            } && database == empty && genesis.parent_hash@ == Seq::new(32, |i: int| 0u8)
                && genesis.number == 0 && genesis.digest_logs@.len() == 0 && storage_view(
                genesis.storage@,
            ) == chain_spec.spec_genesis_storage(),
        },
{
    match database {
        DatabaseOpen::Open(open) => DatabaseMatch::Ready(open),
        DatabaseOpen::Empty(empty) => {
            let genesis = GenesisBlock {
                parent_hash: zero_hash(),
                number: 0,
                digest_logs: Vec::new(),
                storage: copy_storage(chain_spec.genesis_storage()),
            };
            DatabaseMatch::InsertGenesis { database: empty, genesis }
        },
    }
}

} // verus!
