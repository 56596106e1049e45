//! The committed state: a key-value store with a running commitment.
//!
//! Every write and delete is folded into the commitment, so the root after a
//! block is a function of the root before it and of the block's changes in
//! the order in which they were applied.

use crate::address::Address;
use crate::hash::{append_bytes, copy_bytes, sha256, sha256_of};
use crate::key::{key_text, Key, KeySegView};
use crate::keymap::{KeyMap, KeyView};
use vstd::bytes::{spec_u64_to_le_bytes, u64_to_le_bytes};
use vstd::prelude::*;
use vstd::utf8::encode_utf8;

verus! {

/// The commitment to the committed state.
#[derive(Clone, Debug, PartialEq, Eq)]
pub struct MerkleRoot(pub Vec<u8>);

/// The identifier that the consensus engine gives a block.
#[derive(Clone, Debug, PartialEq, Eq)]
pub struct BlockHash(pub Vec<u8>);

/// The position of a block in the chain.
#[derive(Clone, Copy, Debug, PartialEq, Eq, Structural)]
pub struct BlockHeight(pub u64);

/// Why the store refused an operation.
#[derive(Clone, Copy, Debug, PartialEq, Eq, Structural)]
pub enum StorageError {
    /// A block must be higher than the last committed one.
    HeightNotIncreasing,
}

impl StorageError {
    /// The error in words.
    pub open spec fn text(self) -> Seq<char> {
        match self {
            StorageError::HeightNotIncreasing => "Block height is not above the last committed one"@,
        }
    }

    /// The error in words.
    pub fn to_string(&self) -> (text: String)
        ensures
            text@ == self.text(),
    {
        match self {
            StorageError::HeightNotIncreasing => String::from_str(
                "Block height is not above the last committed one",
            ),
        }
    }
}

/// Tag of a write in the commitment.
pub const WRITE_TAG: u8 = 1;

/// Tag of a delete in the commitment.
pub const DELETE_TAG: u8 = 0;

/// A byte string preceded by its length in eight bytes, low byte first.
pub open spec fn length_prefixed(bytes: Seq<u8>) -> Seq<u8> {
    spec_u64_to_le_bytes(bytes.len() as u64) + bytes
}

/// What a write adds to the commitment.
pub open spec fn record_write(key: KeyView, value: Seq<u8>) -> Seq<u8> {
    seq![WRITE_TAG] + length_prefixed(encode_utf8(key_text(key))) + length_prefixed(value)
}

/// What a delete adds to the commitment.
pub open spec fn record_delete(key: KeyView) -> Seq<u8> {
    seq![DELETE_TAG] + length_prefixed(encode_utf8(key_text(key)))
}

/// The commitment after one more change: the digest of the commitment before
/// it followed by the record of the change.
pub open spec fn next_root(root: Seq<u8>, record: Seq<u8>) -> Seq<u8> {
    sha256_of(root + record)
}

/// What a [`Storage`] stands for in contracts.
pub struct StorageView {
    /// The stored values.
    pub map: Map<KeyView, Seq<u8>>,
    /// The commitment to every change so far.
    pub root: Seq<u8>,
    /// The identifier of the chain.
    pub chain_id: Seq<char>,
    /// The hash of the block that is being built.
    pub block_hash: Seq<u8>,
    /// The height of the block that is being built.
    pub block_height: u64,
    /// Root and height of the last committed block.
    pub last_committed: Option<(Seq<u8>, u64)>,
}

/// The committed state.
#[derive(Debug)]
pub struct Storage {
    pub entries: KeyMap<Vec<u8>>,
    pub root: Vec<u8>,
    pub chain_id: String,
    pub block_hash: Vec<u8>,
    pub block_height: u64,
    pub last_committed: Option<(Vec<u8>, u64)>,
}

impl View for Storage {
    type V = StorageView;

    open spec fn view(&self) -> StorageView {
        StorageView {
            map: self.entries.map(),
            root: self.root@,
            chain_id: self.chain_id@,
            block_hash: self.block_hash@,
            block_height: self.block_height,
            last_committed: match self.last_committed {
                Some((root, height)) => Some((root@, height)),
                None => None,
            },
        }
    }
}

fn append_length_prefixed(buffer: &mut Vec<u8>, bytes: &[u8])
    ensures
        final(buffer)@ == old(buffer)@ + length_prefixed(bytes@),
{
    let len = u64_to_le_bytes(bytes.len() as u64);
    append_bytes(buffer, len.as_slice());
    append_bytes(buffer, bytes);
    proof {
        assert(buffer@ =~= old(buffer)@ + length_prefixed(bytes@));
    }
}

impl Storage {
    /// No key is stored twice.
    pub open spec fn wf(&self) -> bool {
        self.entries.wf()
    }

    /// An empty store that has committed no block.
    pub fn new() -> (storage: Storage)
        ensures
            storage.wf(),
            storage@ == (StorageView {
                map: Map::empty(),
                root: Seq::empty(),
                chain_id: Seq::empty(),
                block_hash: Seq::empty(),
                block_height: 0,
                last_committed: None,
            }),
    {
        Storage {
            entries: KeyMap::new(),
            root: Vec::new(),
            chain_id: String::new(),
            block_hash: Vec::new(),
            block_height: 0,
            last_committed: None,
        }
    }

    /// The value stored under `key`, if any.
    pub fn read(&self, key: &Key) -> (value: Option<Vec<u8>>)
        requires
            self.wf(),
        ensures
            match value {
                Some(v) => self@.map.dom().contains(key@) && self@.map[key@] == v@,
                None => !self@.map.dom().contains(key@),
            },
    {
        match self.entries.get(key) {
            Some(v) => Some(copy_bytes(v.as_slice())),
            None => None,
        }
    }

    /// Whether a value is stored under `key`.
    pub fn has_key(&self, key: &Key) -> (found: bool)
        ensures
            found == self@.map.dom().contains(key@),
    {
        self.entries.contains_key(key)
    }

    /// The code of the validity predicate of `address`, if it has one.
    pub fn validity_predicate(&self, address: &Address) -> (code: Option<Vec<u8>>)
        requires
            self.wf(),
        ensures
            match code {
                Some(v) => self@.map.dom().contains(vp_key(address@)) && self@.map[vp_key(
                    address@,
                )] == v@,
                None => !self@.map.dom().contains(vp_key(address@)),
            },
    {
        let key = Key::validity_predicate(address);
        self.read(&key)
    }

    /// Store `value` under `key` and fold the write into the commitment.
    pub fn write(&mut self, key: &Key, value: Vec<u8>)
        requires
            old(self).wf(),
        ensures
            final(self).wf(),
            final(self)@ == (StorageView {
                map: old(self)@.map.insert(key@, value@),
                root: next_root(old(self)@.root, record_write(key@, value@)),
                ..old(self)@
            }),
    {
        let text = key.to_string();
        let mut buffer = copy_bytes(self.root.as_slice());
        buffer.push(WRITE_TAG);
        append_length_prefixed(&mut buffer, text.as_str().as_bytes());
        append_length_prefixed(&mut buffer, value.as_slice());
        proof {
            assert(buffer@ =~= old(self)@.root + record_write(key@, value@));
        }
        self.root = sha256(buffer.as_slice());
        self.entries.insert(key.clone(), value);
    }

    /// Remove what is stored under `key` and fold the delete into the
    /// commitment.
    pub fn delete(&mut self, key: &Key)
        requires
            old(self).wf(),
        ensures
            final(self).wf(),
            final(self)@ == (StorageView {
                map: old(self)@.map.remove(key@),
                root: next_root(old(self)@.root, record_delete(key@)),
                ..old(self)@
            }),
    {
        let text = key.to_string();
        let mut buffer = copy_bytes(self.root.as_slice());
        buffer.push(DELETE_TAG);
        append_length_prefixed(&mut buffer, text.as_str().as_bytes());
        proof {
            assert(buffer@ =~= old(self)@.root + record_delete(key@));
        }
        self.root = sha256(buffer.as_slice());
        self.entries.remove(key);
    }

    /// Record the identifier of the chain.
    pub fn set_chain_id(&mut self, chain_id: &str)
        ensures
            final(self).wf() == old(self).wf(),
            final(self)@ == (StorageView { chain_id: chain_id@, ..old(self)@ }),
    {
        self.chain_id = String::from_str(chain_id);
    }

    /// Start a block. A block that is not higher than the last committed one
    /// is refused and changes nothing.
    pub fn begin_block(&mut self, hash: BlockHash, height: BlockHeight) -> (result: Result<
        (),
        StorageError,
    >)
        ensures
            final(self).wf() == old(self).wf(),
            result.is_err() <==> (old(self)@.last_committed matches Some(last) && height.0
                <= last.1),
            result.is_err() ==> final(self)@ == old(self)@,
            result.is_ok() ==> final(self)@ == (StorageView {
                block_hash: hash.0@,
                block_height: height.0,
                ..old(self)@
            }),
    {
        match &self.last_committed {
            Some(last) => {
                if height.0 <= last.1 {
                    return Err(StorageError::HeightNotIncreasing);
                }
            },
            None => {},
        }
        self.block_hash = hash.0;
        self.block_height = height.0;
        Ok(())
    }

    /// Commit the block that is being built: its root and height become the
    /// last committed state.
    pub fn commit(&mut self)
        ensures
            final(self).wf() == old(self).wf(),
            final(self)@ == (StorageView {
                last_committed: Some((old(self)@.root, old(self)@.block_height)),
                ..old(self)@
            }),
    {
        self.last_committed = Some((copy_bytes(self.root.as_slice()), self.block_height));
    }

    /// The commitment to every change so far.
    pub fn merkle_root(&self) -> (root: MerkleRoot)
        ensures
            root.0@ == self@.root,
    {
        MerkleRoot(copy_bytes(self.root.as_slice()))
    }

    /// Root and height of the last committed block, if any.
    pub fn load_last_state(&self) -> (state: Option<(MerkleRoot, u64)>)
        ensures
            match state {
                Some((root, height)) => self@.last_committed == Some((root.0@, height)),
                None => self@.last_committed.is_none(),
            },
    {
        match &self.last_committed {
            Some(last) => Some((MerkleRoot(copy_bytes(last.0.as_slice())), last.1)),
            None => None,
        }
    }
}

/// The key under which the validity predicate of an address is stored.
pub open spec fn vp_key(address: crate::address::AddressView) -> KeyView {
    seq![KeySegView::AddressSeg(address), KeySegView::StringSeg(crate::key::VP_SEGMENT@)]
}

} // verus!
