use vstd::prelude::*;
use crate::types::{
    AvailToNexusPointer, H256, HeaderStore, NexusBlockWithPointers, NexusHeader,
    TransactionWithStatus,
};

verus! {

// ---------------------------------------------------------------------------
// The node's key-value store: atomic batched puts and keyed gets over the
// persisted layout. The store itself is in memory; durability is the
// embedding's concern.
// ---------------------------------------------------------------------------

/// A key of the persisted layout.
#[derive(Clone, Copy, Debug)]
pub enum DbKey {
    /// The single slot holding the recent header store.
    PreviousHeaders,
    /// A DA block hash, pointing at the nexus block built from it.
    AvailPointer(H256),
    /// A transaction's canonical hash.
    Tx(H256),
    /// A nexus block hash, holding the header.
    Header(H256),
    /// A nexus block hash, holding the block body.
    Block(H256),
}

/// The mathematical value of a key: its kind and its hash bytes.
pub open spec fn key_view(k: DbKey) -> (int, Seq<u8>) {
    match k {
        DbKey::PreviousHeaders => (0, Seq::<u8>::empty()),
        DbKey::AvailPointer(h) => (1, h@),
        DbKey::Tx(h) => (2, h@),
        DbKey::Header(h) => (3, h@),
        DbKey::Block(h) => (4, h@),
    }
}

impl DbKey {
    /// Whether two keys name the same slot.
    pub fn matches(&self, other: &DbKey) -> (r: bool)
        ensures
            r == (key_view(*self) == key_view(*other)),
    {
        match (self, other) {
            (DbKey::PreviousHeaders, DbKey::PreviousHeaders) => true,
            (DbKey::AvailPointer(a), DbKey::AvailPointer(b)) => a == b,
            (DbKey::Tx(a), DbKey::Tx(b)) => a == b,
            (DbKey::Header(a), DbKey::Header(b)) => a == b,
            (DbKey::Block(a), DbKey::Block(b)) => a == b,
            _ => false,
        }
    }
}

/// A value of the persisted layout.
#[derive(Clone, Debug)]
pub enum DbValue {
    Headers(HeaderStore),
    Pointer(AvailToNexusPointer),
    Header(NexusHeader),
    Block(NexusBlockWithPointers),
    TxStatus(TransactionWithStatus),
}

/// The first value under a key, scanning left to right.
pub open spec fn db_find(entries: Seq<(DbKey, DbValue)>, key: (int, Seq<u8>)) -> Option<DbValue>
    decreases entries.len(),
{
    if entries.len() == 0 {
        None
    } else if key_view(entries[0].0) == key {
        Some(entries[0].1)
    } else {
        db_find(entries.drop_first(), key)
    }
}

pub proof fn lemma_db_find_skip(entries: Seq<(DbKey, DbValue)>, key: (int, Seq<u8>), i: int)
    requires
        0 <= i <= entries.len(),
        forall|m: int| 0 <= m < i ==> key_view((#[trigger] entries[m]).0) != key,
    ensures
        db_find(entries, key) == db_find(entries.skip(i), key),
    decreases i,
{
    if i > 0 {
        assert(entries.skip(i - 1).drop_first() =~= entries.skip(i));
        lemma_db_find_skip(entries, key, i - 1);
    } else {
        assert(entries.skip(0) =~= entries);
    }
}

/// An ordered batch of writes, applied in one atomic step.
pub struct BatchTransaction {
    puts: Vec<(DbKey, DbValue)>,
}

impl BatchTransaction {
    /// The writes, in order; later writes to a key win.
    pub closed spec fn writes(self) -> Seq<(DbKey, DbValue)> {
        self.puts@
    }

    pub fn new() -> (r: Self)
        ensures
            r.writes() == Seq::<(DbKey, DbValue)>::empty(),
    {
        BatchTransaction { puts: Vec::new() }
    }

    pub fn put(&mut self, key: DbKey, value: DbValue)
        ensures
            final(self).writes() == old(self).writes().push((key, value)),
    {
        self.puts.push((key, value));
    }
}

/// The value a batch leaves under `key`: its last write there, if any.
pub open spec fn batch_find(writes: Seq<(DbKey, DbValue)>, key: (int, Seq<u8>)) -> Option<DbValue>
    decreases writes.len(),
{
    if writes.len() == 0 {
        None
    } else if key_view(writes.last().0) == key {
        Some(writes.last().1)
    } else {
        batch_find(writes.drop_last(), key)
    }
}

/// The node's store: the persisted layout plus the committed-root slot.
pub struct NodeDB {
    entries: Vec<(DbKey, DbValue)>,
    current_root: Option<H256>,
}

impl NodeDB {
    pub closed spec fn entries_seq(self) -> Seq<(DbKey, DbValue)> {
        self.entries@
    }

    /// The value under a key, if any.
    pub open spec fn spec_get(self, key: (int, Seq<u8>)) -> Option<DbValue> {
        db_find(self.entries_seq(), key)
    }

    /// The committed state root, if one was ever set.
    pub closed spec fn spec_current_root(self) -> Option<H256> {
        self.current_root
    }

    pub fn new() -> (r: Self)
        ensures
            r.entries_seq() == Seq::<(DbKey, DbValue)>::empty(),
            r.spec_current_root() is None,
    {
        NodeDB { entries: Vec::new(), current_root: None }
    }

    pub fn get(&self, key: &DbKey) -> (r: Option<&DbValue>)
        ensures
            match r {
                Some(v) => self.spec_get(key_view(*key)) == Some(*v),
                None => self.spec_get(key_view(*key)) is None,
            },
    {
        let mut i: usize = 0;
        while i < self.entries.len()
            invariant
                i <= self.entries@.len(),
                forall|m: int| 0 <= m < i ==> key_view((#[trigger] self.entries@[m]).0) != key_view(
                    *key,
                ),
            decreases self.entries@.len() - i,
        {
            if self.entries[i].0.matches(key) {
                proof {
                    lemma_db_find_skip(self.entries@, key_view(*key), i as int);
                    assert(self.entries@.skip(i as int)[0] == self.entries@[i as int]);
                }
                return Some(&self.entries[i].1);
            }
            i = i + 1;
        }
        proof {
            lemma_db_find_skip(self.entries@, key_view(*key), i as int);
        }
        None
    }

    /// Writes one value; the new value shadows any earlier one.
    pub fn put(&mut self, key: DbKey, value: DbValue)
        ensures
            final(self).spec_get(key_view(key)) == Some(value),
            forall|k: (int, Seq<u8>)|
                k != key_view(key) ==> final(self).spec_get(k) == old(self).spec_get(k),
            final(self).spec_current_root() == old(self).spec_current_root(),
    {
        self.entries.insert(0, (key, value));
        proof {
            assert(self.entries@.drop_first() =~= old(self).entries@);
        }
    }

    /// Applies a whole batch in one step: afterwards every key holds its
    /// last write in the batch, and untouched keys are unchanged.
    pub fn put_batch(&mut self, batch: BatchTransaction) -> (r: Result<(), crate::types::NexusError>)
        ensures
            r is Ok,
            forall|k: (int, Seq<u8>)|
                #[trigger] final(self).spec_get(k) == (match batch_find(batch.writes(), k) {
                    Some(v) => Some(v),
                    None => old(self).spec_get(k),
                }),
            final(self).spec_current_root() == old(self).spec_current_root(),
    {
        let BatchTransaction { puts } = batch;
        let ghost writes0 = puts@;
        let mut rest = puts;
        let total: usize = rest.len();
        let mut i: usize = 0;
        while rest.len() > 0
            invariant
                writes0.len() == total,
                i + rest@.len() == writes0.len(),
                rest@ == writes0.skip(i as int),
                self.current_root == old(self).current_root,
                forall|k: (int, Seq<u8>)|
                    #[trigger] self.spec_get(k) == (match batch_find(writes0.take(i as int), k) {
                        Some(v) => Some(v),
                        None => old(self).spec_get(k),
                    }),
            decreases rest@.len(),
        {
            let (key, value) = rest.remove(0);
            proof {
                assert(writes0.skip(i as int)[0] == writes0[i as int]);
                assert(writes0.skip(i as int).remove(0) =~= writes0.skip(i + 1 as int));
                assert((writes0[i as int].0, writes0[i as int].1) == writes0[i as int]);
            }
            let ghost pre_db = *self;
            self.put(key, value);
            proof {
                assert(writes0.take(i + 1 as int).drop_last() =~= writes0.take(i as int));
                assert(writes0.take(i + 1 as int).last() == writes0[i as int]);
                assert forall|k: (int, Seq<u8>)|
                    #[trigger] self.spec_get(k) == (match batch_find(
                        writes0.take(i + 1 as int),
                        k,
                    ) {
                        Some(v) => Some(v),
                        None => old(self).spec_get(k),
                    }) by {
                    if k == key_view(writes0[i as int].0) {
                        assert(self.spec_get(k) == Some(writes0[i as int].1));
                    } else {
                        assert(self.spec_get(k) == pre_db.spec_get(k));
                    }
                }
            }
            i = i + 1;
        }
        proof {
            assert(writes0.take(writes0.len() as int) =~= writes0);
        }
        Ok(())
    }

    pub fn set_current_root(&mut self, root: &H256) -> (r: Result<(), crate::types::NexusError>)
        ensures
            r is Ok,
            final(self).spec_current_root() == Some(*root),
            final(self).entries_seq() == old(self).entries_seq(),
    {
        self.current_root = Some(*root);
        Ok(())
    }

    pub fn get_current_root(&self) -> (r: Result<Option<H256>, crate::types::NexusError>)
        ensures
            r == Ok::<Option<H256>, crate::types::NexusError>(self.spec_current_root()),
    {
        match &self.current_root {
            Some(h) => Ok(Some(*h)),
            None => Ok(None),
        }
    }
}

} // verus!
