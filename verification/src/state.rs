use vstd::prelude::*;
use crate::codec::account_state_enc;
use crate::hash::{sha256_digest, sha256_of};
use crate::types::{AccountState, AccountStateView, H256, NexusError, zero_h256_seq};

verus! {

// ---------------------------------------------------------------------------
// The authenticated account store: a map from 32-byte keys to account
// states, versioned by commit, with a Merkle commitment over its entries.
// ---------------------------------------------------------------------------

/// The first entry under `key`, scanning left to right.
pub open spec fn seq_find(entries: Seq<(H256, AccountState)>, key: Seq<u8>) -> Option<AccountState>
    decreases entries.len(),
{
    if entries.len() == 0 {
        None
    } else if entries[0].0@ == key {
        Some(entries[0].1)
    } else {
        seq_find(entries.drop_first(), key)
    }
}

/// Scanning past a prefix that does not hold `key` does not change the
/// result of the search.
pub proof fn lemma_seq_find_skip(entries: Seq<(H256, AccountState)>, key: Seq<u8>, i: int)
    requires
        0 <= i <= entries.len(),
        forall|m: int| 0 <= m < i ==> entries[m].0@ != key,
    ensures
        seq_find(entries, key) == seq_find(entries.skip(i), key),
    decreases i,
{
    if i > 0 {
        assert(entries.skip(i - 1).drop_first() =~= entries.skip(i));
        lemma_seq_find_skip(entries, key, i - 1);
    } else {
        assert(entries.skip(0) =~= entries);
    }
}

/// Updating the entry at `i` changes the search for its key alone, when
/// keys are unique.
pub proof fn lemma_seq_find_update(
    entries: Seq<(H256, AccountState)>,
    i: int,
    kv: (H256, AccountState),
    key: Seq<u8>,
)
    requires
        0 <= i < entries.len(),
        entries[i].0@ == kv.0@,
        forall|m: int, n: int|
            0 <= m < n < entries.len() ==> (#[trigger] entries[m]).0@ != (#[trigger] entries[n]).0@,
    ensures
        kv.0@ == key ==> seq_find(entries.update(i, kv), key) == Some(kv.1),
        kv.0@ != key ==> seq_find(entries.update(i, kv), key) == seq_find(entries, key),
    decreases i,
{
    if i == 0 {
        if kv.0@ != key && entries[0].0@ != key {
            assert(entries.update(0, kv).drop_first() =~= entries.drop_first());
        } else if kv.0@ != key {
            // entries[0].0@ == key and kv.0@ == entries[i].0@ == entries[0].0@, contradiction
            assert(false);
        }
    } else {
        assert(entries.update(i, kv).drop_first() =~= entries.drop_first().update(i - 1, kv));
        assert(forall|m: int, n: int|
            0 <= m < n < entries.drop_first().len() ==> (#[trigger] entries.drop_first()[m]).0@ != (
            #[trigger] entries.drop_first()[n]).0@);
        lemma_seq_find_update(entries.drop_first(), i - 1, kv, key);
        assert(entries[0].0@ != kv.0@);
    }
}

/// Appending a fresh entry changes the search for its key alone, when the
/// key is not already present.
pub proof fn lemma_seq_find_push(
    entries: Seq<(H256, AccountState)>,
    kv: (H256, AccountState),
    key: Seq<u8>,
)
    requires
        forall|m: int| 0 <= m < entries.len() ==> (#[trigger] entries[m]).0@ != kv.0@,
    ensures
        kv.0@ == key ==> seq_find(entries.push(kv), key) == Some(kv.1),
        kv.0@ != key ==> seq_find(entries.push(kv), key) == seq_find(entries, key),
    decreases entries.len(),
{
    if entries.len() == 0 {
        assert(entries.push(kv)[0] == kv);
        assert(entries.push(kv).drop_first() =~= Seq::<(H256, AccountState)>::empty());
    } else {
        assert(entries.push(kv).drop_first() =~= entries.drop_first().push(kv));
        lemma_seq_find_push(entries.drop_first(), kv, key);
    }
}

/// A key is found exactly when some entry holds it.
pub proof fn lemma_seq_find_exists(entries: Seq<(H256, AccountState)>, key: Seq<u8>)
    ensures
        seq_find(entries, key) is Some <==> exists|m: int|
            0 <= m < entries.len() && (#[trigger] entries[m]).0@ == key,
    decreases entries.len(),
{
    if entries.len() > 0 {
        lemma_seq_find_exists(entries.drop_first(), key);
        if entries[0].0@ == key {
        } else {
            assert forall|m: int|
                0 <= m < entries.len() && (#[trigger] entries[m]).0@ == key implies seq_find(
                entries,
                key,
            ) is Some by {
                assert(entries.drop_first()[m - 1] == entries[m]);
            }
            if seq_find(entries, key) is Some {
                let m0 = choose|m: int|
                    0 <= m < entries.drop_first().len() && (#[trigger] entries.drop_first()[
                    m]).0@ == key;
                assert(entries[m0 + 1] == entries.drop_first()[m0]);
            }
        }
    }
}

/// With unique keys, the search finds exactly the entry that holds the
/// key.
pub proof fn lemma_seq_find_at(entries: Seq<(H256, AccountState)>, m: int)
    requires
        0 <= m < entries.len(),
        forall|a: int, b: int|
            0 <= a < b < entries.len() ==> (#[trigger] entries[a]).0@ != (#[trigger] entries[b]).0@,
    ensures
        seq_find(entries, entries[m].0@) == Some(entries[m].1),
{
    lemma_seq_find_skip(entries, entries[m].0@, m);
    assert(entries.skip(m)[0] == entries[m]);
}

/// The mathematical value of an entry list: each key and account by its
/// view, in order.
pub open spec fn ev(entries: Seq<(H256, AccountState)>) -> Seq<(Seq<u8>, AccountStateView)> {
    entries.map_values(|e: (H256, AccountState)| (e.0@, e.1@))
}

/// Writing under a key, at view level: the first entry holding the key
/// is replaced in place; an absent key is appended at the end.
pub open spec fn vset(
    es: Seq<(Seq<u8>, AccountStateView)>,
    key: Seq<u8>,
    value: AccountStateView,
) -> Seq<(Seq<u8>, AccountStateView)>
    decreases es.len(),
{
    if es.len() == 0 {
        seq![(key, value)]
    } else if es[0].0 == key {
        seq![(key, value)] + es.drop_first()
    } else {
        seq![es[0]] + vset(es.drop_first(), key, value)
    }
}

/// Removing a key, at view level: the first entry holding it leaves; the
/// rest keep their order.
pub open spec fn vremove(
    es: Seq<(Seq<u8>, AccountStateView)>,
    key: Seq<u8>,
) -> Seq<(Seq<u8>, AccountStateView)>
    decreases es.len(),
{
    if es.len() == 0 {
        es
    } else if es[0].0 == key {
        es.drop_first()
    } else {
        seq![es[0]] + vremove(es.drop_first(), key)
    }
}

/// An in-place update of the first entry holding a key is a `vset`.
pub proof fn lemma_vset_update(entries: Seq<(H256, AccountState)>, i: int, kv: (H256, AccountState))
    requires
        0 <= i < entries.len(),
        forall|m: int| 0 <= m < i ==> (#[trigger] entries[m]).0@ != kv.0@,
        entries[i].0@ == kv.0@,
    ensures
        ev(entries.update(i, kv)) == vset(ev(entries), kv.0@, kv.1@),
    decreases i,
{
    reveal_with_fuel(vset, 2);
    if i == 0 {
        assert(ev(entries)[0].0 == kv.0@);
        assert(ev(entries.update(0, kv)) =~= seq![(kv.0@, kv.1@)] + ev(entries).drop_first());
    } else {
        assert(ev(entries)[0].0 != kv.0@);
        assert(entries.update(i, kv).drop_first() =~= entries.drop_first().update(i - 1, kv));
        assert(forall|m: int|
            0 <= m < i - 1 ==> (#[trigger] entries.drop_first()[m]).0@ != kv.0@);
        lemma_vset_update(entries.drop_first(), i - 1, kv);
        assert(ev(entries).drop_first() =~= ev(entries.drop_first()));
        assert(ev(entries.update(i, kv)) =~= seq![ev(entries)[0]] + ev(
            entries.drop_first().update(i - 1, kv),
        ));
    }
}

/// Appending a fresh key is a `vset`.
pub proof fn lemma_vset_append(entries: Seq<(H256, AccountState)>, kv: (H256, AccountState))
    requires
        forall|m: int| 0 <= m < entries.len() ==> (#[trigger] entries[m]).0@ != kv.0@,
    ensures
        ev(entries.push(kv)) == vset(ev(entries), kv.0@, kv.1@),
    decreases entries.len(),
{
    reveal_with_fuel(vset, 2);
    if entries.len() == 0 {
        assert(ev(entries.push(kv)) =~= seq![(kv.0@, kv.1@)]);
    } else {
        assert(ev(entries)[0].0 != kv.0@);
        assert(entries.push(kv).drop_first() =~= entries.drop_first().push(kv));
        lemma_vset_append(entries.drop_first(), kv);
        assert(ev(entries).drop_first() =~= ev(entries.drop_first()));
        assert(ev(entries.push(kv)) =~= seq![ev(entries)[0]] + ev(entries.drop_first().push(kv)));
    }
}

/// Removing the first entry holding a key is a `vremove`.
pub proof fn lemma_vremove_remove(entries: Seq<(H256, AccountState)>, i: int)
    requires
        0 <= i < entries.len(),
        forall|m: int| 0 <= m < i ==> (#[trigger] entries[m]).0@ != entries[i].0@,
    ensures
        ev(entries.remove(i)) == vremove(ev(entries), entries[i].0@),
    decreases i,
{
    reveal_with_fuel(vremove, 2);
    if i == 0 {
        assert(ev(entries)[0].0 == entries[0].0@);
        assert(ev(entries.remove(0)) =~= ev(entries).drop_first());
    } else {
        assert(ev(entries)[0].0 != entries[i].0@);
        assert(entries.remove(i).drop_first() =~= entries.drop_first().remove(i - 1));
        assert(entries.drop_first()[i - 1] == entries[i]);
        assert(forall|m: int|
            0 <= m < i - 1 ==> (#[trigger] entries.drop_first()[m]).0@ != entries[i].0@);
        lemma_vremove_remove(entries.drop_first(), i - 1);
        assert(ev(entries).drop_first() =~= ev(entries.drop_first()));
        assert(ev(entries.remove(i)) =~= seq![ev(entries)[0]] + ev(
            entries.drop_first().remove(i - 1),
        ));
    }
}

/// Removing an absent key changes nothing, at view level.
pub proof fn lemma_vremove_absent(entries: Seq<(H256, AccountState)>, key: Seq<u8>)
    requires
        forall|m: int| 0 <= m < entries.len() ==> (#[trigger] entries[m]).0@ != key,
    ensures
        vremove(ev(entries), key) == ev(entries),
    decreases entries.len(),
{
    reveal_with_fuel(vremove, 2);
    if entries.len() > 0 {
        assert(ev(entries)[0].0 != key);
        lemma_vremove_absent(entries.drop_first(), key);
        assert(ev(entries).drop_first() =~= ev(entries.drop_first()));
        assert(seq![ev(entries)[0]] + ev(entries).drop_first() =~= ev(entries));
    }
}

/// An association list from account keys to account states with unique
/// keys: the in-memory image of one version of the tree.
#[derive(Clone, Debug)]
pub struct AccountMap {
    entries: Vec<(H256, AccountState)>,
}

impl AccountMap {
    /// The entries, oldest insertion first.
    pub closed spec fn entries_seq(self) -> Seq<(H256, AccountState)> {
        self.entries@
    }

    /// The value under `key`, if any: the mathematical content of the map.
    pub open spec fn spec_get(self, key: Seq<u8>) -> Option<AccountState> {
        seq_find(self.entries_seq(), key)
    }

    pub open spec fn wf(self) -> bool {
        forall|m: int, n: int|
            0 <= m < n < self.entries_seq().len() ==> (#[trigger] self.entries_seq()[m]).0@ != (
            #[trigger] self.entries_seq()[n]).0@
    }

    pub fn new() -> (r: Self)
        ensures
            r.wf(),
            r.entries_seq() == Seq::<(H256, AccountState)>::empty(),
            forall|k: Seq<u8>| r.spec_get(k) is None,
    {
        AccountMap { entries: Vec::new() }
    }

    pub fn get(&self, key: &H256) -> (r: Option<AccountState>)
        ensures
            r == self.spec_get(key@),
    {
        let mut i: usize = 0;
        while i < self.entries.len()
            invariant
                i <= self.entries@.len(),
                forall|m: int| 0 <= m < i ==> (#[trigger] self.entries@[m]).0@ != key@,
            decreases self.entries@.len() - i,
        {
            if self.entries[i].0 == *key {
                proof {
                    lemma_seq_find_skip(self.entries@, key@, i as int);
                    assert(self.entries@.skip(i as int)[0] == self.entries@[i as int]);
                }
                return Some(self.entries[i].1);
            }
            i = i + 1;
        }
        proof {
            lemma_seq_find_skip(self.entries@, key@, i as int);
        }
        None
    }

    /// Writes `value` under `key`, replacing any previous value.
    pub fn set(&mut self, key: H256, value: AccountState)
        requires
            old(self).wf(),
        ensures
            final(self).wf(),
            final(self).spec_get(key@) == Some(value),
            forall|k: Seq<u8>| k != key@ ==> final(self).spec_get(k) == old(self).spec_get(k),
            final(self).entries_seq().len() <= old(self).entries_seq().len() + 1,
            ev(final(self).entries_seq()) == vset(ev(old(self).entries_seq()), key@, value@),
    {
        let ghost entries0 = self.entries@;
        let mut i: usize = 0;
        while i < self.entries.len()
            invariant
                i <= self.entries@.len(),
                self.entries@ == entries0,
                old(self).entries@ == entries0,
                forall|m: int, n: int|
                    0 <= m < n < entries0.len() ==> (#[trigger] entries0[m]).0@ != (
                    #[trigger] entries0[n]).0@,
                forall|m: int| 0 <= m < i ==> (#[trigger] self.entries@[m]).0@ != key@,
            decreases self.entries@.len() - i,
        {
            if self.entries[i].0 == *&key {
                self.entries[i] = (key, value);
                proof {
                    assert(self.entries@ =~= entries0.update(i as int, (key, value)));
                    assert forall|k: Seq<u8>| final(self).spec_get(k) == (if k == key@ {
                        Some(value)
                    } else {
                        seq_find(entries0, k)
                    }) by {
                        lemma_seq_find_update(entries0, i as int, (key, value), k);
                    }
                    assert forall|m: int, n: int|
                        0 <= m < n < self.entries@.len() implies (#[trigger] self.entries@[m]).0@
                        != (#[trigger] self.entries@[n]).0@ by {
                        assert(self.entries@[m].0@ == entries0[m].0@);
                        assert(self.entries@[n].0@ == entries0[n].0@);
                    }
                    lemma_vset_update(entries0, i as int, (key, value));
                }
                return ;
            }
            i = i + 1;
        }
        self.entries.push((key, value));
        proof {
            assert forall|k: Seq<u8>| final(self).spec_get(k) == (if k == key@ {
                Some(value)
            } else {
                seq_find(entries0, k)
            }) by {
                lemma_seq_find_push(entries0, (key, value), k);
            }
            assert forall|m: int, n: int|
                0 <= m < n < self.entries@.len() implies (#[trigger] self.entries@[m]).0@ != (
                #[trigger] self.entries@[n]).0@ by {
                if n < entries0.len() {
                    assert(self.entries@[m] == entries0[m]);
                    assert(self.entries@[n] == entries0[n]);
                } else {
                    assert(self.entries@[m] == entries0[m]);
                    assert(self.entries@[n] == (key, value));
                }
            }
            lemma_vset_append(entries0, (key, value));
        }
    }

    /// Removes `key`, if present.
    pub fn remove(&mut self, key: &H256)
        requires
            old(self).wf(),
        ensures
            final(self).wf(),
            final(self).spec_get(key@) is None,
            forall|k: Seq<u8>| k != key@ ==> final(self).spec_get(k) == old(self).spec_get(k),
            ev(final(self).entries_seq()) == vremove(ev(old(self).entries_seq()), key@),
    {
        let ghost entries0 = self.entries@;
        let mut i: usize = 0;
        while i < self.entries.len()
            invariant
                i <= self.entries@.len(),
                self.entries@ == entries0,
                old(self).entries@ == entries0,
                forall|m: int, n: int|
                    0 <= m < n < entries0.len() ==> (#[trigger] entries0[m]).0@ != (
                    #[trigger] entries0[n]).0@,
                forall|m: int| 0 <= m < i ==> (#[trigger] self.entries@[m]).0@ != key@,
            decreases self.entries@.len() - i,
        {
            if self.entries[i].0 == *key {
                self.entries.remove(i);
                proof {
                    assert(self.entries@ =~= entries0.remove(i as int));
                    assert forall|k: Seq<u8>| seq_find(entries0.remove(i as int), k) == (
                    if entries0[i as int].0@ == k {
                        None
                    } else {
                        seq_find(entries0, k)
                    }) by {
                        lemma_seq_find_remove(entries0, i as int, k);
                    }
                    lemma_unique_remove(entries0, i as int);
                    lemma_vremove_remove(entries0, i as int);
                }
                return ;
            }
            i = i + 1;
        }
        proof {
            lemma_seq_find_skip(entries0, key@, entries0.len() as int);
            assert(entries0.skip(entries0.len() as int) =~= Seq::<(H256, AccountState)>::empty());
            lemma_vremove_absent(entries0, key@);
        }
    }

    pub fn duplicate(&self) -> (r: Self)
        ensures
            r.entries_seq() == self.entries_seq(),
    {
        let mut copy: Vec<(H256, AccountState)> = Vec::new();
        let mut i: usize = 0;
        while i < self.entries.len()
            invariant
                i <= self.entries@.len(),
                copy@ == self.entries@.take(i as int),
            decreases self.entries@.len() - i,
        {
            copy.push((self.entries[i].0, self.entries[i].1));
            proof {
                let ghost e_i = self.entries@[i as int];
                assert((e_i.0, e_i.1) == e_i);
                assert(copy@ =~= self.entries@.take(i + 1 as int));
            }
            i = i + 1;
        }
        proof {
            assert(self.entries@.take(self.entries@.len() as int) =~= self.entries@);
        }
        AccountMap { entries: copy }
    }

    pub fn len(&self) -> (r: usize)
        ensures
            r == self.entries_seq().len(),
    {
        self.entries.len()
    }

    /// The entry at `i`, for walking the map.
    pub fn entry_at(&self, i: usize) -> (r: (H256, AccountState))
        requires
            i < self.entries_seq().len(),
        ensures
            r == self.entries_seq()[i as int],
    {
        proof {
            let ghost e_i = self.entries_seq()[i as int];
            assert((e_i.0, e_i.1) == e_i);
        }
        (self.entries[i].0, self.entries[i].1)
    }
}

/// Removing the entry at `i` empties the search for its key and leaves
/// every other key unchanged, when keys are unique.
pub proof fn lemma_seq_find_remove(entries: Seq<(H256, AccountState)>, i: int, k: Seq<u8>)
    requires
        0 <= i < entries.len(),
        forall|m: int, n: int|
            0 <= m < n < entries.len() ==> (#[trigger] entries[m]).0@ != (#[trigger] entries[n]).0@,
    ensures
        seq_find(entries.remove(i), k) == (if entries[i].0@ == k {
            None::<AccountState>
        } else {
            seq_find(entries, k)
        }),
    decreases i,
{
    if i == 0 {
        assert(entries.remove(0) =~= entries.drop_first());
        if entries[0].0@ == k {
            assert(forall|m: int|
                0 <= m < entries.drop_first().len() ==> (#[trigger] entries.drop_first()[m]).0@
                    != k);
            lemma_seq_find_skip(entries.drop_first(), k, entries.drop_first().len() as int);
            assert(entries.drop_first().skip(entries.drop_first().len() as int) =~= Seq::<
                (H256, AccountState),
            >::empty());
        }
    } else {
        assert(entries.remove(i).drop_first() =~= entries.drop_first().remove(i - 1));
        assert(forall|m: int, n: int|
            0 <= m < n < entries.drop_first().len() ==> (#[trigger] entries.drop_first()[m]).0@ != (
            #[trigger] entries.drop_first()[n]).0@);
        lemma_seq_find_remove(entries.drop_first(), i - 1, k);
        assert(entries.remove(i)[0] == entries[0]);
    }
}

/// Removing an entry preserves unique keys.
pub proof fn lemma_unique_remove(entries: Seq<(H256, AccountState)>, i: int)
    requires
        0 <= i < entries.len(),
        forall|m: int, n: int|
            0 <= m < n < entries.len() ==> (#[trigger] entries[m]).0@ != (#[trigger] entries[n]).0@,
    ensures
        forall|m: int, n: int|
            0 <= m < n < entries.remove(i).len() ==> (#[trigger] entries.remove(i)[m]).0@ != (
            #[trigger] entries.remove(i)[n]).0@,
{
    let r = entries.remove(i);
    assert forall|m: int, n: int| 0 <= m < n < r.len() implies (#[trigger] r[m]).0@ != (
    #[trigger] r[n]).0@ by {
        let m0 = if m < i { m } else { m + 1 };
        let n0 = if n < i { n } else { n + 1 };
        assert(r[m] == entries[m0]);
        assert(r[n] == entries[n0]);
    }
}


// ---------------------------------------------------------------------------
// The Merkle commitment over a map's entries.
// ---------------------------------------------------------------------------

/// The hash of one leaf: the key bytes followed by the canonical account
/// encoding.
pub open spec fn leaf_hash(key: Seq<u8>, a: crate::types::AccountStateView) -> Seq<u8> {
    sha256_of(key + account_state_enc(a))
}

/// The Merkle root of an entry sequence: empty is the zero digest, a leaf
/// hashes alone, and an inner node hashes the roots of its two halves.
pub open spec fn merkle_root_of(entries: Seq<(H256, AccountState)>) -> Seq<u8>
    decreases entries.len(),
{
    if entries.len() == 0 {
        zero_h256_seq()
    } else if entries.len() == 1 {
        leaf_hash(entries[0].0@, entries[0].1@)
    } else {
        let mid = (entries.len() + 1) / 2;
        sha256_of(
            merkle_root_of(entries.subrange(0, mid as int)) + merkle_root_of(
                entries.subrange(mid as int, entries.len() as int),
            ),
        )
    }
}

/// The Merkle root depends only on the entries' mathematical value:
/// lists with equal views share their root. With the staged entry
/// sequence fixed at view level, the staged root is therefore a function
/// of the batch inputs alone.
pub proof fn lemma_merkle_root_of_views(a: Seq<(H256, AccountState)>, b: Seq<(H256, AccountState)>)
    requires
        ev(a) == ev(b),
    ensures
        merkle_root_of(a) == merkle_root_of(b),
    decreases a.len(),
{
    assert(ev(a).len() == a.len());
    assert(ev(b).len() == b.len());
    if a.len() == 0 {
    } else if a.len() == 1 {
        assert(ev(a)[0] == ev(b)[0]);
        assert(a[0].0@ == b[0].0@ && a[0].1@ == b[0].1@);
    } else {
        let mid = (a.len() + 1) / 2;
        assert(ev(a.subrange(0, mid as int)) =~= ev(a).subrange(0, mid as int));
        assert(ev(b.subrange(0, mid as int)) =~= ev(b).subrange(0, mid as int));
        assert(ev(a.subrange(mid as int, a.len() as int)) =~= ev(a).subrange(
            mid as int,
            a.len() as int,
        ));
        assert(ev(b.subrange(mid as int, b.len() as int)) =~= ev(b).subrange(
            mid as int,
            b.len() as int,
        ));
        lemma_merkle_root_of_views(a.subrange(0, mid as int), b.subrange(0, mid as int));
        lemma_merkle_root_of_views(
            a.subrange(mid as int, a.len() as int),
            b.subrange(mid as int, b.len() as int),
        );
    }
}

/// One step of path verification: hash the running digest with a sibling,
/// on the side the sibling sits on.
pub open spec fn combine_step(h: Seq<u8>, is_right: bool, sib: Seq<u8>) -> Seq<u8> {
    if is_right {
        sha256_of(h + sib)
    } else {
        sha256_of(sib + h)
    }
}

/// Folding a leaf digest up a path of siblings, leaf end first.
pub open spec fn fold_path(h: Seq<u8>, sibs: Seq<(bool, Seq<u8>)>) -> Seq<u8>
    decreases sibs.len(),
{
    if sibs.len() == 0 {
        h
    } else {
        fold_path(combine_step(h, sibs[0].0, sibs[0].1), sibs.drop_first())
    }
}

pub proof fn lemma_fold_path_push(h: Seq<u8>, sibs: Seq<(bool, Seq<u8>)>, x: (bool, Seq<u8>))
    ensures
        fold_path(h, sibs.push(x)) == combine_step(fold_path(h, sibs), x.0, x.1),
    decreases sibs.len(),
{
    reveal_with_fuel(fold_path, 3);
    if sibs.len() == 0 {
        assert(sibs.push(x)[0] == x);
        assert(sibs.push(x).drop_first() =~= Seq::<(bool, Seq<u8>)>::empty());
    } else {
        assert(sibs.push(x)[0] == sibs[0]);
        assert(sibs.push(x).drop_first() =~= sibs.drop_first().push(x));
        lemma_fold_path_push(combine_step(h, sibs[0].0, sibs[0].1), sibs.drop_first(), x);
    }
}

/// The mathematical value of a sibling path.
pub open spec fn path_view(v: Seq<(bool, H256)>) -> Seq<(bool, Seq<u8>)> {
    v.map_values(|p: (bool, H256)| (p.0, p.1@))
}

pub proof fn lemma_path_view_push(v: Seq<(bool, H256)>, p: (bool, H256))
    ensures
        path_view(v.push(p)) == path_view(v).push((p.0, p.1@)),
{
    assert(path_view(v.push(p)) =~= path_view(v).push((p.0, p.1@)));
}

/// The index of the first entry holding a key.
pub open spec fn find_index(entries: Seq<(H256, AccountState)>, key: Seq<u8>) -> int
    decreases entries.len(),
{
    if entries.len() == 0 {
        0
    } else if entries[0].0@ == key {
        0
    } else {
        1 + find_index(entries.drop_first(), key)
    }
}

/// The search finds its key at `find_index`.
pub proof fn lemma_find_index_at(entries: Seq<(H256, AccountState)>, i: int)
    requires
        0 <= i < entries.len(),
        forall|m: int| 0 <= m < i ==> (#[trigger] entries[m]).0@ != entries[i].0@,
    ensures
        find_index(entries, entries[i].0@) == i,
    decreases i,
{
    if i > 0 {
        assert(entries.drop_first()[i - 1] == entries[i]);
        assert(forall|m: int|
            0 <= m < i - 1 ==> (#[trigger] entries.drop_first()[m]).0@ != entries[i].0@);
        lemma_find_index_at(entries.drop_first(), i - 1);
    }
}

/// The sibling path of the entry at `idx` within `lo .. hi`, leaf end
/// first: at each split, the root of the half not taken.
pub open spec fn spec_path(entries: Seq<(H256, AccountState)>, lo: int, hi: int, idx: int) -> Seq<
    (bool, Seq<u8>),
>
    decreases hi - lo,
{
    if hi - lo <= 1 {
        Seq::<(bool, Seq<u8>)>::empty()
    } else {
        let half = (hi - lo + 1) / 2;
        let mid = lo + half;
        if idx < mid {
            spec_path(entries, lo, mid, idx).push(
                (true, merkle_root_of(entries.subrange(mid, hi))),
            )
        } else {
            spec_path(entries, mid, hi, idx).push(
                (false, merkle_root_of(entries.subrange(lo, mid))),
            )
        }
    }
}

/// An inclusion path: the sibling digests from the leaf up to the root,
/// each with the side it sits on.
#[derive(Clone, Debug)]
pub struct SparseMerkleProof {
    pub siblings: Vec<(bool, H256)>,
}

impl SparseMerkleProof {
    pub open spec fn view(self) -> Seq<(bool, Seq<u8>)> {
        path_view(self.siblings@)
    }

    pub fn empty() -> (r: Self)
        ensures
            r@ == Seq::<(bool, Seq<u8>)>::empty(),
    {
        let r = SparseMerkleProof { siblings: Vec::new() };
        proof {
            assert(r@ =~= Seq::<(bool, Seq<u8>)>::empty());
        }
        r
    }
}

impl AccountMap {
    /// The Merkle root of the entries between `lo` and `hi`.
    fn root_range(&self, lo: usize, hi: usize) -> (r: H256)
        requires
            lo <= hi <= self.entries_seq().len(),
        ensures
            r@ == merkle_root_of(self.entries_seq().subrange(lo as int, hi as int)),
        decreases hi - lo,
    {
        let ghost sub = self.entries_seq().subrange(lo as int, hi as int);
        if hi == lo {
            proof {
                assert(sub =~= Seq::<(H256, AccountState)>::empty());
            }
            H256::zero()
        } else if hi - lo == 1 {
            let (k, a) = self.entry_at(lo);
            let mut bytes: Vec<u8> = Vec::new();
            crate::codec::push_h256(&mut bytes, &k);
            crate::codec::push_account_state(&mut bytes, &a);
            proof {
                assert(sub[0] == self.entries_seq()[lo as int]);
                assert(bytes@ =~= k@ + account_state_enc(a@));
            }
            sha256_digest(&bytes)
        } else {
            let n = hi - lo;
            let half = n / 2 + n % 2;
            proof {
                assert(half == (n + 1) / 2);
            }
            let mid = lo + half;
            let left = self.root_range(lo, mid);
            let right = self.root_range(mid, hi);
            let mut bytes: Vec<u8> = Vec::new();
            crate::codec::push_h256(&mut bytes, &left);
            crate::codec::push_h256(&mut bytes, &right);
            proof {
                assert(sub.subrange(0, half as int) =~= self.entries_seq().subrange(
                    lo as int,
                    mid as int,
                ));
                assert(sub.subrange(half as int, sub.len() as int) =~= self.entries_seq().subrange(
                    mid as int,
                    hi as int,
                ));
                assert(bytes@ =~= left@ + right@);
            }
            sha256_digest(&bytes)
        }
    }

    /// The Merkle root of the whole map.
    pub fn merkle_root(&self) -> (r: H256)
        ensures
            r@ == merkle_root_of(self.entries_seq()),
    {
        let r = self.root_range(0, self.len());
        proof {
            assert(self.entries_seq().subrange(0, self.entries_seq().len() as int)
                =~= self.entries_seq());
        }
        r
    }

    /// The inclusion path of the entry at `idx` within `lo .. hi`: folding
    /// the entry's leaf hash up the path yields the range's root.
    #[verifier::rlimit(100)]
    #[verifier::spinoff_prover]
    fn path_range(&self, lo: usize, hi: usize, idx: usize) -> (r: Vec<(bool, H256)>)
        requires
            lo <= idx < hi,
            hi <= self.entries_seq().len(),
        ensures
            fold_path(
                leaf_hash(self.entries_seq()[idx as int].0@, self.entries_seq()[idx as int].1@),
                path_view(r@),
            ) == merkle_root_of(self.entries_seq().subrange(lo as int, hi as int)),
            path_view(r@) == spec_path(self.entries_seq(), lo as int, hi as int, idx as int),
        decreases hi - lo,
    {
        let ghost es = self.entries_seq();
        let ghost sub = es.subrange(lo as int, hi as int);
        let ghost leaf = leaf_hash(es[idx as int].0@, es[idx as int].1@);
        if hi - lo == 1 {
            let r: Vec<(bool, H256)> = Vec::new();
            proof {
                assert(sub[0] == es[idx as int]);
                assert(path_view(r@) =~= Seq::<(bool, Seq<u8>)>::empty());
            }
            r
        } else {
            let n = hi - lo;
            let half = n / 2 + n % 2;
            proof {
                assert(half == (n + 1) / 2);
            }
            let mid = lo + half;
            let ghost sub_l = es.subrange(lo as int, mid as int);
            let ghost sub_r = es.subrange(mid as int, hi as int);
            proof {
                assert(sub.subrange(0, half as int) =~= sub_l);
                assert(sub.subrange(half as int, sub.len() as int) =~= sub_r);
                assert(merkle_root_of(sub) == sha256_of(
                    merkle_root_of(sub_l) + merkle_root_of(sub_r),
                ));
            }
            if idx < mid {
                let mut r = self.path_range(lo, mid, idx);
                let sib = self.root_range(mid, hi);
                let ghost path0 = path_view(r@);
                proof {
                    assert(fold_path(leaf, path0) == merkle_root_of(sub_l));
                    assert(sib@ == merkle_root_of(sub_r));
                }
                r.push((true, sib));
                proof {
                    lemma_path_view_push(r@.drop_last(), (true, sib));
                    assert(r@.drop_last().push((true, sib)) =~= r@);
                    assert(path_view(r@) == path0.push((true, sib@)));
                    lemma_fold_path_push(leaf, path0, (true, sib@));
                    assert(fold_path(leaf, path_view(r@)) == combine_step(
                        merkle_root_of(sub_l),
                        true,
                        merkle_root_of(sub_r),
                    ));
                }
                r
            } else {
                let mut r = self.path_range(mid, hi, idx);
                let sib = self.root_range(lo, mid);
                let ghost path0 = path_view(r@);
                proof {
                    assert(fold_path(leaf, path0) == merkle_root_of(sub_r));
                    assert(sib@ == merkle_root_of(sub_l));
                }
                r.push((false, sib));
                proof {
                    lemma_path_view_push(r@.drop_last(), (false, sib));
                    assert(r@.drop_last().push((false, sib)) =~= r@);
                    assert(path_view(r@) == path0.push((false, sib@)));
                    lemma_fold_path_push(leaf, path0, (false, sib@));
                    assert(fold_path(leaf, path_view(r@)) == combine_step(
                        merkle_root_of(sub_r),
                        false,
                        merkle_root_of(sub_l),
                    ));
                }
                r
            }
        }
    }

    /// The value under `key` with its inclusion path against this map's
    /// root; an absent key carries an empty path.
    pub fn get_with_proof(&self, key: &H256) -> (r: (Option<AccountState>, SparseMerkleProof))
        ensures
            r.0 == self.spec_get(key@),
            r.0 matches Some(a) ==> fold_path(leaf_hash(key@, a@), r.1@) == merkle_root_of(
                self.entries_seq(),
            ),
            r.0 is Some ==> r.1@ == spec_path(
                self.entries_seq(),
                0,
                self.entries_seq().len() as int,
                find_index(self.entries_seq(), key@),
            ),
            r.0 is None ==> r.1@ == Seq::<(bool, Seq<u8>)>::empty(),
    {
        let mut i: usize = 0;
        while i < self.entries.len()
            invariant
                i <= self.entries@.len(),
                forall|m: int| 0 <= m < i ==> (#[trigger] self.entries@[m]).0@ != key@,
            decreases self.entries@.len() - i,
        {
            if self.entries[i].0 == *key {
                proof {
                    lemma_seq_find_skip(self.entries@, key@, i as int);
                    assert(self.entries@.skip(i as int)[0] == self.entries@[i as int]);
                }
                let path = self.path_range(0, self.entries.len(), i);
                proof {
                    assert(self.entries_seq().subrange(0, self.entries_seq().len() as int)
                        =~= self.entries_seq());
                    lemma_find_index_at(self.entries_seq(), i as int);
                }
                return (Some(self.entries[i].1), SparseMerkleProof { siblings: path });
            }
            i = i + 1;
        }
        proof {
            lemma_seq_find_skip(self.entries@, key@, i as int);
        }
        (None, SparseMerkleProof::empty())
    }
}

/// Checks a non-inclusion witness: the witness is the full entry list of
/// one version, bound as a whole by that version's root. It proves a key
/// absent when its recomputed root matches and no entry holds the key.
pub fn verify_non_inclusion(root: &H256, key: &H256, witness: &AccountMap) -> (r: bool)
    ensures
        r == (merkle_root_of(witness.entries_seq()) == root@ && witness.spec_get(key@) is None),
{
    let recomputed = witness.merkle_root();
    recomputed == *root && witness.get(key).is_none()
}

/// Recomputes a root from a leaf and an inclusion path: the executable
/// counterpart of `fold_path`.
pub fn verify_inclusion(
    root: &H256,
    key: &H256,
    account: &AccountState,
    proof: &SparseMerkleProof,
) -> (r: bool)
    ensures
        r == (fold_path(leaf_hash(key@, account@), proof@) == root@),
{
    let mut bytes: Vec<u8> = Vec::new();
    crate::codec::push_h256(&mut bytes, key);
    crate::codec::push_account_state(&mut bytes, account);
    proof {
        assert(bytes@ =~= key@ + account_state_enc(account@));
    }
    let mut h = sha256_digest(&bytes);
    let mut i: usize = 0;
    while i < proof.siblings.len()
        invariant
            i <= proof.siblings@.len(),
            h@ == fold_path(leaf_hash(key@, account@), proof@.take(i as int)),
        decreases proof.siblings@.len() - i,
    {
        let (is_right, sib) = (proof.siblings[i].0, proof.siblings[i].1);
        let mut step: Vec<u8> = Vec::new();
        if is_right {
            crate::codec::push_h256(&mut step, &h);
            crate::codec::push_h256(&mut step, &sib);
            proof {
                assert(step@ =~= h@ + sib@);
            }
        } else {
            crate::codec::push_h256(&mut step, &sib);
            crate::codec::push_h256(&mut step, &h);
            proof {
                assert(step@ =~= sib@ + h@);
            }
        }
        let ghost pre = proof@.take(i as int);
        h = sha256_digest(&step);
        proof {
            assert(proof@.take(i + 1 as int) =~= pre.push((is_right, sib@)));
            lemma_fold_path_push(leaf_hash(key@, account@), pre, (is_right, sib@));
            assert((proof.siblings@[i as int].0, proof.siblings@[i as int].1) == proof.siblings@[
                i as int
            ]);
        }
        i = i + 1;
    }
    proof {
        assert(proof@.take(proof@.len() as int) =~= proof@);
    }
    h == *root
}


// ---------------------------------------------------------------------------
// The versioned store: committed snapshots, staged updates, Merkle roots.
// ---------------------------------------------------------------------------

/// The node-level writes of one staged version: the full post image, to be
/// committed atomically.
#[derive(Clone, Debug)]
pub struct NodeBatch {
    version: u64,
    post: AccountMap,
}

impl NodeBatch {
    pub closed spec fn spec_version(self) -> u64 {
        self.version
    }

    pub closed spec fn post_entries(self) -> Seq<(H256, AccountState)> {
        self.post.entries_seq()
    }

    pub open spec fn post_find(self, key: Seq<u8>) -> Option<AccountState> {
        seq_find(self.post_entries(), key)
    }

    pub open spec fn wf(self) -> bool {
        forall|m: int, n: int|
            0 <= m < n < self.post_entries().len() ==> (#[trigger] self.post_entries()[m]).0@ != (
            #[trigger] self.post_entries()[n]).0@
    }

    /// The root this batch commits to, computable before the commit.
    pub fn post_root(&self) -> (r: H256)
        ensures
            r@ == merkle_root_of(self.post_entries()),
    {
        self.post.merkle_root()
    }
}

/// The batch a staging step hands back, to be passed to `commit`.
#[derive(Clone, Debug)]
pub struct TreeUpdateBatch {
    pub node_batch: NodeBatch,
}

/// The witness a staging step produces: both roots and the prior value of
/// every touched key, each with its inclusion path where present.
#[derive(Clone, Debug)]
pub struct StateUpdate {
    pub pre_state_root: H256,
    pub post_state_root: H256,
    pub pre_state: Vec<(H256, (Option<AccountState>, SparseMerkleProof))>,
}

/// The first value under a key, at view level.
pub open spec fn vfind(es: Seq<(Seq<u8>, AccountStateView)>, key: Seq<u8>) -> Option<
    AccountStateView,
>
    decreases es.len(),
{
    if es.len() == 0 {
        None
    } else if es[0].0 == key {
        Some(es[0].1)
    } else {
        vfind(es.drop_first(), key)
    }
}

/// The view-level search agrees with the exec-level one.
pub proof fn lemma_vfind_ev(entries: Seq<(H256, AccountState)>, key: Seq<u8>)
    ensures
        vfind(ev(entries), key) == (match seq_find(entries, key) {
            Some(a) => Some(a@),
            None => None::<AccountStateView>,
        }),
    decreases entries.len(),
{
    if entries.len() > 0 {
        lemma_vfind_ev(entries.drop_first(), key);
        assert(ev(entries).drop_first() =~= ev(entries.drop_first()));
    }
}

/// Writing back the value a key already holds changes nothing.
pub proof fn lemma_vset_same(es: Seq<(Seq<u8>, AccountStateView)>, key: Seq<u8>)
    requires
        vfind(es, key) is Some,
    ensures
        vset(es, key, vfind(es, key)->Some_0) == es,
    decreases es.len(),
{
    reveal_with_fuel(vset, 2);
    if es[0].0 == key {
        assert(vset(es, key, es[0].1) =~= es);
    } else {
        lemma_vset_same(es.drop_first(), key);
        assert(vset(es, key, vfind(es, key)->Some_0) =~= es);
    }
}

/// A whole update list applied at view level, in order: a write replaces
/// in place or appends, an absence removes.
pub open spec fn vapply(
    es: Seq<(Seq<u8>, AccountStateView)>,
    ups: Seq<(Seq<u8>, Option<AccountStateView>)>,
) -> Seq<(Seq<u8>, AccountStateView)>
    decreases ups.len(),
{
    if ups.len() == 0 {
        es
    } else {
        let step = match ups[0].1 {
            Some(v) => vset(es, ups[0].0, v),
            None => vremove(es, ups[0].0),
        };
        vapply(step, ups.drop_first())
    }
}

/// The mathematical value of an update list.
pub open spec fn uv(ups: Seq<(H256, Option<AccountState>)>) -> Seq<
    (Seq<u8>, Option<AccountStateView>),
> {
    ups.map_values(
        |u: (H256, Option<AccountState>)|
            (
                u.0@,
                match u.1 {
                    Some(a) => Some(a@),
                    None => None,
                },
            ),
    )
}

pub proof fn lemma_vapply_snoc(
    es: Seq<(Seq<u8>, AccountStateView)>,
    ups: Seq<(Seq<u8>, Option<AccountStateView>)>,
    u: (Seq<u8>, Option<AccountStateView>),
)
    ensures
        vapply(es, ups.push(u)) == (match u.1 {
            Some(v) => vset(vapply(es, ups), u.0, v),
            None => vremove(vapply(es, ups), u.0),
        }),
    decreases ups.len(),
{
    reveal_with_fuel(vapply, 3);
    if ups.len() == 0 {
        assert(ups.push(u)[0] == u);
        assert(ups.push(u).drop_first() =~= Seq::<(Seq<u8>, Option<AccountStateView>)>::empty());
    } else {
        assert(ups.push(u)[0] == ups[0]);
        assert(ups.push(u).drop_first() =~= ups.drop_first().push(u));
        let step = match ups[0].1 {
            Some(v) => vset(es, ups[0].0, v),
            None => vremove(es, ups[0].0),
        };
        lemma_vapply_snoc(step, ups.drop_first(), u);
    }
}

/// The versioned authenticated store. Version 0 is the empty map; commit
/// `i` creates version `i`; staged updates never leak into reads.
pub struct VmState {
    committed: Vec<AccountMap>,
    staged_version: Option<u64>,
}

impl VmState {
    /// The committed snapshots: index `i` holds version `i + 1`.
    pub closed spec fn snapshots(self) -> Seq<AccountMap> {
        self.committed@
    }

    /// The latest committed version; 0 when nothing was committed.
    pub open spec fn latest(self) -> int {
        self.snapshots().len() as int
    }

    pub closed spec fn spec_staged_version(self) -> Option<u64> {
        self.staged_version
    }

    /// The entries of `version`, in storage order; empty at version 0.
    pub open spec fn entries_at(self, version: int) -> Seq<(H256, AccountState)> {
        if version <= 0 {
            Seq::<(H256, AccountState)>::empty()
        } else {
            self.snapshots()[version - 1].entries_seq()
        }
    }

    /// The content of `version`: the empty map at version 0.
    pub open spec fn find_at(self, version: int, key: Seq<u8>) -> Option<AccountState> {
        if version <= 0 {
            None
        } else {
            seq_find(self.snapshots()[version - 1].entries_seq(), key)
        }
    }

    /// The root of `version`: the zero digest at version 0.
    pub open spec fn root_at(self, version: int) -> Seq<u8> {
        if version <= 0 {
            zero_h256_seq()
        } else {
            merkle_root_of(self.snapshots()[version - 1].entries_seq())
        }
    }

    pub open spec fn wf(self) -> bool {
        forall|v: int| 0 <= v < self.snapshots().len() ==> (#[trigger] self.snapshots()[v]).wf()
    }

    pub fn new() -> (r: Self)
        ensures
            r.wf(),
            r.latest() == 0,
            r.spec_staged_version() is None,
    {
        VmState { committed: Vec::new(), staged_version: None }
    }

    /// The latest committed version (`committed` true), or the staged
    /// version where one is ahead of it.
    pub fn get_version(&self, committed: bool) -> (r: Result<Option<u64>, NexusError>)
        requires
            self.wf(),
        ensures
            r is Ok,
            committed && self.latest() == 0 ==> r == Ok::<Option<u64>, NexusError>(None),
            committed && self.latest() > 0 ==> (r matches Ok(Some(v)) && v as int
                == self.latest()),
            !committed && self.spec_staged_version() is Some ==> r == Ok::<
                Option<u64>,
                NexusError,
            >(self.spec_staged_version()),
            !committed && self.spec_staged_version() is None && self.latest() == 0 ==> r == Ok::<
                Option<u64>,
                NexusError,
            >(None),
            !committed && self.spec_staged_version() is None && self.latest() > 0 ==> (r matches
                Ok(Some(v)) && v as int == self.latest()),
    {
        if !committed {
            if let Some(v) = self.staged_version {
                return Ok(Some(v));
            }
        }
        if self.committed.len() == 0 {
            Ok(None)
        } else {
            Ok(Some(self.committed.len() as u64))
        }
    }

    /// Point lookup at a committed version.
    pub fn get(&self, key: &H256, version: u64) -> (r: Result<Option<AccountState>, NexusError>)
        requires
            self.wf(),
        ensures
            version <= self.latest() ==> r == Ok::<Option<AccountState>, NexusError>(
                self.find_at(version as int, key@),
            ),
            version > self.latest() ==> r == Err::<Option<AccountState>, NexusError>(
                NexusError::VersionMismatch,
            ),
    {
        if version == 0 {
            return Ok(None);
        }
        if version <= self.committed.len() as u64 {
            let idx = (version - 1) as usize;
            Ok(self.committed[idx].get(key))
        } else {
            Err(NexusError::VersionMismatch)
        }
    }

    /// Point lookup with an inclusion path against the version's root.
    pub fn get_with_proof(&self, key: &H256, version: u64) -> (r: Result<
        (Option<AccountState>, SparseMerkleProof),
        NexusError,
    >)
        requires
            self.wf(),
        ensures
            version <= self.latest() ==> (r matches Ok(t) && t.0 == self.find_at(
                version as int,
                key@,
            )),
            version > self.latest() ==> r is Err,
            r matches Ok(t) ==> (t.0 matches Some(a) ==> fold_path(leaf_hash(key@, a@), t.1@)
                == self.root_at(version as int)),
    {
        if version == 0 {
            return Ok((None, SparseMerkleProof::empty()));
        }
        if version <= self.committed.len() as u64 {
            let idx = (version - 1) as usize;
            Ok(self.committed[idx].get_with_proof(key))
        } else {
            Err(NexusError::VersionMismatch)
        }
    }

    /// The non-inclusion witness for a key at a committed version: the
    /// version's whole entry list, which recomputes to the version's root
    /// and does not hold the key. `None` when the version is unknown or
    /// the key is present.
    pub fn non_inclusion_witness(&self, key: &H256, version: u64) -> (r: Option<AccountMap>)
        requires
            self.wf(),
        ensures
            r is Some <==> (version <= self.latest() && self.find_at(version as int, key@)
                is None),
            r matches Some(w) ==> merkle_root_of(w.entries_seq()) == self.root_at(version as int)
                && w.spec_get(key@) is None,
    {
        if version == 0 {
            return Some(AccountMap::new());
        }
        if version <= self.committed.len() as u64 {
            let idx = (version - 1) as usize;
            if self.committed[idx].get(key).is_none() {
                Some(self.committed[idx].duplicate())
            } else {
                None
            }
        } else {
            None
        }
    }

    /// The Merkle root of a committed version.
    pub fn get_root(&self, version: u64) -> (r: Result<H256, NexusError>)
        requires
            self.wf(),
        ensures
            version <= self.latest() ==> (r matches Ok(h) && h@ == self.root_at(version as int)),
            version > self.latest() ==> r == Err::<H256, NexusError>(NexusError::VersionMismatch),
    {
        if version == 0 {
            return Ok(H256::zero());
        }
        if version <= self.committed.len() as u64 {
            let idx = (version - 1) as usize;
            Ok(self.committed[idx].merkle_root())
        } else {
            Err(NexusError::VersionMismatch)
        }
    }

    /// Stages a set of edits at `version`, one past the latest commit:
    /// builds the node batch and the witness structure without touching
    /// the committed state. Writing `None` removes the key.
    pub fn update_set(&self, updates: Vec<(H256, Option<AccountState>)>, version: u64) -> (r:
        Result<(TreeUpdateBatch, StateUpdate), NexusError>)
        requires
            self.wf(),
            self.latest() < u64::MAX,
            forall|m: int, n: int|
                0 <= m < n < updates@.len() ==> (#[trigger] updates@[m]).0@ != (
                #[trigger] updates@[n]).0@,
        ensures
            r is Ok <==> version == self.latest() + 1,
            r matches Ok(t) ==> t.0.node_batch.spec_version() == version,
            r matches Ok(t) ==> t.0.node_batch.wf(),
            r matches Ok(t) ==> forall|j: int|
                0 <= j < updates@.len() ==> #[trigger] t.0.node_batch.post_find(
                    updates@[j].0@,
                ) == updates@[j].1,
            r matches Ok(t) ==> forall|k: Seq<u8>|
                (forall|j: int| 0 <= j < updates@.len() ==> (#[trigger] updates@[j]).0@ != k)
                    ==> #[trigger] t.0.node_batch.post_find(k) == self.find_at(self.latest(), k),
            r matches Ok(t) ==> t.1.pre_state_root@ == self.root_at(self.latest()),
            r matches Ok(t) ==> t.1.post_state_root@ == merkle_root_of(
                t.0.node_batch.post_entries(),
            ),
            r matches Ok(t) ==> t.1.pre_state@.len() == updates@.len(),
            r matches Ok(t) ==> forall|j: int|
                0 <= j < updates@.len() ==> (#[trigger] t.1.pre_state@[j]).0 == updates@[j].0
                    && t.1.pre_state@[j].1.0 == self.find_at(self.latest(), updates@[j].0@),
            r matches Ok(t) ==> ev(t.0.node_batch.post_entries()) == vapply(
                ev(self.entries_at(self.latest())),
                uv(updates@),
            ),
            r matches Ok(t) ==> forall|j: int|
                0 <= j < updates@.len() ==> (#[trigger] t.1.pre_state@[j]).1.1@ == (
                if self.find_at(self.latest(), updates@[j].0@) is Some {
                    spec_path(
                        self.entries_at(self.latest()),
                        0,
                        self.entries_at(self.latest()).len() as int,
                        find_index(self.entries_at(self.latest()), updates@[j].0@),
                    )
                } else {
                    Seq::<(bool, Seq<u8>)>::empty()
                }),
    {
        if !((self.committed.len() as u64) + 1 == version) {
            return Err(NexusError::VersionMismatch);
        }
        let latest = self.committed.len();
        let mut post: AccountMap = if latest == 0 {
            AccountMap::new()
        } else {
            self.committed[latest - 1].duplicate()
        };
        let pre_root: H256 = if latest == 0 {
            H256::zero()
        } else {
            self.committed[latest - 1].merkle_root()
        };
        proof {
            assert(post.wf());
            assert(forall|k: Seq<u8>| post.spec_get(k) == self.find_at(self.latest(), k));
            assert(pre_root@ == self.root_at(self.latest()));
            assert(ev(post.entries_seq()) =~= ev(self.entries_at(self.latest())));
            assert(uv(updates@).take(0) =~= Seq::<(Seq<u8>, Option<AccountStateView>)>::empty());
        }
        let ghost base = post;
        let mut pre_state: Vec<(H256, (Option<AccountState>, SparseMerkleProof))> = Vec::new();
        let mut i: usize = 0;
        while i < updates.len()
            invariant
                i <= updates@.len(),
                self.wf(),
                latest == self.committed@.len(),
                base.wf(),
                latest > 0 ==> base.entries_seq() == self.committed@[latest - 1].entries_seq(),
                base.entries_seq() == self.entries_at(self.latest()),
                forall|k: Seq<u8>| base.spec_get(k) == self.find_at(self.latest(), k),
                forall|m: int, n: int|
                    0 <= m < n < updates@.len() ==> (#[trigger] updates@[m]).0@ != (
                    #[trigger] updates@[n]).0@,
                post.wf(),
                forall|j: int|
                    0 <= j < i ==> post.spec_get((#[trigger] updates@[j]).0@) == updates@[j].1,
                forall|k: Seq<u8>|
                    (forall|j: int| 0 <= j < i ==> (#[trigger] updates@[j]).0@ != k)
                        ==> post.spec_get(k) == base.spec_get(k),
                pre_state@.len() == i,
                forall|j: int|
                    0 <= j < i ==> (#[trigger] pre_state@[j]).0 == updates@[j].0
                        && pre_state@[j].1.0 == base.spec_get(updates@[j].0@),
                forall|j: int|
                    0 <= j < i ==> (#[trigger] pre_state@[j]).1.1@ == (if base.spec_get(
                        updates@[j].0@,
                    ) is Some {
                        spec_path(
                            base.entries_seq(),
                            0,
                            base.entries_seq().len() as int,
                            find_index(base.entries_seq(), updates@[j].0@),
                        )
                    } else {
                        Seq::<(bool, Seq<u8>)>::empty()
                    }),
                ev(post.entries_seq()) == vapply(
                    ev(self.entries_at(self.latest())),
                    uv(updates@).take(i as int),
                ),
            decreases updates@.len() - i,
        {
            let (key, value) = (updates[i].0, match &updates[i].1 {
                Some(a) => Some(*a),
                None => None,
            });
            proof {
                assert((updates@[i as int].0, updates@[i as int].1) == updates@[i as int]);
            }
            let (pre_value, pre_proof) = if latest == 0 {
                (None, SparseMerkleProof::empty())
            } else {
                self.committed[latest - 1].get_with_proof(&key)
            };
            pre_state.push((key, (pre_value, pre_proof)));
            let ghost post_ev0 = ev(post.entries_seq());
            match value {
                Some(a) => {
                    post.set(key, a);
                },
                None => {
                    post.remove(&key);
                },
            }
            proof {
                lemma_vapply_snoc(
                    ev(self.entries_at(self.latest())),
                    uv(updates@).take(i as int),
                    uv(updates@)[i as int],
                );
                assert(uv(updates@).take(i as int).push(uv(updates@)[i as int]) =~= uv(
                    updates@,
                ).take(i + 1 as int));
            }
            i = i + 1;
        }
        proof {
            assert(uv(updates@).take(updates@.len() as int) =~= uv(updates@));
        }
        let post_root = post.merkle_root();
        let nb = NodeBatch { version, post };
        proof {
            assert(nb.post_entries() == nb.post.entries_seq());
            assert forall|k: Seq<u8>|
                (forall|j: int| 0 <= j < updates@.len() ==> (#[trigger] updates@[j]).0@ != k)
                    implies #[trigger] nb.post_find(k) == self.find_at(self.latest(), k) by {
                assert(nb.post.spec_get(k) == base.spec_get(k));
            }
            assert forall|j: int| 0 <= j < updates@.len() implies #[trigger] nb.post_find(
                updates@[j].0@,
            ) == updates@[j].1 by {
                assert(nb.post.spec_get(updates@[j].0@) == updates@[j].1);
            }
        }
        Ok(
            (
                TreeUpdateBatch { node_batch: nb },
                StateUpdate { pre_state_root: pre_root, post_state_root: post_root, pre_state },
            ),
        )
    }

    /// Records the staged version, after a successful staging step.
    pub fn update_version(&mut self, version: u64) -> (r: Result<(), NexusError>)
        ensures
            r is Ok,
            final(self).spec_staged_version() == Some(version),
            final(self).snapshots() == old(self).snapshots(),
    {
        self.staged_version = Some(version);
        Ok(())
    }

    /// Commits a staged batch: accepted exactly once, at the version one
    /// past the latest committed one.
    pub fn commit(&mut self, node_batch: &NodeBatch) -> (r: Result<(), NexusError>)
        requires
            old(self).wf(),
            node_batch.wf(),
            old(self).latest() < u64::MAX,
        ensures
            final(self).wf(),
            r is Ok <==> node_batch.spec_version() == old(self).latest() + 1,
            r is Ok ==> final(self).latest() == old(self).latest() + 1,
            r is Ok ==> forall|k: Seq<u8>|
                final(self).find_at(final(self).latest(), k) == node_batch.post_find(k),
            r is Ok ==> final(self).root_at(final(self).latest()) == merkle_root_of(
                node_batch.post_entries(),
            ),
            r is Ok ==> forall|v: int, k: Seq<u8>|
                0 <= v <= old(self).latest() ==> final(self).find_at(v, k) == old(self).find_at(
                    v,
                    k,
                ),
            r is Ok ==> forall|v: int|
                0 <= v <= old(self).latest() ==> final(self).root_at(v) == old(self).root_at(v),
            r is Err ==> final(self).snapshots() == old(self).snapshots(),
            final(self).spec_staged_version() == old(self).spec_staged_version(),
    {
        if (self.committed.len() as u64) + 1 == node_batch.version {
            self.committed.push(node_batch.post.duplicate());
            proof {
                assert(final(self).snapshots().len() == old(self).snapshots().len() + 1);
                assert(final(self).snapshots()[final(self).latest() - 1].entries_seq()
                    == node_batch.post_entries());
                assert(forall|v: int|
                    0 <= v < old(self).snapshots().len() ==> final(self).snapshots()[v] == old(
                        self,
                    ).snapshots()[v]);
            }
            Ok(())
        } else {
            Err(NexusError::VersionMismatch)
        }
    }
}

} // verus!
