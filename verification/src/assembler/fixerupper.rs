//! Fixups: the replacement kinds that sizing decides for statements, kept
//! by scope and node so that compilation uses them in place of the parsed
//! kind.
use vstd::prelude::*;

verus! {

/// The key of a fixup: the scope and the node it applies to.
#[derive(Debug, Clone, Copy, PartialEq, Eq, Structural)]
pub struct FixKey {
    pub scope: u64,
    pub id: usize,
}

/// The map that `entries` holds: each key to its value, none bound twice.
pub open spec fn entries_map<V>(entries: Seq<(FixKey, V)>) -> Map<FixKey, V>
    decreases entries.len(),
{
    if entries.len() == 0 {
        Map::empty()
    } else {
        entries_map(entries.drop_last()).insert(entries.last().0, entries.last().1)
    }
}

/// No key occurs twice in `entries`.
pub open spec fn keys_distinct<V>(entries: Seq<(FixKey, V)>) -> bool {
    forall|i: int, j: int|
        0 <= i < entries.len() && 0 <= j < entries.len() && i != j ==> #[trigger] entries[i].0
            != #[trigger] entries[j].0
}

/// A key absent from `entries` is absent from its map.
proof fn lemma_absent<V>(entries: Seq<(FixKey, V)>, k: FixKey)
    requires
        forall|i: int| 0 <= i < entries.len() ==> #[trigger] entries[i].0 != k,
    ensures
        !entries_map(entries).contains_key(k),
    decreases entries.len(),
{
    if entries.len() > 0 {
        let rest = entries.drop_last();
        assert forall|i: int| 0 <= i < rest.len() implies #[trigger] rest[i].0 != k by {
            assert(rest[i] == entries[i]);
        }
        lemma_absent(rest, k);
    }
}

/// With distinct keys, the entry at `i` is what its key maps to.
proof fn lemma_at<V>(entries: Seq<(FixKey, V)>, i: int)
    requires
        keys_distinct(entries),
        0 <= i < entries.len(),
    ensures
        entries_map(entries).contains_key(entries[i].0),
        entries_map(entries)[entries[i].0] == entries[i].1,
    decreases entries.len(),
{
    if i < entries.len() - 1 {
        let rest = entries.drop_last();
        assert(entries[entries.len() - 1].0 != entries[i].0);
        assert forall|a: int, b: int|
            0 <= a < rest.len() && 0 <= b < rest.len() && a != b implies #[trigger] rest[a].0
            != #[trigger] rest[b].0 by {
            assert(rest[a] == entries[a] && rest[b] == entries[b]);
        }
        assert(rest[i] == entries[i]);
        lemma_at(rest, i);
    }
}

/// Replacing the value at `i` rebinds its key and nothing else.
proof fn lemma_update<V>(entries: Seq<(FixKey, V)>, i: int, v: V)
    requires
        keys_distinct(entries),
        0 <= i < entries.len(),
    ensures
        entries_map(entries.update(i, (entries[i].0, v))) == entries_map(entries).insert(
            entries[i].0,
            v,
        ),
    decreases entries.len(),
{
    let k = entries[i].0;
    let upd = entries.update(i, (k, v));
    if i == entries.len() - 1 {
        assert(upd.drop_last() =~= entries.drop_last());
        assert(entries_map(upd) =~= entries_map(entries).insert(k, v));
    } else {
        let rest = entries.drop_last();
        assert(upd.drop_last() =~= rest.update(i, (k, v)));
        assert forall|a: int, b: int|
            0 <= a < rest.len() && 0 <= b < rest.len() && a != b implies #[trigger] rest[a].0
            != #[trigger] rest[b].0 by {
            assert(rest[a] == entries[a] && rest[b] == entries[b]);
        }
        assert(rest[i] == entries[i]);
        lemma_update(rest, i, v);
        assert(entries[entries.len() - 1].0 != k);
        assert(entries_map(upd) =~= entries_map(entries).insert(k, v));
    }
}

/// The fixups decided so far.
#[derive(Debug, Clone)]
pub struct FixerUpper<V> {
    fixups: Vec<(FixKey, V)>,
}

impl<V> View for FixerUpper<V> {
    type V = Map<FixKey, V>;

    closed spec fn view(&self) -> Map<FixKey, V> {
        entries_map(self.fixups@)
    }
}

impl<V: Copy> FixerUpper<V> {
    /// No key is bound twice.
    pub closed spec fn wf(&self) -> bool {
        keys_distinct(self.fixups@)
    }

    /// No fixups.
    pub fn new() -> (res: FixerUpper<V>)
        ensures
            res.wf(),
            res@ == Map::<FixKey, V>::empty(),
    {
        FixerUpper { fixups: Vec::new() }
    }

    /// The index of the fixup of node `id` in scope `scope`, if any.
    fn find(&self, scope: u64, id: usize) -> (res: Option<usize>)
        requires
            self.wf(),
        ensures
            match res {
                Some(i) => i < self.fixups@.len() && self.fixups@[i as int].0 == (FixKey { scope, id }),
                None => forall|i: int|
                    0 <= i < self.fixups@.len() ==> #[trigger] self.fixups@[i].0 != (FixKey { scope, id }),
            },
    {
        let mut i: usize = 0;
        while i < self.fixups.len()
            invariant
                i <= self.fixups@.len(),
                forall|j: int| 0 <= j < i ==> #[trigger] self.fixups@[j].0 != (FixKey { scope, id }),
            decreases self.fixups@.len() - i,
        {
            let k = self.fixups[i].0;
            if k.scope == scope && k.id == id {
                return Some(i);
            }
            i = i + 1;
        }
        None
    }

    /// Record `v` as the fixup of node `id` in scope `scope`, replacing any
    /// earlier one.
    pub fn add_fixup(&mut self, scope: u64, id: usize, v: V)
        requires
            old(self).wf(),
        ensures
            final(self).wf(),
            final(self)@ == old(self)@.insert(FixKey { scope, id }, v),
    {
        let key = FixKey { scope, id };
        match self.find(scope, id) {
            Some(i) => {
                proof {
                    lemma_update(self.fixups@, i as int, v);
                }
                self.fixups.set(i, (key, v));
                assert forall|a: int, b: int|
                    0 <= a < self.fixups@.len() && 0 <= b < self.fixups@.len() && a != b implies #[trigger] self.fixups@[a].0
                    != #[trigger] self.fixups@[b].0 by {
                    assert(self.fixups@[a].0 == old(self).fixups@[a].0);
                    assert(self.fixups@[b].0 == old(self).fixups@[b].0);
                }
            },
            None => {
                let ghost before = self.fixups@;
                self.fixups.push((key, v));
                proof {
                    assert(self.fixups@.drop_last() =~= before);
                    assert forall|a: int, b: int|
                        0 <= a < self.fixups@.len() && 0 <= b < self.fixups@.len() && a != b implies #[trigger] self.fixups@[a].0
                        != #[trigger] self.fixups@[b].0 by {
                        if a < before.len() {
                            assert(self.fixups@[a] == before[a]);
                        }
                        if b < before.len() {
                            assert(self.fixups@[b] == before[b]);
                        }
                    }
                }
            },
        }
    }

    /// The fixup of node `id` in scope `scope`, if any.
    pub fn get_fixup(&self, scope: u64, id: usize) -> (res: Option<&V>)
        requires
            self.wf(),
        ensures
            match res {
                Some(v) => self@.contains_key(FixKey { scope, id }) && self@[FixKey { scope, id }] == *v,
                None => !self@.contains_key(FixKey { scope, id }),
            },
    {
        match self.find(scope, id) {
            Some(i) => {
                proof {
                    lemma_at(self.fixups@, i as int);
                }
                Some(&self.fixups[i].1)
            },
            None => {
                proof {
                    lemma_absent(self.fixups@, FixKey { scope, id });
                }
                None
            },
        }
    }

    /// The fixup of node `id` in scope `scope`, or `i` where there is none.
    pub fn get_fixup_or_default(&self, scope: u64, id: usize, i: &V) -> (res: V)
        requires
            self.wf(),
        ensures
            res == if self@.contains_key(FixKey { scope, id }) {
                self@[FixKey { scope, id }]
            } else {
                *i
            },
    {
        match self.get_fixup(scope, id) {
            Some(v) => *v,
            None => *i,
        }
    }
}

/// After a fixup is recorded for a node, the node's fixup is that one, and
/// every other node's fixup is as it was.
pub proof fn lemma_fixup_read_after_write<V>(
    before: Map<FixKey, V>,
    after: Map<FixKey, V>,
    key: FixKey,
    v: V,
    other: FixKey,
)
    requires
        after == before.insert(key, v),
        other != key,
    ensures
        after.contains_key(key) && after[key] == v,
        after.contains_key(other) == before.contains_key(other),
        before.contains_key(other) ==> after[other] == before[other],
{
}

} // verus!
