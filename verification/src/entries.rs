//! What a store holds, key by key, as a mathematical value; what binding and
//! unbinding do to it; and the bindings that are read from it.

use crate::keys::{lemma_keys, master_key, slave_key};
use crate::relation::{lemma_without, with_added, without, Bindings};
use vstd::prelude::*;

verus! {

/// The keys of a store, and what is read under them as an integer and as a
/// list of integers.
pub struct Entries {
    /// Every key that is held, whatever is kept under it.
    pub keys: Set<Seq<char>>,
    /// The keys that read as an integer, with that integer.
    pub ids: Map<Seq<char>, i64>,
    /// The keys that read as a list of integers, with that list.
    pub lists: Map<Seq<char>, Seq<i64>>,
}

impl Entries {
    /// No key is held.
    pub open spec fn empty() -> Entries {
        Entries { keys: Set::empty(), ids: Map::empty(), lists: Map::empty() }
    }

    /// The entries once `value` is kept under `key`.
    pub open spec fn with_id(self, key: Seq<char>, value: i64) -> Entries {
        Entries {
            keys: self.keys.insert(key),
            ids: self.ids.insert(key, value),
            lists: self.lists.remove(key),
        }
    }

    /// The entries once `list` is kept under `key`.
    pub open spec fn with_list(self, key: Seq<char>, list: Seq<i64>) -> Entries {
        Entries {
            keys: self.keys.insert(key),
            ids: self.ids.remove(key),
            lists: self.lists.insert(key, list),
        }
    }

    /// The entries once nothing is kept under `key`.
    pub open spec fn without_key(self, key: Seq<char>) -> Entries {
        Entries {
            keys: self.keys.remove(key),
            ids: self.ids.remove(key),
            lists: self.lists.remove(key),
        }
    }

    /// The bindings that are read from the entries: the integers under the
    /// slave keys and the lists under the master keys.
    pub open spec fn bindings(self) -> Bindings {
        Bindings {
            masters: Map::new(
                |s: i64| self.ids.contains_key(slave_key(s)),
                |s: i64| self.ids[slave_key(s)],
            ),
            slaves: Map::new(
                |m: i64| self.lists.contains_key(master_key(m)),
                |m: i64| self.lists[master_key(m)],
            ),
        }
    }

    /// The entries after `slave` is unbound. Where it has no master nothing
    /// changes. Else its slave key goes; and where its master has a list,
    /// that list is kept without `slave`, or the master's key goes too when
    /// nothing is left in the list. No other key is touched.
    pub open spec fn unbind(self, slave: i64) -> Entries {
        if self.ids.contains_key(slave_key(slave)) {
            let master = self.ids[slave_key(slave)];
            let forgotten = self.without_key(slave_key(slave));
            if forgotten.lists.contains_key(master_key(master)) {
                let rest = without(forgotten.lists[master_key(master)], slave);
                if rest.len() > 0 {
                    forgotten.with_list(master_key(master), rest)
                } else {
                    forgotten.without_key(master_key(master))
                }
            } else {
                forgotten
            }
        } else {
            self
        }
    }

    /// The entries after `slave` is bound to `master`: `slave` is unbound,
    /// then `master` is kept under the slave key, and under the master key
    /// the list that was there, or an empty one, with `slave` added. No other
    /// key is touched.
    pub open spec fn bind(self, master: i64, slave: i64) -> Entries {
        let unbound = self.unbind(slave);
        unbound.with_id(slave_key(slave), master).with_list(
            master_key(master),
            with_added(unbound.bindings().slaves_of(master), slave),
        )
    }
}

/// Unbinding key by key is unbinding in the relation that is read from the keys.
pub proof fn lemma_unbind_reads(e: Entries, slave: i64)
    ensures
        e.unbind(slave).bindings() == e.bindings().unbind(slave),
{
    lemma_keys();
    let after = e.unbind(slave).bindings();
    let wanted = e.bindings().unbind(slave);
    assert(after.masters =~= wanted.masters);
    assert(after.slaves =~= wanted.slaves);
}

/// Binding key by key is binding in the relation that is read from the keys.
pub proof fn lemma_bind_reads(e: Entries, master: i64, slave: i64)
    ensures
        e.bind(master, slave).bindings() == e.bindings().bind(master, slave),
{
    lemma_keys();
    lemma_unbind_reads(e, slave);
    let after = e.bind(master, slave).bindings();
    let wanted = e.bindings().bind(master, slave);
    assert(after.masters =~= wanted.masters);
    assert(after.slaves =~= wanted.slaves);
}

/// Binding a room that holds no slave key and unbinding it again gives the
/// entries back key for key, where the master's key was not held, or held a
/// list that was not empty and did not name the room.
pub proof fn lemma_bind_undone(e: Entries, master: i64, slave: i64)
    requires
        !e.keys.contains(slave_key(slave)),
        !e.ids.contains_key(slave_key(slave)),
        !e.lists.contains_key(slave_key(slave)),
        !e.ids.contains_key(master_key(master)),
        e.lists.contains_key(master_key(master)) ==> e.keys.contains(master_key(master))
            && e.lists[master_key(master)].len() > 0 && !e.lists[master_key(master)].contains(
            slave,
        ),
        !e.lists.contains_key(master_key(master)) ==> !e.keys.contains(master_key(master)),
    ensures
        e.bind(master, slave).unbind(slave) == e,
{
    lemma_keys();
    let before = e.bindings().slaves_of(master);
    let bound = e.bind(master, slave);
    let back = bound.unbind(slave);
    lemma_without(before, slave);
    assert(before.push(slave).drop_last() =~= before);
    assert(without(before.push(slave), slave) == before);
    assert(back.keys =~= e.keys);
    assert(back.ids =~= e.ids);
    assert(back.lists =~= e.lists);
}

/// Unbinding the only slave of a master takes the slave's key and the
/// master's key out of the store: no empty list is left behind.
pub proof fn lemma_last_slave_leaves_no_key(e: Entries, master: i64, slave: i64)
    requires
        e.bindings().master_of(slave) == Some(master),
        e.bindings().slaves_of(master) == seq![slave],
    ensures
        !e.unbind(slave).keys.contains(slave_key(slave)),
        !e.unbind(slave).keys.contains(master_key(master)),
        e.unbind(slave).keys == e.keys.remove(slave_key(slave)).remove(master_key(master)),
        e.unbind(slave).ids == e.ids.remove(slave_key(slave)).remove(master_key(master)),
        e.unbind(slave).lists == e.lists.remove(slave_key(slave)).remove(master_key(master)),
{
    lemma_keys();
    let list = e.bindings().slaves_of(master);
    assert(seq![slave].len() == 1 && seq![slave][0] == slave);
    assert(e.lists.contains_key(master_key(master)));
    assert(list.drop_last() =~= Seq::<i64>::empty());
    assert(without(list.drop_last(), slave) =~= Seq::<i64>::empty());
    assert(without(list, slave) =~= Seq::<i64>::empty());
}

} // verus!
