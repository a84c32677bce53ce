//! The binding relation as a mathematical value: what the store holds, and
//! what binding and unbinding do to it.

use vstd::prelude::*;

verus! {

/// The relation between slave rooms and master rooms, seen from both sides.
pub struct Bindings {
    /// The master of each slave room.
    pub masters: Map<i64, i64>,
    /// The slaves of each master room, in the order in which they were bound.
    pub slaves: Map<i64, Seq<i64>>,
}

/// `list` without every occurrence of `room`, the others in their order.
pub open spec fn without(list: Seq<i64>, room: i64) -> Seq<i64>
    decreases list.len(),
{
    if list.len() == 0 {
        list
    } else if list.last() == room {
        without(list.drop_last(), room)
    } else {
        without(list.drop_last(), room).push(list.last())
    }
}

/// `list` with `room` at its end, unless `room` is in it already.
pub open spec fn with_added(list: Seq<i64>, room: i64) -> Seq<i64> {
    if list.contains(room) {
        list
    } else {
        list.push(room)
    }
}

impl Bindings {
    /// No room is bound.
    pub open spec fn empty() -> Bindings {
        Bindings { masters: Map::empty(), slaves: Map::empty() }
    }

    /// The master that `slave` is bound to, if any.
    pub open spec fn master_of(self, slave: i64) -> Option<i64> {
        if self.masters.contains_key(slave) {
            Some(self.masters[slave])
        } else {
            None
        }
    }

    /// The slaves of `master` in order; none where it has no entry.
    pub open spec fn slaves_of(self, master: i64) -> Seq<i64> {
        if self.slaves.contains_key(master) {
            self.slaves[master]
        } else {
            Seq::empty()
        }
    }

    /// The two sides agree: a slave stands in the list of its master and of
    /// no other room, no list names a room twice, and no list is empty.
    pub open spec fn consistent(self) -> bool {
        &&& forall|s: i64| #[trigger]
            self.masters.contains_key(s) ==> self.slaves.contains_key(self.masters[s])
                && self.slaves[self.masters[s]].contains(s)
        &&& forall|m: i64| #[trigger]
            self.slaves.contains_key(m) ==> self.slaves[m].len() > 0
                && self.slaves[m].no_duplicates()
        &&& forall|m: i64, i: int|
            self.slaves.contains_key(m) && 0 <= i < self.slaves[m].len() ==> self.master_of(
                #[trigger] self.slaves[m][i],
            ) == Some(m)
    }

    /// The relation once the slave side of `slave` is forgotten: the first
    /// half of an unbinding.
    pub open spec fn forget(self, slave: i64) -> Bindings {
        Bindings { masters: self.masters.remove(slave), slaves: self.slaves }
    }

    /// The relation once `slave` is taken out of the list of `master`, and
    /// the list dropped where nothing is left in it.
    pub open spec fn strike(self, master: i64, slave: i64) -> Bindings {
        if self.slaves.contains_key(master) {
            let rest = without(self.slaves[master], slave);
            if rest.len() > 0 {
                Bindings { masters: self.masters, slaves: self.slaves.insert(master, rest) }
            } else {
                Bindings { masters: self.masters, slaves: self.slaves.remove(master) }
            }
        } else {
            self
        }
    }

    /// The relation after `slave` is unbound: unchanged where it had no
    /// master; else without its master, and struck from that master's list.
    pub open spec fn unbind(self, slave: i64) -> Bindings {
        if self.masters.contains_key(slave) {
            self.forget(slave).strike(self.masters[slave], slave)
        } else {
            self
        }
    }

    /// The relation once `slave` is recorded as bound to `master`, the list
    /// of `master` left as it is.
    pub open spec fn record(self, master: i64, slave: i64) -> Bindings {
        Bindings { masters: self.masters.insert(slave, master), slaves: self.slaves }
    }

    /// The relation once `slave` stands in the list of `master`.
    pub open spec fn enlist(self, master: i64, slave: i64) -> Bindings {
        Bindings {
            masters: self.masters,
            slaves: self.slaves.insert(master, with_added(self.slaves_of(master), slave)),
        }
    }

    /// The relation after `slave` is bound to `master`: unbound from whatever
    /// it was bound to, then recorded and put at the end of the master's list.
    pub open spec fn bind(self, master: i64, slave: i64) -> Bindings {
        self.unbind(slave).record(master, slave).enlist(master, slave)
    }

    /// The relation after the bindings `calls`, each a pair of master and
    /// slave, are made one after the other.
    pub open spec fn bind_all(self, calls: Seq<(i64, i64)>) -> Bindings
        decreases calls.len(),
    {
        if calls.len() == 0 {
            self
        } else {
            self.bind_all(calls.drop_last()).bind(calls.last().0, calls.last().1)
        }
    }

    /// The master that `slave` was last bound to by `calls`; where they do
    /// not bind it, the master it had before.
    pub open spec fn latest_master(self, calls: Seq<(i64, i64)>, slave: i64) -> Option<i64>
        decreases calls.len(),
    {
        if calls.len() == 0 {
            self.master_of(slave)
        } else if calls.last().1 == slave {
            Some(calls.last().0)
        } else {
            self.latest_master(calls.drop_last(), slave)
        }
    }
}

/// What a list with one more room at its end holds: the rooms it held, and
/// the new one.
pub proof fn lemma_push_contains(list: Seq<i64>, room: i64)
    ensures
        forall|e: i64| list.push(room).contains(e) <==> (list.contains(e) || e == room),
{
    let longer = list.push(room);
    assert forall|e: i64| longer.contains(e) <==> (list.contains(e) || e == room) by {
        if longer.contains(e) {
            let i = choose|i: int| 0 <= i < longer.len() && longer[i] == e;
            if i < list.len() {
                assert(list[i] == e);
            }
        }
        if list.contains(e) {
            let i = choose|i: int| 0 <= i < list.len() && list[i] == e;
            assert(longer[i] == e);
        }
        if e == room {
            assert(longer[longer.len() - 1] == e);
        }
    }
}

/// A list that names no room twice still does so with a room at its end
/// that it did not name.
pub proof fn lemma_push_keeps_distinct(list: Seq<i64>, room: i64)
    requires
        list.no_duplicates(),
        !list.contains(room),
    ensures
        list.push(room).no_duplicates(),
{
    let longer = list.push(room);
    assert forall|i: int, j: int|
        0 <= i < longer.len() && 0 <= j < longer.len() && i != j implies longer[i]
        != longer[j] by {
        if i < list.len() && j < list.len() {
            assert(list[i] != list[j]);
        } else if i < list.len() {
            assert(list.contains(list[i]));
        } else {
            assert(list.contains(list[j]));
        }
    }
}

/// What striking a room from a list keeps: every other room, in order and
/// as often as before.
pub proof fn lemma_without(list: Seq<i64>, room: i64)
    ensures
        !without(list, room).contains(room),
        forall|e: i64| e != room ==> (without(list, room).contains(e) <==> list.contains(e)),
        without(list, room).len() <= list.len(),
        list.no_duplicates() ==> without(list, room).no_duplicates(),
        !list.contains(room) ==> without(list, room) == list,
    decreases list.len(),
{
    if list.len() > 0 {
        let front = list.drop_last();
        let kept = without(front, room);
        let x = list.last();
        lemma_without(front, room);
        assert(list =~= front.push(x));
        lemma_push_contains(front, x);
        lemma_push_contains(kept, x);
        if x != room {
            assert(without(list, room) == kept.push(x));
            if list.no_duplicates() {
                assert(front.no_duplicates());
                if front.contains(x) {
                    let i = choose|i: int| 0 <= i < front.len() && front[i] == x;
                    assert(list[i] == list[list.len() - 1]);
                }
                lemma_push_keeps_distinct(kept, x);
            }
        }
        assert forall|e: i64| e != room implies (without(list, room).contains(e)
            <==> list.contains(e)) by {
            assert(front.push(x).contains(e) <==> (front.contains(e) || e == x));
            assert(kept.push(x).contains(e) <==> (kept.contains(e) || e == x));
        }
    }
}

/// In a consistent relation a room stands in the list of its master, once,
/// and in no other list.
pub proof fn lemma_listed_under_master_only(b: Bindings, slave: i64, master: i64)
    requires
        b.consistent(),
    ensures
        b.slaves_of(master).contains(slave) <==> b.master_of(slave) == Some(master),
        b.slaves_of(master).no_duplicates(),
{
    if b.slaves_of(master).contains(slave) {
        let i = choose|i: int| 0 <= i < b.slaves_of(master).len() && b.slaves_of(master)[i] == slave;
        assert(b.slaves.contains_key(master));
        assert(b.master_of(b.slaves[master][i]) == Some(master));
    }
    if b.master_of(slave) == Some(master) {
        assert(b.masters.contains_key(slave));
    }
    if b.slaves.contains_key(master) {
        assert(b.slaves[master].no_duplicates());
    }
}

/// Unbinding keeps the relation consistent, and afterwards the room has no
/// master and stands in no list.
pub proof fn lemma_unbind(b: Bindings, slave: i64)
    requires
        b.consistent(),
    ensures
        b.unbind(slave).consistent(),
        b.unbind(slave).master_of(slave) is None,
        forall|m: i64| !(#[trigger] b.unbind(slave).slaves_of(m)).contains(slave),
        forall|x: i64| x != slave ==> #[trigger] b.unbind(slave).master_of(x) == b.master_of(x),
{
    let after = b.unbind(slave);
    if !b.masters.contains_key(slave) {
        assert forall|m: i64| !(#[trigger] after.slaves_of(m)).contains(slave) by {
            lemma_listed_under_master_only(b, slave, m);
        }
    } else {
        let m0 = b.masters[slave];
        let list = b.slaves[m0];
        let rest = without(list, slave);
        lemma_without(list, slave);
        assert(b.slaves.contains_key(m0) && list.contains(slave));
        assert forall|x: i64| #[trigger] after.masters.contains_key(x) implies after.slaves.contains_key(
            after.masters[x],
        ) && after.slaves[after.masters[x]].contains(x) by {
            assert(b.masters.contains_key(x) && x != slave);
            if b.masters[x] == m0 {
                assert(list.contains(x));
                assert(rest.contains(x));
                let i = choose|i: int| 0 <= i < rest.len() && rest[i] == x;
                assert(rest.len() > 0);
            }
        }
        assert forall|m: i64| #[trigger] after.slaves.contains_key(m) implies after.slaves[m].len()
            > 0 && after.slaves[m].no_duplicates() by {
            assert(b.slaves.contains_key(m));
        }
        assert forall|m: i64, i: int|
            after.slaves.contains_key(m) && 0 <= i < after.slaves[m].len() implies after.master_of(
            #[trigger] after.slaves[m][i],
        ) == Some(m) by {
            let e = after.slaves[m][i];
            assert(b.slaves.contains_key(m));
            if m == m0 {
                assert(rest.contains(e));
                assert(list.contains(e));
                let j = choose|j: int| 0 <= j < list.len() && list[j] == e;
                assert(b.master_of(b.slaves[m0][j]) == Some(m0));
            } else {
                assert(b.master_of(b.slaves[m][i]) == Some(m));
            }
        }
        assert forall|m: i64| !(#[trigger] after.slaves_of(m)).contains(slave) by {
            if m != m0 {
                lemma_listed_under_master_only(b, slave, m);
            }
        }
    }
}

/// Binding keeps the relation consistent. Afterwards the room has the new
/// master and stands at the end of its list, and every other room has the
/// master it had.
pub proof fn lemma_bind(b: Bindings, master: i64, slave: i64)
    requires
        b.consistent(),
    ensures
        b.bind(master, slave).consistent(),
        b.bind(master, slave).master_of(slave) == Some(master),
        b.bind(master, slave).slaves_of(master) == b.unbind(slave).slaves_of(master).push(slave),
        forall|x: i64|
            x != slave ==> #[trigger] b.bind(master, slave).master_of(x) == b.master_of(x),
        forall|m: i64|
            m != master ==> #[trigger] b.bind(master, slave).slaves_of(m) == b.unbind(
                slave,
            ).slaves_of(m),
{
    let u = b.unbind(slave);
    let after = b.bind(master, slave);
    lemma_unbind(b, slave);
    let old_list = u.slaves_of(master);
    let list = old_list.push(slave);
    assert(!old_list.contains(slave));
    assert(after.slaves[master] == list);
    assert(list[list.len() - 1] == slave);
    assert forall|x: i64| #[trigger] after.masters.contains_key(x) implies after.slaves.contains_key(
        after.masters[x],
    ) && after.slaves[after.masters[x]].contains(x) by {
        if x != slave {
            assert(u.masters.contains_key(x));
            let mx = u.masters[x];
            assert(u.slaves[mx].contains(x));
            if mx == master {
                let i = choose|i: int| 0 <= i < old_list.len() && old_list[i] == x;
                assert(list[i] == x);
            }
        }
    }
    assert forall|m: i64| #[trigger] after.slaves.contains_key(m) implies after.slaves[m].len() > 0
        && after.slaves[m].no_duplicates() by {
        if m == master {
            if u.slaves.contains_key(master) {
                assert(u.slaves[master].no_duplicates());
            }
            lemma_push_keeps_distinct(old_list, slave);
        } else {
            assert(u.slaves.contains_key(m));
        }
    }
    assert forall|m: i64, i: int|
        after.slaves.contains_key(m) && 0 <= i < after.slaves[m].len() implies after.master_of(
        #[trigger] after.slaves[m][i],
    ) == Some(m) by {
        let e = after.slaves[m][i];
        if m == master && i == list.len() - 1 {
        } else {
            assert(u.slaves.contains_key(m));
            assert(u.slaves[m][i] == e);
            assert(u.master_of(u.slaves[m][i]) == Some(m));
            assert(u.slaves_of(m).contains(e));
        }
    }
}

/// After any number of bindings, made on a consistent relation, the relation
/// is consistent, each room has the master it was last bound to, and it
/// stands in that master's list and in no other.
pub proof fn lemma_binds_keep_latest(b: Bindings, calls: Seq<(i64, i64)>, slave: i64)
    requires
        b.consistent(),
    ensures
        b.bind_all(calls).consistent(),
        b.bind_all(calls).master_of(slave) == b.latest_master(calls, slave),
        forall|m: i64|
            (#[trigger] b.bind_all(calls).slaves_of(m)).contains(slave) <==> b.latest_master(
                calls,
                slave,
            ) == Some(m),
    decreases calls.len(),
{
    if calls.len() > 0 {
        lemma_binds_keep_latest(b, calls.drop_last(), slave);
        lemma_bind(b.bind_all(calls.drop_last()), calls.last().0, calls.last().1);
    }
    assert forall|m: i64|
        (#[trigger] b.bind_all(calls).slaves_of(m)).contains(slave) <==> b.latest_master(
            calls,
            slave,
        ) == Some(m) by {
        lemma_listed_under_master_only(b.bind_all(calls), slave, m);
    }
}

/// Binding a room to the same master twice in a row leaves it in that
/// master's list once: the second binding changes nothing.
pub proof fn lemma_bind_twice(b: Bindings, master: i64, slave: i64)
    requires
        b.consistent(),
    ensures
        b.bind(master, slave).bind(master, slave).slaves_of(master) == b.bind(
            master,
            slave,
        ).slaves_of(master),
        b.bind(master, slave).bind(master, slave).slaves_of(master).contains(slave),
        b.bind(master, slave).bind(master, slave).slaves_of(master).no_duplicates(),
{
    let once = b.bind(master, slave);
    let twice = once.bind(master, slave);
    lemma_bind(b, master, slave);
    lemma_bind(once, master, slave);
    lemma_listed_under_master_only(twice, slave, master);
    let base = b.unbind(slave).slaves_of(master);
    let list = once.slaves_of(master);
    assert(list == base.push(slave));
    lemma_unbind(b, slave);
    assert(!base.contains(slave));
    lemma_without(base, slave);
    assert(list.drop_last() =~= base);
    assert(without(list, slave) == base);
    assert(once.masters[slave] == master);
    assert(once.unbind(slave).slaves_of(master) =~= base);
}

/// Binding a room that has a master to another master takes it out of the
/// first master's list and puts it into the second's.
pub proof fn lemma_rebind_moves(b: Bindings, first: i64, second: i64, slave: i64)
    requires
        b.consistent(),
        b.master_of(slave) == Some(first),
        first != second,
    ensures
        b.slaves_of(first).contains(slave),
        !b.bind(second, slave).slaves_of(first).contains(slave),
        b.bind(second, slave).slaves_of(second).contains(slave),
        b.bind(second, slave).master_of(slave) == Some(second),
{
    lemma_listed_under_master_only(b, slave, first);
    lemma_bind(b, second, slave);
    lemma_listed_under_master_only(b.bind(second, slave), slave, first);
    lemma_listed_under_master_only(b.bind(second, slave), slave, second);
}

/// Unbinding the only slave of a master leaves the master without slaves and
/// without an entry.
pub proof fn lemma_last_slave_unbound(b: Bindings, master: i64, slave: i64)
    requires
        b.consistent(),
        b.slaves_of(master) == seq![slave],
    ensures
        b.unbind(slave).slaves_of(master) == Seq::<i64>::empty(),
        !b.unbind(slave).slaves.contains_key(master),
{
    assert(seq![slave].len() == 1 && seq![slave][0] == slave);
    assert(b.slaves_of(master).len() == 1);
    assert(b.slaves.contains_key(master));
    assert(b.master_of(b.slaves[master][0]) == Some(master));
    let list = b.slaves[master];
    assert(list.drop_last() =~= Seq::<i64>::empty());
    assert(without(list.drop_last(), slave) =~= Seq::<i64>::empty());
    assert(without(list, slave) =~= Seq::<i64>::empty());
}

} // verus!
