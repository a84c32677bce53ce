//! The binding store: which room is bound to which master, kept in a
//! `PickleDb` under one key per slave room and one key per master room.
//!
//! The functions here change the store in memory only. Writing it to its
//! file is left to the caller, who does so after each change. The store is
//! one that writes to its file on request alone.

use crate::backing::{
    failure_kind, file_of, new_store, read_id, read_list, remove, saves_on_request_only,
    stored_ids, stored_keys, stored_lists, write_id, write_list,
};
use crate::entries::{lemma_bind_reads, lemma_unbind_reads, Entries};
use crate::keys::{lemma_keys, master_key_for, slave_key_for};
use crate::relation::{lemma_bind, lemma_unbind, with_added, without, Bindings};
use pickledb::PickleDb;
use vstd::prelude::*;

verus! {

/// Why the store could not be read or written.
#[derive(Clone, Copy, Debug, PartialEq, Eq, Structural)]
pub enum StoreError {
    /// The file could not be read or written.
    Io,
    /// A value could not be encoded, or the file's content not decoded.
    Serialization,
}

/// What `db` holds, key by key.
pub open spec fn entries(db: PickleDb) -> Entries {
    Entries { keys: stored_keys(db), ids: stored_ids(db), lists: stored_lists(db) }
}

/// The bindings that `db` holds: the integers under its slave keys and the
/// lists under its master keys.
pub open spec fn bindings(db: PickleDb) -> Bindings {
    entries(db).bindings()
}

/// The master that `s` is bound to, if any. The store is not changed.
pub fn get_master(db: &PickleDb, s: i64) -> (master: Option<i64>)
    ensures
        master == bindings(*db).master_of(s),
{
    let key = slave_key_for(s);
    read_id(db, key.as_str())
}

/// The slaves of `m` in the order in which they were bound; empty where `m`
/// has none. The store is not changed.
pub fn get_slaves(db: &PickleDb, m: i64) -> (slaves: Vec<i64>)
    ensures
        slaves@ == bindings(*db).slaves_of(m),
{
    let key = master_key_for(m);
    match read_list(db, key.as_str()) {
        Some(list) => list,
        None => Vec::new(),
    }
}

/// `list` without `room`, in a new vector.
pub(crate) fn strike_from(list: &Vec<i64>, room: i64) -> (rest: Vec<i64>)
    ensures
        rest@ == without(list@, room),
{
    let mut rest: Vec<i64> = Vec::new();
    let mut i: usize = 0;
    while i < list.len()
        invariant
            i <= list.len(),
            rest@ == without(list@.take(i as int), room),
        decreases list.len() - i,
    {
        assert(list@.take(i + 1).drop_last() =~= list@.take(i as int));
        if list[i] != room {
            rest.push(list[i]);
        }
        i += 1;
    }
    assert(list@.take(list.len() as int) =~= list@);
    rest
}

/// Whether `room` is in `list`.
fn holds(list: &Vec<i64>, room: i64) -> (found: bool)
    ensures
        found == list@.contains(room),
{
    let mut i: usize = 0;
    while i < list.len()
        invariant
            i <= list.len(),
            forall|j: int| 0 <= j < i ==> list@[j] != room,
        decreases list.len() - i,
    {
        if list[i] == room {
            return true;
        }
        i += 1;
    }
    false
}

/// Removes the binding of `s`, if it has one: its master is forgotten, and
/// `s` is struck from that master's list, which is dropped when it becomes
/// empty. Every other key of the store is left as it is, and a room without
/// a master leaves the whole store as it is.
pub fn unbind(db: &mut PickleDb, s: i64) -> (done: Result<(), StoreError>)
    requires
        saves_on_request_only(*old(db)),
    ensures
        done is Ok,
        entries(*final(db)) == entries(*old(db)).unbind(s),
        bindings(*final(db)) == bindings(*old(db)).unbind(s),
        bindings(*old(db)).master_of(s) is None ==> *final(db) == *old(db),
        bindings(*old(db)).consistent() ==> bindings(*final(db)).consistent(),
        saves_on_request_only(*final(db)),
        file_of(*final(db)) == file_of(*old(db)),
{
    proof {
        lemma_keys();
        lemma_unbind_reads(entries(*db), s);
        if bindings(*db).consistent() {
            lemma_unbind(bindings(*db), s);
        }
    }
    let skey = slave_key_for(s);
    let m = match read_id(db, skey.as_str()) {
        Some(m) => m,
        None => {
            return Ok(());
        },
    };
    match remove(db, skey.as_str()) {
        Ok(_) => {},
        Err(e) => {
            return Err(failure_kind(&e));
        },
    }
    let mkey = master_key_for(m);
    let list = match read_list(db, mkey.as_str()) {
        Some(list) => list,
        None => {
            return Ok(());
        },
    };
    let rest = strike_from(&list, s);
    let changed = if rest.len() > 0 {
        write_list(db, mkey.as_str(), &rest)
    } else {
        match remove(db, mkey.as_str()) {
            Ok(_) => Ok(()),
            Err(e) => Err(e),
        }
    };
    match changed {
        Ok(_) => Ok(()),
        Err(e) => Err(failure_kind(&e)),
    }
}

/// Binds `s` to `m`. Whatever `s` was bound to before is unbound first, so
/// that a room never has two masters; then `m` is recorded as the master of
/// `s`, and `s` is put at the end of the list of `m` unless it stands there
/// already. Every other key of the store is left as it is. That `m` and `s`
/// differ is for the caller to see to.
pub fn bind(db: &mut PickleDb, m: i64, s: i64) -> (done: Result<(), StoreError>)
    requires
        saves_on_request_only(*old(db)),
    ensures
        done is Ok,
        entries(*final(db)) == entries(*old(db)).bind(m, s),
        bindings(*final(db)) == bindings(*old(db)).bind(m, s),
        bindings(*old(db)).consistent() ==> bindings(*final(db)).consistent(),
        saves_on_request_only(*final(db)),
        file_of(*final(db)) == file_of(*old(db)),
{
    proof {
        lemma_keys();
        lemma_bind_reads(entries(*db), m, s);
        if bindings(*db).consistent() {
            lemma_bind(bindings(*db), m, s);
        }
    }
    match unbind(db, s) {
        Ok(_) => {},
        Err(e) => {
            return Err(e);
        },
    }
    let mkey = master_key_for(m);
    let slaves = match read_list(db, mkey.as_str()) {
        Some(mut list) => {
            if !holds(&list, s) {
                list.push(s);
            }
            list
        },
        None => {
            let mut list: Vec<i64> = Vec::new();
            list.push(s);
            list
        },
    };
    assert(slaves@ =~= with_added(bindings(*db).slaves_of(m), s));
    let skey = slave_key_for(s);
    match write_id(db, skey.as_str(), m) {
        Ok(_) => {},
        Err(e) => {
            return Err(failure_kind(&e));
        },
    }
    match write_list(db, mkey.as_str(), &slaves) {
        Ok(_) => Ok(()),
        Err(e) => Err(failure_kind(&e)),
    }
}

/// What to do at start when the store's file could not be loaded. Where the
/// file could not be read because there is none, a store for the file at
/// `path` that holds nothing and writes on request only. Where the file is
/// there, nothing, whatever went wrong: a file that is there and cannot be
/// read or decoded must not be replaced.
pub fn fresh_store_after(failure: StoreError, file_is_there: bool, path: &str) -> (fresh: Option<
    PickleDb,
>)
    ensures
        fresh is Some <==> failure == StoreError::Io && !file_is_there,
        fresh matches Some(db) ==> entries(db) == Entries::empty() && bindings(db)
            == Bindings::empty() && saves_on_request_only(db) && file_of(db) == path@,
{
    match failure {
        StoreError::Io => {
            if file_is_there {
                None
            } else {
                let db = new_store(path);
                assert(entries(db).keys =~= Entries::empty().keys);
                assert(entries(db).ids =~= Entries::empty().ids);
                assert(entries(db).lists =~= Entries::empty().lists);
                assert(bindings(db).masters =~= Bindings::empty().masters);
                assert(bindings(db).slaves =~= Bindings::empty().slaves);
                Some(db)
            }
        },
        StoreError::Serialization => None,
    }
}

} // verus!
