//! The key-value store that holds the bindings: `pickledb::PickleDb`.
//!
//! Nothing in this file is proved. Each item states what the `pickledb` crate
//! does, as its source shows it, in terms of the keys a store holds and of
//! what it gives back when a key is read: once as an integer, once as a list
//! of integers.
//!
//! A store is written to only where it was made to write to its file on
//! request alone. Under any other policy a change is followed by a write to
//! the file, which stops the program where the store's path is no text or
//! the clock stands before 1970.

use crate::store::StoreError;
use vstd::prelude::*;

verus! {

#[verifier::external_type_specification]
#[verifier::external_body]
pub struct ExPickleDb(pickledb::PickleDb);

#[verifier::external_type_specification]
#[verifier::external_body]
pub struct ExPickleError(pickledb::error::Error);

/// The keys that the store holds, whatever is kept under them: those that
/// `PickleDb::exists` finds.
pub uninterp spec fn stored_keys(db: pickledb::PickleDb) -> Set<Seq<char>>;

/// The keys under which `PickleDb::get::<i64>` finds a value, each with that value.
pub uninterp spec fn stored_ids(db: pickledb::PickleDb) -> Map<Seq<char>, i64>;

/// The keys under which `PickleDb::get::<Vec<i64>>` finds a value, each with that value.
pub uninterp spec fn stored_lists(db: pickledb::PickleDb) -> Map<Seq<char>, Seq<i64>>;

/// Whether the store was made with a policy under which a change is never
/// followed by a write to its file: `NeverDump` or `DumpUponRequest`.
pub uninterp spec fn saves_on_request_only(db: pickledb::PickleDb) -> bool;

/// The path of the file that the store was made for, as text.
pub uninterp spec fn file_of(db: pickledb::PickleDb) -> Seq<char>;

/// `PickleDb::new` with the policy `DumpUponRequest` and JSON values: a store
/// for the file at `path` that holds no key and writes only when asked to.
/// The call itself touches no file.
#[verifier::external_body]
pub(crate) fn new_store(path: &str) -> (db: pickledb::PickleDb)
    ensures
        forall|key: Seq<char>| !stored_keys(db).contains(key),
        forall|key: Seq<char>| !stored_ids(db).contains_key(key),
        forall|key: Seq<char>| !stored_lists(db).contains_key(key),
        saves_on_request_only(db),
        file_of(db) == path@,
{
    pickledb::PickleDb::new(
        path,
        pickledb::PickleDbDumpPolicy::DumpUponRequest,
        pickledb::SerializationMethod::Json,
    )
}

/// `PickleDb::get::<i64>`: the value under `key` read as an integer, `None`
/// where the key is absent or its value is no integer.
#[verifier::external_body]
pub(crate) fn read_id(db: &pickledb::PickleDb, key: &str) -> (found: Option<i64>)
    ensures
        found == (if stored_ids(*db).contains_key(key@) {
            Some(stored_ids(*db)[key@])
        } else {
            None
        }),
{
    db.get::<i64>(key)
}

/// `PickleDb::get::<Vec<i64>>`: the value under `key` read as a list of
/// integers, `None` where the key is absent or its value is no such list.
#[verifier::external_body]
pub(crate) fn read_list(db: &pickledb::PickleDb, key: &str) -> (found: Option<Vec<i64>>)
    ensures
        match found {
            Some(list) => stored_lists(*db).contains_key(key@) && list@ == stored_lists(
                *db,
            )[key@],
            None => !stored_lists(*db).contains_key(key@),
        },
{
    db.get::<Vec<i64>>(key)
}

/// `PickleDb::set` with an integer, on a store that writes on request only.
/// The call succeeds. The store then holds `key`, which reads back as `value`
/// and, being kept as a JSON number, as no list; every other key is held and
/// read as before.
#[verifier::external_body]
pub(crate) fn write_id(db: &mut pickledb::PickleDb, key: &str, value: i64) -> (done: Result<
    (),
    pickledb::error::Error,
>)
    requires
        saves_on_request_only(*old(db)),
    ensures
        done is Ok,
        stored_keys(*final(db)) == stored_keys(*old(db)).insert(key@),
        stored_ids(*final(db)) == stored_ids(*old(db)).insert(key@, value),
        stored_lists(*final(db)) == stored_lists(*old(db)).remove(key@),
        saves_on_request_only(*final(db)),
        file_of(*final(db)) == file_of(*old(db)),
{
    db.set(key, &value)
}

/// `PickleDb::set` with a list of integers, on a store that writes on request
/// only. The call succeeds. The store then holds `key`, which reads back as
/// `value` and, being kept as a JSON array, as no integer; every other key is
/// held and read as before.
#[verifier::external_body]
pub(crate) fn write_list(db: &mut pickledb::PickleDb, key: &str, value: &Vec<i64>) -> (done:
    Result<(), pickledb::error::Error>)
    requires
        saves_on_request_only(*old(db)),
    ensures
        done is Ok,
        stored_keys(*final(db)) == stored_keys(*old(db)).insert(key@),
        stored_lists(*final(db)) == stored_lists(*old(db)).insert(key@, value@),
        stored_ids(*final(db)) == stored_ids(*old(db)).remove(key@),
        saves_on_request_only(*final(db)),
        file_of(*final(db)) == file_of(*old(db)),
{
    db.set(key, value)
}

/// `PickleDb::rem`, on a store that writes on request only. The call
/// succeeds. The store then does not hold `key`; every other key is held and
/// read as before. The flag is set where the key was held.
#[verifier::external_body]
pub(crate) fn remove(db: &mut pickledb::PickleDb, key: &str) -> (done: Result<
    bool,
    pickledb::error::Error,
>)
    requires
        saves_on_request_only(*old(db)),
    ensures
        done is Ok,
        done matches Ok(held) ==> held == stored_keys(*old(db)).contains(key@),
        stored_keys(*final(db)) == stored_keys(*old(db)).remove(key@),
        stored_ids(*final(db)) == stored_ids(*old(db)).remove(key@),
        stored_lists(*final(db)) == stored_lists(*old(db)).remove(key@),
        saves_on_request_only(*final(db)),
        file_of(*final(db)) == file_of(*old(db)),
{
    db.rem(key)
}

/// `Error::get_type`: which of the crate's two kinds of failure this one is.
#[verifier::external_body]
pub(crate) fn failure_kind(error: &pickledb::error::Error) -> (kind: StoreError) {
    match error.get_type() {
        pickledb::error::ErrorType::Io => StoreError::Io,
        pickledb::error::ErrorType::Serialization => StoreError::Serialization,
    }
}

} // verus!
