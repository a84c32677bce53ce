use chat_mirror::store::{bind, fresh_store_after, get_master, get_slaves, unbind, StoreError};
use pickledb::{PickleDb, PickleDbDumpPolicy, SerializationMethod};

fn memory_store() -> PickleDb {
    PickleDb::new("unused.db", PickleDbDumpPolicy::NeverDump, SerializationMethod::Json)
}

#[test]
fn empty_store_has_no_bindings() {
    let db = memory_store();
    assert_eq!(get_master(&db, 200), None);
    assert_eq!(get_slaves(&db, 100), Vec::<i64>::new());
}

#[test]
fn bind_then_query_both_sides() {
    let mut db = memory_store();
    assert_eq!(bind(&mut db, 100, 200), Ok(()));
    assert_eq!(get_master(&db, 200), Some(100));
    assert_eq!(get_slaves(&db, 100), vec![200]);
    assert_eq!(get_master(&db, 100), None);
    assert_eq!(get_slaves(&db, 200), Vec::<i64>::new());
}

#[test]
fn slaves_come_in_binding_order_and_unbind_keeps_the_rest() {
    let mut db = memory_store();
    bind(&mut db, 100, 200).unwrap();
    bind(&mut db, 100, 300).unwrap();
    assert_eq!(get_slaves(&db, 100), vec![200, 300]);
    unbind(&mut db, 200).unwrap();
    assert_eq!(get_slaves(&db, 100), vec![300]);
    assert_eq!(get_master(&db, 200), None);
    assert_eq!(get_master(&db, 300), Some(100));
}

#[test]
fn get_master_gives_the_latest_of_many_binds() {
    let mut db = memory_store();
    let calls: Vec<(i64, i64)> =
        vec![(1, 10), (2, 11), (3, 10), (1, 12), (2, 10), (3, 11), (2, 12), (1, 10)];
    let mut latest: Vec<(i64, i64)> = Vec::new();
    for (m, s) in calls {
        bind(&mut db, m, s).unwrap();
        latest.retain(|(_, x)| *x != s);
        latest.push((m, s));
        for (lm, ls) in latest.iter() {
            assert_eq!(get_master(&db, *ls), Some(*lm));
            for master in 1..=3 {
                let listed = get_slaves(&db, master).iter().filter(|x| **x == *ls).count();
                assert_eq!(listed, if master == *lm { 1 } else { 0 });
            }
        }
    }
    assert_eq!(get_master(&db, 10), Some(1));
    assert_eq!(get_master(&db, 11), Some(3));
    assert_eq!(get_master(&db, 12), Some(2));
    assert_eq!(get_slaves(&db, 1), vec![10]);
    assert_eq!(get_slaves(&db, 2), vec![12]);
    assert_eq!(get_slaves(&db, 3), vec![11]);
}

#[test]
fn unbind_leaves_no_master_and_no_list_entry() {
    let mut db = memory_store();
    bind(&mut db, 1, 10).unwrap();
    bind(&mut db, 1, 11).unwrap();
    bind(&mut db, 2, 12).unwrap();
    unbind(&mut db, 10).unwrap();
    assert_eq!(get_master(&db, 10), None);
    for master in [1, 2, 10, 11, 12] {
        assert!(!get_slaves(&db, master).contains(&10));
    }
    assert_eq!(get_slaves(&db, 1), vec![11]);
    assert_eq!(get_slaves(&db, 2), vec![12]);
}

#[test]
fn unbind_of_an_unbound_room_changes_nothing() {
    let mut db = memory_store();
    bind(&mut db, 1, 10).unwrap();
    assert_eq!(unbind(&mut db, 99), Ok(()));
    assert_eq!(unbind(&mut db, 1), Ok(()));
    assert_eq!(get_master(&db, 10), Some(1));
    assert_eq!(get_slaves(&db, 1), vec![10]);
    assert_eq!(db.total_keys(), 2);
}

#[test]
fn unbind_twice_is_as_good_as_once() {
    let mut db = memory_store();
    bind(&mut db, 1, 10).unwrap();
    bind(&mut db, 1, 11).unwrap();
    assert_eq!(unbind(&mut db, 10), Ok(()));
    assert_eq!(unbind(&mut db, 10), Ok(()));
    assert_eq!(get_slaves(&db, 1), vec![11]);
}

#[test]
fn bind_twice_leaves_no_duplicate() {
    let mut db = memory_store();
    bind(&mut db, 100, 200).unwrap();
    bind(&mut db, 100, 200).unwrap();
    assert_eq!(get_slaves(&db, 100), vec![200]);
    bind(&mut db, 100, 300).unwrap();
    bind(&mut db, 100, 200).unwrap();
    bind(&mut db, 100, 200).unwrap();
    assert_eq!(get_slaves(&db, 100), vec![300, 200]);
}

#[test]
fn rebind_moves_the_slave() {
    let mut db = memory_store();
    bind(&mut db, 1, 10).unwrap();
    bind(&mut db, 1, 11).unwrap();
    bind(&mut db, 2, 10).unwrap();
    assert_eq!(get_slaves(&db, 1), vec![11]);
    assert_eq!(get_slaves(&db, 2), vec![10]);
    assert_eq!(get_master(&db, 10), Some(2));
}

#[test]
fn last_slave_unbound_drops_the_master_entry() {
    let mut db = memory_store();
    bind(&mut db, 100, 200).unwrap();
    assert!(db.exists("m100"));
    unbind(&mut db, 200).unwrap();
    assert_eq!(get_slaves(&db, 100), Vec::<i64>::new());
    assert!(!db.exists("m100"));
    assert!(!db.exists("s200"));
    assert_eq!(db.get_all(), Vec::<String>::new());
    assert_eq!(db.total_keys(), 0);
}

#[test]
fn rebinding_the_last_slave_drops_the_old_master_entry() {
    let mut db = memory_store();
    bind(&mut db, 1, 10).unwrap();
    bind(&mut db, 2, 10).unwrap();
    assert!(!db.exists("m1"));
    assert_eq!(db.get::<Vec<i64>>("m2"), Some(vec![10]));
}

#[test]
fn entries_are_kept_under_s_and_m_keys() {
    let mut db = memory_store();
    bind(&mut db, 100, 200).unwrap();
    bind(&mut db, 100, -300).unwrap();
    assert_eq!(db.get::<i64>("s200"), Some(100));
    assert_eq!(db.get::<i64>("s-300"), Some(100));
    assert_eq!(db.get::<Vec<i64>>("m100"), Some(vec![200, -300]));
    assert_eq!(db.total_keys(), 3);
}

#[test]
fn entries_written_by_hand_are_read() {
    let mut db = memory_store();
    db.set("s7", &-1_i64).unwrap();
    db.set("m-1", &vec![7_i64, 8]).unwrap();
    assert_eq!(get_master(&db, 7), Some(-1));
    assert_eq!(get_slaves(&db, -1), vec![7, 8]);
    assert_eq!(get_master(&db, 8), None);
}

#[test]
fn a_value_of_the_wrong_kind_counts_as_absent() {
    let mut db = memory_store();
    db.set("s7", &vec![1_i64]).unwrap();
    db.set("m7", &5_i64).unwrap();
    assert_eq!(get_master(&db, 7), None);
    assert_eq!(get_slaves(&db, 7), Vec::<i64>::new());
}

#[test]
fn extreme_ids_are_told_apart() {
    let mut db = memory_store();
    bind(&mut db, i64::MIN, i64::MAX).unwrap();
    bind(&mut db, i64::MAX, i64::MIN).unwrap();
    bind(&mut db, 0, -1).unwrap();
    bind(&mut db, 0, 1).unwrap();
    assert_eq!(get_master(&db, i64::MAX), Some(i64::MIN));
    assert_eq!(get_master(&db, i64::MIN), Some(i64::MAX));
    assert_eq!(get_slaves(&db, i64::MIN), vec![i64::MAX]);
    assert_eq!(get_slaves(&db, i64::MAX), vec![i64::MIN]);
    assert_eq!(get_slaves(&db, 0), vec![-1, 1]);
    assert!(db.exists("s-9223372036854775808"));
    assert!(db.exists("m9223372036854775807"));
}

#[test]
fn a_room_bound_to_itself_is_kept_as_any_other() {
    let mut db = memory_store();
    bind(&mut db, 5, 5).unwrap();
    assert_eq!(get_master(&db, 5), Some(5));
    assert_eq!(get_slaves(&db, 5), vec![5]);
    unbind(&mut db, 5).unwrap();
    assert_eq!(db.total_keys(), 0);
}

#[test]
fn bind_mends_a_list_that_names_the_slave_already() {
    let mut db = memory_store();
    db.set("m1", &vec![10_i64, 11]).unwrap();
    bind(&mut db, 1, 10).unwrap();
    assert_eq!(get_slaves(&db, 1), vec![10, 11]);
    assert_eq!(get_master(&db, 10), Some(1));
}

#[test]
fn unbind_strikes_every_occurrence() {
    let mut db = memory_store();
    db.set("s10", &1_i64).unwrap();
    db.set("m1", &vec![10_i64, 11, 10]).unwrap();
    unbind(&mut db, 10).unwrap();
    assert_eq!(get_slaves(&db, 1), vec![11]);
}

#[test]
fn unbind_without_a_list_forgets_the_master() {
    let mut db = memory_store();
    db.set("s10", &1_i64).unwrap();
    assert_eq!(unbind(&mut db, 10), Ok(()));
    assert_eq!(get_master(&db, 10), None);
    assert_eq!(db.total_keys(), 0);
}

#[test]
fn a_missing_file_gives_a_fresh_store() {
    let fresh = fresh_store_after(StoreError::Io, false, "unused.db");
    let mut db = fresh.expect("a store");
    assert_eq!(db.total_keys(), 0);
    assert_eq!(get_master(&db, 1), None);
    assert_eq!(bind(&mut db, 1, 2), Ok(()));
    assert_eq!(get_slaves(&db, 1), vec![2]);
}

#[test]
fn a_file_that_is_there_and_cannot_be_read_gives_no_store() {
    assert!(fresh_store_after(StoreError::Io, true, "unused.db").is_none());
}

#[test]
fn a_file_that_cannot_be_decoded_gives_no_store() {
    assert!(fresh_store_after(StoreError::Serialization, true, "unused.db").is_none());
    assert!(fresh_store_after(StoreError::Serialization, false, "unused.db").is_none());
}

#[test]
fn rebinding_leaves_exactly_the_keys_of_the_new_binding() {
    let mut db = memory_store();
    assert_eq!(bind(&mut db, 100, 200), Ok(()));
    assert_eq!(bind(&mut db, 300, 200), Ok(()));
    assert_eq!(get_master(&db, 200), Some(300));
    assert_eq!(get_slaves(&db, 300), vec![200]);
    assert_eq!(get_slaves(&db, 100), Vec::<i64>::new());
    let mut keys = db.get_all();
    keys.sort();
    assert_eq!(keys, vec!["m300", "s200"]);
}

#[test]
fn unbinding_what_was_bound_leaves_no_key() {
    let mut db = memory_store();
    assert_eq!(bind(&mut db, 100, 200), Ok(()));
    assert_eq!(unbind(&mut db, 200), Ok(()));
    assert_eq!(db.total_keys(), 0);
    assert_eq!(db.get_all(), Vec::<String>::new());
    assert_eq!(get_slaves(&db, 100), Vec::<i64>::new());
}

#[test]
fn unbind_undoes_the_bind_of_a_room_without_a_master() {
    let mut db = memory_store();
    bind(&mut db, 100, 300).unwrap();
    bind(&mut db, 100, 400).unwrap();
    bind(&mut db, 500, 600).unwrap();
    let mut before = db.get_all();
    before.sort();
    for master in [100, 700] {
        assert_eq!(bind(&mut db, master, 200), Ok(()));
        assert_eq!(unbind(&mut db, 200), Ok(()));
        let mut after = db.get_all();
        after.sort();
        assert_eq!(after, before);
        assert_eq!(get_slaves(&db, 100), vec![300, 400]);
        assert_eq!(get_slaves(&db, 500), vec![600]);
        assert_eq!(get_slaves(&db, 700), Vec::<i64>::new());
        assert_eq!(get_master(&db, 300), Some(100));
        assert_eq!(get_master(&db, 400), Some(100));
        assert_eq!(get_master(&db, 600), Some(500));
        assert_eq!(get_master(&db, 200), None);
    }
}

#[test]
fn keys_that_are_no_bindings_are_left_alone() {
    let mut db = memory_store();
    db.set("note", &String::from("kept")).unwrap();
    db.set("x200", &7_i64).unwrap();
    db.set("m", &vec![1_i64]).unwrap();
    bind(&mut db, 100, 200).unwrap();
    bind(&mut db, 300, 200).unwrap();
    unbind(&mut db, 200).unwrap();
    assert_eq!(db.get::<String>("note"), Some(String::from("kept")));
    assert_eq!(db.get::<i64>("x200"), Some(7));
    assert_eq!(db.get::<Vec<i64>>("m"), Some(vec![1]));
    assert_eq!(db.total_keys(), 3);
}

#[test]
fn a_value_of_another_kind_under_a_binding_key_is_written_over() {
    let mut db = memory_store();
    db.set("s200", &vec![9_i64]).unwrap();
    db.set("m100", &5_i64).unwrap();
    bind(&mut db, 100, 200).unwrap();
    assert_eq!(db.get::<Vec<i64>>("s200"), None);
    assert_eq!(db.get::<i64>("m100"), None);
    assert_eq!(get_master(&db, 200), Some(100));
    assert_eq!(get_slaves(&db, 100), vec![200]);
    assert_eq!(db.total_keys(), 2);
}

#[test]
fn bindings_survive_a_dump_and_a_load() {
    let path = "/tmp/chat_mirror_bindings_survive.db";
    let mut db = fresh_store_after(StoreError::Io, false, path).expect("a store");
    bind(&mut db, 100, 200).unwrap();
    bind(&mut db, 100, 300).unwrap();
    bind(&mut db, -7, 400).unwrap();
    if db.dump().is_err() {
        return;
    }
    let loaded =
        PickleDb::load(path, PickleDbDumpPolicy::DumpUponRequest, SerializationMethod::Json);
    let loaded = match loaded {
        Ok(db) => db,
        Err(_) => panic!("the file that was written cannot be loaded"),
    };
    assert_eq!(get_slaves(&loaded, 100), vec![200, 300]);
    assert_eq!(get_slaves(&loaded, -7), vec![400]);
    assert_eq!(get_master(&loaded, 300), Some(100));
    assert_eq!(get_master(&loaded, 400), Some(-7));
}
