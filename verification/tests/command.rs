use chat_mirror::command::{answer_text, handle_text, parse_command, run_command, Answer, Command};
use chat_mirror::store::{bind, get_master, get_slaves, StoreError};
use pickledb::{PickleDb, PickleDbDumpPolicy, SerializationMethod};

fn memory_store() -> PickleDb {
    PickleDb::new("unused.db", PickleDbDumpPolicy::NeverDump, SerializationMethod::Json)
}

fn keys(db: &PickleDb) -> Vec<String> {
    let mut all = db.get_all();
    all.sort();
    all
}

#[test]
fn commands_are_read_as_typed() {
    assert_eq!(parse_command("/getchatid"), Some(Command::GetChatId));
    assert_eq!(parse_command("/unbindfromall"), Some(Command::UnbindFromAll));
    assert_eq!(parse_command("/bindtochat 100"), Some(Command::BindToChat(String::from("100"))));
    assert_eq!(parse_command("/bindtochat -100"), Some(Command::BindToChat(String::from("-100"))));
    assert_eq!(parse_command("/bindtochat "), Some(Command::BindToChat(String::new())));
    assert_eq!(parse_command("/bindtochat  7"), Some(Command::BindToChat(String::from(" 7"))));
    assert_eq!(
        parse_command("/bindtochat один два"),
        Some(Command::BindToChat(String::from("один два")))
    );
}

#[test]
fn other_texts_are_no_commands() {
    for text in [
        "",
        "hello",
        "/getchatid ",
        " /getchatid",
        "/getchatid@bot",
        "/GETCHATID",
        "/unbindfromall now",
        "/unbindfromal",
        "/bindtochat",
        "/bindtochat100",
        "/bindtocha 100",
        "x/bindtochat 100",
        "/привет",
    ] {
        assert_eq!(parse_command(text), None);
    }
}

#[test]
fn other_texts_change_nothing() {
    let mut db = memory_store();
    bind(&mut db, 100, 200).unwrap();
    assert_eq!(handle_text(&mut db, 200, "/bind 5"), None);
    assert_eq!(handle_text(&mut db, 200, "/unbindfromall!"), None);
    assert_eq!(get_master(&db, 200), Some(100));
    assert_eq!(keys(&db), vec!["m100", "s200"]);
}

#[test]
fn getchatid_tells_the_id_and_changes_nothing() {
    let mut db = memory_store();
    bind(&mut db, 100, 200).unwrap();
    assert_eq!(handle_text(&mut db, 200, "/getchatid"), Some(Answer::ChatId(200)));
    assert_eq!(handle_text(&mut db, -5, "/getchatid"), Some(Answer::ChatId(-5)));
    assert_eq!(keys(&db), vec!["m100", "s200"]);
    assert_eq!(get_slaves(&db, 100), vec![200]);
}

#[test]
fn unbindfromall_unbinds_the_room() {
    let mut db = memory_store();
    bind(&mut db, 100, 200).unwrap();
    bind(&mut db, 100, 300).unwrap();
    assert_eq!(handle_text(&mut db, 200, "/unbindfromall"), Some(Answer::Unbound));
    assert_eq!(get_master(&db, 200), None);
    assert_eq!(get_slaves(&db, 100), vec![300]);
    assert_eq!(handle_text(&mut db, 200, "/unbindfromall"), Some(Answer::Unbound));
    assert_eq!(get_slaves(&db, 100), vec![300]);
}

#[test]
fn bindtochat_binds_the_room() {
    let mut db = memory_store();
    assert_eq!(handle_text(&mut db, 200, "/bindtochat 100"), Some(Answer::Bound(100)));
    assert_eq!(handle_text(&mut db, 300, "/bindtochat +100"), Some(Answer::Bound(100)));
    assert_eq!(handle_text(&mut db, 400, "/bindtochat -0100"), Some(Answer::Bound(-100)));
    assert_eq!(get_slaves(&db, 100), vec![200, 300]);
    assert_eq!(get_master(&db, 400), Some(-100));
    assert_eq!(handle_text(&mut db, 200, "/bindtochat 500"), Some(Answer::Bound(500)));
    assert_eq!(get_slaves(&db, 100), vec![300]);
    assert_eq!(get_slaves(&db, 500), vec![200]);
}

#[test]
fn bindtochat_with_no_integer_changes_nothing() {
    let mut db = memory_store();
    bind(&mut db, 100, 200).unwrap();
    for given in [
        "",
        "abc",
        "12a",
        " 100",
        "100 ",
        "1.5",
        "-",
        "+",
        "9223372036854775808",
        "-9223372036854775809",
        "100 200",
        "１００",
    ] {
        let text = format!("/bindtochat {}", given);
        assert_eq!(
            handle_text(&mut db, 200, &text),
            Some(Answer::InvalidChatId(String::from(given)))
        );
        assert_eq!(get_master(&db, 200), Some(100));
        assert_eq!(get_slaves(&db, 100), vec![200]);
        assert_eq!(keys(&db), vec!["m100", "s200"]);
    }
}

#[test]
fn bindtochat_to_the_room_itself_changes_nothing() {
    let mut db = memory_store();
    bind(&mut db, 100, 200).unwrap();
    assert_eq!(handle_text(&mut db, 200, "/bindtochat 200"), Some(Answer::SelfBind));
    assert_eq!(handle_text(&mut db, 200, "/bindtochat +200"), Some(Answer::SelfBind));
    assert_eq!(handle_text(&mut db, 200, "/bindtochat 000200"), Some(Answer::SelfBind));
    assert_eq!(handle_text(&mut db, -7, "/bindtochat -7"), Some(Answer::SelfBind));
    assert_eq!(get_master(&db, 200), Some(100));
    assert_eq!(get_master(&db, -7), None);
    assert_eq!(get_slaves(&db, 200), Vec::<i64>::new());
    assert_eq!(keys(&db), vec!["m100", "s200"]);
}

#[test]
fn run_command_does_what_handle_text_does() {
    let mut db = memory_store();
    assert_eq!(run_command(&mut db, 200, &Command::GetChatId), Answer::ChatId(200));
    let to_100 = Command::BindToChat(String::from("100"));
    assert_eq!(run_command(&mut db, 200, &to_100), Answer::Bound(100));
    assert_eq!(run_command(&mut db, 100, &to_100), Answer::SelfBind);
    let to_nowhere = Command::BindToChat(String::from("nowhere"));
    assert_eq!(
        run_command(&mut db, 200, &to_nowhere),
        Answer::InvalidChatId(String::from("nowhere"))
    );
    assert_eq!(get_master(&db, 200), Some(100));
    assert_eq!(run_command(&mut db, 200, &Command::UnbindFromAll), Answer::Unbound);
    assert_eq!(db.total_keys(), 0);
}

#[test]
fn unbindfromall_without_a_master_changes_nothing() {
    let mut db = memory_store();
    bind(&mut db, 100, 200).unwrap();
    db.set("note", &String::from("kept")).unwrap();
    assert_eq!(handle_text(&mut db, 100, "/unbindfromall"), Some(Answer::Unbound));
    assert_eq!(handle_text(&mut db, 999, "/unbindfromall"), Some(Answer::Unbound));
    assert_eq!(keys(&db), vec!["m100", "note", "s200"]);
    assert_eq!(get_master(&db, 200), Some(100));
    assert_eq!(get_slaves(&db, 100), vec![200]);
}

#[test]
fn answers_are_given_in_these_words() {
    assert_eq!(answer_text(&Answer::ChatId(-1001234567890)), "Chat id is -1001234567890");
    assert_eq!(answer_text(&Answer::ChatId(0)), "Chat id is 0");
    assert_eq!(answer_text(&Answer::Unbound), "Unbinded dom all chats");
    assert_eq!(answer_text(&Answer::Bound(100)), "Binded to 100");
    assert_eq!(answer_text(&Answer::Bound(i64::MIN)), "Binded to -9223372036854775808");
    assert_eq!(answer_text(&Answer::SelfBind), "Cannot bind chat to istself");
    assert_eq!(
        answer_text(&Answer::InvalidChatId(String::from("abc"))),
        "Cannot bid to 'abc'; Chat id is invalid"
    );
    assert_eq!(
        answer_text(&Answer::InvalidChatId(String::new())),
        "Cannot bid to ''; Chat id is invalid"
    );
    assert_eq!(answer_text(&Answer::StoreFailed(StoreError::Io)), "Db error");
    assert_eq!(answer_text(&Answer::StoreFailed(StoreError::Serialization)), "Db error");
}
