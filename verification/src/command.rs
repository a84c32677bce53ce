//! The text commands by which a room is bound and unbound.

use crate::backing::{file_of, saves_on_request_only};
use crate::decimal::{decimal, parse_decimal, parse_i64, to_decimal};
use crate::store::{bind, bindings, entries, unbind, StoreError};
use pickledb::PickleDb;
use vstd::prelude::*;

verus! {

/// A command, as it was typed.
#[derive(Debug, PartialEq, Eq)]
pub enum Command {
    /// `/getchatid`: tell the room its id.
    GetChatId,
    /// `/unbindfromall`: unbind the room from its master.
    UnbindFromAll,
    /// `/bindtochat`, a space, and what follows it: bind the room to the
    /// master whose id follows.
    BindToChat(String),
}

/// A `Command` as a mathematical value.
pub enum CommandView {
    GetChatId,
    UnbindFromAll,
    BindToChat(Seq<char>),
}

impl View for Command {
    type V = CommandView;

    open spec fn view(&self) -> CommandView {
        match *self {
            Command::GetChatId => CommandView::GetChatId,
            Command::UnbindFromAll => CommandView::UnbindFromAll,
            Command::BindToChat(id) => CommandView::BindToChat(id@),
        }
    }
}

/// What a command came to.
#[derive(Debug, PartialEq, Eq)]
pub enum Answer {
    /// The id of the room.
    ChatId(i64),
    /// The room is bound to no master now.
    Unbound,
    /// The room is bound to this master now.
    Bound(i64),
    /// The room was asked to be bound to itself; nothing was changed.
    SelfBind,
    /// What was given as the master's id is no integer; nothing was changed.
    InvalidChatId(String),
    /// The store could not be written to its file.
    StoreFailed(StoreError),
}

/// An `Answer` as a mathematical value.
pub enum AnswerView {
    ChatId(i64),
    Unbound,
    Bound(i64),
    SelfBind,
    InvalidChatId(Seq<char>),
    StoreFailed(StoreError),
}

impl View for Answer {
    type V = AnswerView;

    open spec fn view(&self) -> AnswerView {
        match *self {
            Answer::ChatId(room) => AnswerView::ChatId(room),
            Answer::Unbound => AnswerView::Unbound,
            Answer::Bound(master) => AnswerView::Bound(master),
            Answer::SelfBind => AnswerView::SelfBind,
            Answer::InvalidChatId(given) => AnswerView::InvalidChatId(given@),
            Answer::StoreFailed(why) => AnswerView::StoreFailed(why),
        }
    }
}

/// The command that `text` is, if it is one. The two commands without an
/// argument are the whole text; the third is everything after its first
/// space, be it an id or not.
pub open spec fn command_of(text: Seq<char>) -> Option<CommandView> {
    if text == "/getchatid"@ {
        Some(CommandView::GetChatId)
    } else if text == "/unbindfromall"@ {
        Some(CommandView::UnbindFromAll)
    } else if "/bindtochat "@.is_prefix_of(text) {
        Some(CommandView::BindToChat(text.skip("/bindtochat "@.len() as int)))
    } else {
        None
    }
}

/// The words in which `answer` is given to the room.
pub open spec fn words_of(answer: AnswerView) -> Seq<char> {
    match answer {
        AnswerView::ChatId(room) => "Chat id is "@ + decimal(room as int),
        AnswerView::Unbound => "Unbinded dom all chats"@,
        AnswerView::Bound(master) => "Binded to "@ + decimal(master as int),
        AnswerView::SelfBind => "Cannot bind chat to istself"@,
        AnswerView::InvalidChatId(given) => "Cannot bid to '"@ + given
            + "'; Chat id is invalid"@,
        AnswerView::StoreFailed(_) => "Db error"@,
    }
}

/// Whether `text` begins with `prefix`.
fn begins_with(text: &str, prefix: &str) -> (found: bool)
    ensures
        found == prefix@.is_prefix_of(text@),
{
    let n = prefix.unicode_len();
    if text.unicode_len() < n {
        return false;
    }
    let mut i: usize = 0;
    while i < n
        invariant
            i <= n,
            n == prefix@.len(),
            n <= text@.len(),
            forall|j: int| 0 <= j < i ==> text@[j] == prefix@[j],
        decreases n - i,
    {
        if text.get_char(i) != prefix.get_char(i) {
            assert(text@.subrange(0, n as int)[i as int] != prefix@[i as int]);
            return false;
        }
        i += 1;
    }
    assert(text@.subrange(0, n as int) =~= prefix@);
    true
}

/// Whether `text` is `whole`, no more and no less.
fn is_exactly(text: &str, whole: &str) -> (same: bool)
    ensures
        same == (text@ == whole@),
{
    if text.unicode_len() != whole.unicode_len() {
        return false;
    }
    let found = begins_with(text, whole);
    assert(text@.subrange(0, whole@.len() as int) =~= text@);
    found
}

/// Reads `text` as a command.
pub fn parse_command(text: &str) -> (command: Option<Command>)
    ensures
        match command {
            Some(c) => command_of(text@) == Some(c@),
            None => command_of(text@) is None,
        },
{
    if is_exactly(text, "/getchatid") {
        Some(Command::GetChatId)
    } else if is_exactly(text, "/unbindfromall") {
        Some(Command::UnbindFromAll)
    } else if begins_with(text, "/bindtochat ") {
        let from = "/bindtochat ".unicode_len();
        let id = text.substring_char(from, text.unicode_len());
        assert(id@ =~= text@.skip(from as int));
        Some(Command::BindToChat(String::from_str(id)))
    } else {
        None
    }
}

/// Whether `answer` and the store `after` are what carrying out `command`
/// for the room `room` makes of the store `before`.
///
/// Asking for the id changes nothing. Unbinding unbinds the room, and leaves
/// the store as it is where the room has no master. Binding reads the
/// master's id: where that is no integer, or is the room itself, nothing is
/// changed and the answer says why; else the room is bound to it.
pub open spec fn carried_out(
    before: PickleDb,
    after: PickleDb,
    room: i64,
    command: CommandView,
    answer: AnswerView,
) -> bool {
    match command {
        CommandView::GetChatId => answer == AnswerView::ChatId(room) && after == before,
        CommandView::UnbindFromAll => {
            &&& answer == AnswerView::Unbound
            &&& entries(after) == entries(before).unbind(room)
            &&& bindings(after) == bindings(before).unbind(room)
            &&& bindings(before).master_of(room) is None ==> after == before
        },
        CommandView::BindToChat(given) => match parse_decimal(given) {
            None => answer == AnswerView::InvalidChatId(given) && after == before,
            Some(master) => if master == room {
                answer == AnswerView::SelfBind && after == before
            } else {
                &&& answer == AnswerView::Bound(master)
                &&& entries(after) == entries(before).bind(master, room)
                &&& bindings(after) == bindings(before).bind(master, room)
            },
        },
    }
}

/// Carries out `command` for the room `room`, on a store that writes on
/// request only. Consistent bindings stay consistent.
pub fn run_command(db: &mut PickleDb, room: i64, command: &Command) -> (answer: Answer)
    requires
        saves_on_request_only(*old(db)),
    ensures
        carried_out(*old(db), *final(db), room, command@, answer@),
        bindings(*old(db)).consistent() ==> bindings(*final(db)).consistent(),
        saves_on_request_only(*final(db)),
        file_of(*final(db)) == file_of(*old(db)),
{
    match command {
        Command::GetChatId => Answer::ChatId(room),
        Command::UnbindFromAll => match unbind(db, room) {
            Ok(_) => Answer::Unbound,
            Err(why) => Answer::StoreFailed(why),
        },
        Command::BindToChat(given) => match parse_i64(given.as_str()) {
            None => Answer::InvalidChatId(given.clone()),
            Some(master) => {
                if master == room {
                    Answer::SelfBind
                } else {
                    match bind(db, master, room) {
                        Ok(_) => Answer::Bound(master),
                        Err(why) => Answer::StoreFailed(why),
                    }
                }
            },
        },
    }
}

/// Reads `text` as a command and carries it out for the room `room`, on a
/// store that writes on request only. Where `text` is no command, the result
/// is `None` and nothing is changed.
pub fn handle_text(db: &mut PickleDb, room: i64, text: &str) -> (answer: Option<Answer>)
    requires
        saves_on_request_only(*old(db)),
    ensures
        match command_of(text@) {
            Some(command) => answer is Some && carried_out(
                *old(db),
                *final(db),
                room,
                command,
                answer->0@,
            ),
            None => answer is None && *final(db) == *old(db),
        },
        bindings(*old(db)).consistent() ==> bindings(*final(db)).consistent(),
        saves_on_request_only(*final(db)),
        file_of(*final(db)) == file_of(*old(db)),
{
    match parse_command(text) {
        Some(command) => Some(run_command(db, room, &command)),
        None => None,
    }
}

/// The words in which `answer` is given to the room.
pub fn answer_text(answer: &Answer) -> (words: String)
    ensures
        words@ == words_of(answer@),
{
    match answer {
        Answer::ChatId(room) => String::from_str("Chat id is ").concat(to_decimal(*room).as_str()),
        Answer::Unbound => String::from_str("Unbinded dom all chats"),
        Answer::Bound(master) => String::from_str("Binded to ").concat(
            to_decimal(*master).as_str(),
        ),
        Answer::SelfBind => String::from_str("Cannot bind chat to istself"),
        Answer::InvalidChatId(given) => String::from_str("Cannot bid to '").concat(
            given.as_str(),
        ).concat("'; Chat id is invalid"),
        Answer::StoreFailed(_) => String::from_str("Db error"),
    }
}

} // verus!
