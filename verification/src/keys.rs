//! The keys of the store. A slave room's master is kept under `s` followed by
//! the room's id in decimal, a master room's list of slaves under `m`
//! followed by the room's id in decimal.

use crate::decimal::{decimal, lemma_decimal_injective, to_decimal};
use vstd::prelude::*;

verus! {

/// The key made of `letter` and the id of `room` in decimal.
pub open spec fn lettered_key(letter: char, room: i64) -> Seq<char> {
    seq![letter] + decimal(room as int)
}

/// The key under which the master of the slave room `room` is kept.
pub open spec fn slave_key(room: i64) -> Seq<char> {
    lettered_key('s', room)
}

/// The key under which the slaves of the master room `room` are kept.
pub open spec fn master_key(room: i64) -> Seq<char> {
    lettered_key('m', room)
}

/// Two keys are the same only where letter and room are the same.
pub proof fn lemma_keys_differ(c: char, a: i64, d: char, b: i64)
    ensures
        lettered_key(c, a) == lettered_key(d, b) <==> c == d && a == b,
{
    if lettered_key(c, a) == lettered_key(d, b) {
        assert(lettered_key(c, a)[0] == c);
        assert(lettered_key(d, b)[0] == d);
        assert(lettered_key(c, a).skip(1) =~= decimal(a as int));
        assert(lettered_key(d, b).skip(1) =~= decimal(b as int));
        lemma_decimal_injective(a as int, b as int);
    }
}

/// Slave keys and master keys are told apart by kind and by room.
pub proof fn lemma_keys()
    ensures
        forall|a: i64, b: i64| #[trigger] slave_key(a) == #[trigger] slave_key(b) <==> a == b,
        forall|a: i64, b: i64| #[trigger] master_key(a) == #[trigger] master_key(b) <==> a == b,
        forall|a: i64, b: i64| #[trigger] slave_key(a) != #[trigger] master_key(b),
{
    assert forall|a: i64, b: i64| #[trigger] slave_key(a) == #[trigger] slave_key(b) <==> a
        == b by {
        lemma_keys_differ('s', a, 's', b);
    }
    assert forall|a: i64, b: i64| #[trigger] master_key(a) == #[trigger] master_key(b) <==> a
        == b by {
        lemma_keys_differ('m', a, 'm', b);
    }
    assert forall|a: i64, b: i64| #[trigger] slave_key(a) != #[trigger] master_key(b) by {
        lemma_keys_differ('s', a, 'm', b);
    }
}

/// Writes the key made of `letter`, a one-letter text, and the id of `room`.
fn lettered_key_for(letter: &str, room: i64) -> (key: String)
    requires
        letter@.len() == 1,
    ensures
        key@ == lettered_key(letter@[0], room),
{
    let key = String::from_str(letter).concat(to_decimal(room).as_str());
    assert(key@ =~= lettered_key(letter@[0], room));
    key
}

/// Writes the slave key of `room`.
pub fn slave_key_for(room: i64) -> (key: String)
    ensures
        key@ == slave_key(room),
{
    proof {
        reveal_strlit("s");
    }
    lettered_key_for("s", room)
}

/// Writes the master key of `room`.
pub fn master_key_for(room: i64) -> (key: String)
    ensures
        key@ == master_key(room),
{
    proof {
        reveal_strlit("m");
    }
    lettered_key_for("m", room)
}

} // verus!
