//! Mirroring of membership changes. A master room's decisions are pushed
//! down to its slaves; a slave room checks a user who becomes active in it
//! against the master, and corrects itself and its siblings where it has
//! drifted.
//!
//! Nothing here talks to the chat service. A `Mirror` says what to ask of it
//! next, and is told what came back.

use crate::relation::{without, Bindings};
use crate::store::{bindings, get_master, get_slaves, strike_from};
use pickledb::PickleDb;
use vstd::prelude::*;

verus! {

/// A user's standing in a room, as the chat service reports it.
#[derive(Clone, Copy, Debug, PartialEq, Eq, Structural)]
pub enum StandingKind {
    Administrator,
    Owner,
    Member,
    Restricted,
    Left,
    Banned,
}

/// What a standing means for mirroring.
#[derive(Clone, Copy, Debug, PartialEq, Eq, Structural)]
pub enum Standing {
    /// The user is in the room.
    Active,
    /// The user left by choice.
    Departed,
    /// The user was banned.
    Removed,
}

/// A change of one user's standing in one room.
#[derive(Clone, Copy, Debug, PartialEq, Eq, Structural)]
pub struct MembershipEvent {
    pub room: i64,
    pub user: u64,
    pub is_bot: bool,
    pub new_standing: StandingKind,
}

/// Something to do to a user in a room.
#[derive(Clone, Copy, Debug, PartialEq, Eq, Structural)]
pub enum Action {
    /// Remove the user from the room.
    Kick { room: i64, user: u64 },
    /// Lift the user's ban in the room.
    Unban { room: i64, user: u64 },
    /// Give the user a member's standing in the room.
    Promote { room: i64, user: u64 },
}

/// What the chat service is to be asked next.
#[derive(Clone, Copy, Debug, PartialEq, Eq, Structural)]
pub enum Request {
    /// Report the user's standing in the room.
    GetStanding { room: i64, user: u64 },
    /// Carry out the action.
    Perform(Action),
    /// Nothing is left to do.
    Done,
    /// A call has failed and the rest was given up.
    Failed,
}

/// What came back from the chat service.
#[derive(Clone, Copy, Debug, PartialEq, Eq, Structural)]
pub enum Reply {
    /// The standing that was asked for.
    Standing(StandingKind),
    /// The action was carried out.
    Performed,
    /// The call failed.
    Failed,
}

/// The handling of one event: what is being waited for, and what is still
/// to be done.
#[derive(Debug, PartialEq, Eq)]
pub enum Mirror {
    /// The user's standing in `master` is being asked for. If the user has
    /// left it or is banned from it, `on_drift` is to be carried out.
    Checking { master: i64, user: u64, on_drift: Vec<Action> },
    /// The first `done` of `actions` are carried out, the others are to
    /// follow in order.
    Acting { actions: Vec<Action>, done: usize },
    /// A call has failed; nothing more is done.
    Failed,
}

/// A `Mirror` as a mathematical value.
pub enum MirrorView {
    Checking { master: i64, user: u64, on_drift: Seq<Action> },
    Acting { actions: Seq<Action>, done: nat },
    Failed,
}

impl View for Mirror {
    type V = MirrorView;

    open spec fn view(&self) -> MirrorView {
        match *self {
            Mirror::Checking { master, user, on_drift } => MirrorView::Checking {
                master,
                user,
                on_drift: on_drift@,
            },
            Mirror::Acting { actions, done } => MirrorView::Acting {
                actions: actions@,
                done: done as nat,
            },
            Mirror::Failed => MirrorView::Failed,
        }
    }
}

/// The meaning of `kind` for mirroring: an administrator, owner, member or
/// restricted member is active.
pub open spec fn standing_of(kind: StandingKind) -> Standing {
    match kind {
        StandingKind::Left => Standing::Departed,
        StandingKind::Banned => Standing::Removed,
        _ => Standing::Active,
    }
}

/// A kick of `user` from each of `rooms`, in order.
pub open spec fn kicks(rooms: Seq<i64>, user: u64) -> Seq<Action> {
    Seq::new(rooms.len(), |i: int| Action::Kick { room: rooms[i], user })
}

/// For each of `rooms` in order, the lifting of the ban of `user` and then
/// the promotion to member.
pub open spec fn restores(rooms: Seq<i64>, user: u64) -> Seq<Action> {
    Seq::new(
        2 * rooms.len(),
        |i: int|
            if i % 2 == 0 {
                Action::Unban { room: rooms[i / 2], user }
            } else {
                Action::Promote { room: rooms[i / 2], user }
            },
    )
}

/// What a slave room does when a user who became active in it turns out to
/// have left the master or to be banned from it: the user is kicked from the
/// room itself, then from every other slave of the master in order.
pub open spec fn correction(b: Bindings, master: i64, room: i64, user: u64) -> Seq<Action> {
    seq![Action::Kick { room, user }] + kicks(without(b.slaves_of(master), room), user)
}

/// How the handling of `event` starts under the bindings `b`.
///
/// A bot is ignored. In a room with a master, a user who became active is
/// checked against the master, and any other change is let be. In a room
/// without a master, a user who became active is restored in every slave of
/// the room, and one who left or was banned is kicked from every slave.
pub open spec fn start_of(b: Bindings, event: MembershipEvent) -> MirrorView {
    if event.is_bot {
        MirrorView::Acting { actions: Seq::empty(), done: 0 }
    } else if b.master_of(event.room) is Some {
        if standing_of(event.new_standing) == Standing::Active {
            MirrorView::Checking {
                master: b.master_of(event.room)->0,
                user: event.user,
                on_drift: correction(b, b.master_of(event.room)->0, event.room, event.user),
            }
        } else {
            MirrorView::Acting { actions: Seq::empty(), done: 0 }
        }
    } else if standing_of(event.new_standing) == Standing::Active {
        MirrorView::Acting { actions: restores(b.slaves_of(event.room), event.user), done: 0 }
    } else {
        MirrorView::Acting { actions: kicks(b.slaves_of(event.room), event.user), done: 0 }
    }
}

impl MirrorView {
    /// What is to be asked of the chat service in this state.
    pub open spec fn request(self) -> Request {
        match self {
            MirrorView::Checking { master, user, .. } => Request::GetStanding {
                room: master,
                user,
            },
            MirrorView::Acting { actions, done } => if done < actions.len() {
                Request::Perform(actions[done as int])
            } else {
                Request::Done
            },
            MirrorView::Failed => Request::Failed,
        }
    }

    /// The state after `reply` has come back. A failed call ends everything.
    /// A standing that shows the user gone from the master starts the
    /// correction, any other standing ends the handling. A performed action
    /// lets the next one follow. A reply that answers nothing that was asked
    /// changes nothing.
    pub open spec fn advance(self, reply: Reply) -> MirrorView {
        match self {
            MirrorView::Checking { master, user, on_drift } => match reply {
                Reply::Standing(kind) => if standing_of(kind) == Standing::Active {
                    MirrorView::Acting { actions: Seq::empty(), done: 0 }
                } else {
                    MirrorView::Acting { actions: on_drift, done: 0 }
                },
                Reply::Performed => self,
                Reply::Failed => MirrorView::Failed,
            },
            MirrorView::Acting { actions, done } => if done < actions.len() {
                match reply {
                    Reply::Standing(_) => self,
                    Reply::Performed => MirrorView::Acting { actions, done: done + 1 },
                    Reply::Failed => MirrorView::Failed,
                }
            } else {
                self
            },
            MirrorView::Failed => MirrorView::Failed,
        }
    }

    /// The state after each of `replies` has come back in turn.
    pub open spec fn advance_all(self, replies: Seq<Reply>) -> MirrorView
        decreases replies.len(),
    {
        if replies.len() == 0 {
            self
        } else {
            self.advance_all(replies.drop_last()).advance(replies.last())
        }
    }
}

/// What `kind` means for mirroring.
pub fn classify(kind: StandingKind) -> (standing: Standing)
    ensures
        standing == standing_of(kind),
{
    match kind {
        StandingKind::Administrator => Standing::Active,
        StandingKind::Owner => Standing::Active,
        StandingKind::Member => Standing::Active,
        StandingKind::Restricted => Standing::Active,
        StandingKind::Left => Standing::Departed,
        StandingKind::Banned => Standing::Removed,
    }
}

/// Adds a kick of `user` from each of `rooms` to `actions`.
fn push_kicks(actions: &mut Vec<Action>, rooms: &Vec<i64>, user: u64)
    ensures
        final(actions)@ == old(actions)@ + kicks(rooms@, user),
{
    let mut i: usize = 0;
    while i < rooms.len()
        invariant
            i <= rooms.len(),
            actions@ == old(actions)@ + kicks(rooms@.take(i as int), user),
        decreases rooms.len() - i,
    {
        actions.push(Action::Kick { room: rooms[i], user });
        i += 1;
        assert(actions@ =~= old(actions)@ + kicks(rooms@.take(i as int), user));
    }
    assert(rooms@.take(rooms.len() as int) =~= rooms@);
}

/// For each of `rooms`, the lifting of the ban of `user` and the promotion.
fn restores_for(rooms: &Vec<i64>, user: u64) -> (actions: Vec<Action>)
    ensures
        actions@ == restores(rooms@, user),
{
    let mut actions: Vec<Action> = Vec::new();
    let mut i: usize = 0;
    while i < rooms.len()
        invariant
            i <= rooms.len(),
            actions@ == restores(rooms@.take(i as int), user),
        decreases rooms.len() - i,
    {
        actions.push(Action::Unban { room: rooms[i], user });
        actions.push(Action::Promote { room: rooms[i], user });
        i += 1;
        assert(actions@ =~= restores(rooms@.take(i as int), user));
    }
    assert(rooms@.take(rooms.len() as int) =~= rooms@);
    actions
}

impl Mirror {
    /// Starts the handling of `event`. The store is read, once, and not
    /// changed; everything that follows works on what was read here.
    pub fn begin(db: &PickleDb, event: MembershipEvent) -> (mirror: Mirror)
        ensures
            mirror@ == start_of(bindings(*db), event),
    {
        if event.is_bot {
            return Mirror::Acting { actions: Vec::new(), done: 0 };
        }
        let active = match classify(event.new_standing) {
            Standing::Active => true,
            _ => false,
        };
        match get_master(db, event.room) {
            Some(master) => {
                if active {
                    let siblings = get_slaves(db, master);
                    let others = strike_from(&siblings, event.room);
                    let mut on_drift: Vec<Action> = Vec::new();
                    on_drift.push(Action::Kick { room: event.room, user: event.user });
                    push_kicks(&mut on_drift, &others, event.user);
                    assert(on_drift@ =~= correction(
                        bindings(*db),
                        master,
                        event.room,
                        event.user,
                    ));
                    Mirror::Checking { master, user: event.user, on_drift }
                } else {
                    Mirror::Acting { actions: Vec::new(), done: 0 }
                }
            },
            None => {
                let slaves = get_slaves(db, event.room);
                if active {
                    Mirror::Acting { actions: restores_for(&slaves, event.user), done: 0 }
                } else {
                    let mut actions: Vec<Action> = Vec::new();
                    push_kicks(&mut actions, &slaves, event.user);
                    assert(actions@ =~= kicks(slaves@, event.user));
                    Mirror::Acting { actions, done: 0 }
                }
            },
        }
    }

    /// What is to be asked of the chat service now.
    pub fn request(&self) -> (request: Request)
        ensures
            request == self@.request(),
    {
        match self {
            Mirror::Checking { master, user, .. } => Request::GetStanding {
                room: *master,
                user: *user,
            },
            Mirror::Acting { actions, done } => {
                if *done < actions.len() {
                    Request::Perform(actions[*done])
                } else {
                    Request::Done
                }
            },
            Mirror::Failed => Request::Failed,
        }
    }

    /// Takes in what came back for the last request.
    pub fn advance(self, reply: Reply) -> (next: Mirror)
        ensures
            next@ == self@.advance(reply),
    {
        match self {
            Mirror::Checking { master, user, on_drift } => match reply {
                Reply::Standing(kind) => match classify(kind) {
                    Standing::Active => Mirror::Acting { actions: Vec::new(), done: 0 },
                    _ => Mirror::Acting { actions: on_drift, done: 0 },
                },
                Reply::Performed => Mirror::Checking { master, user, on_drift },
                Reply::Failed => Mirror::Failed,
            },
            Mirror::Acting { actions, done } => {
                if done < actions.len() {
                    match reply {
                        Reply::Standing(_) => Mirror::Acting { actions, done },
                        Reply::Performed => Mirror::Acting { actions, done: done + 1 },
                        Reply::Failed => Mirror::Failed,
                    }
                } else {
                    Mirror::Acting { actions, done }
                }
            },
            Mirror::Failed => Mirror::Failed,
        }
    }
}

/// As long as every call succeeds, the actions are asked for one after the
/// other in their order: after `count` of them are performed the next one is
/// asked for, and after the last one nothing.
pub proof fn lemma_actions_in_order(actions: Seq<Action>, count: nat)
    requires
        count <= actions.len(),
    ensures
        (MirrorView::Acting { actions, done: 0 }).advance_all(
            Seq::new(count, |i: int| Reply::Performed),
        ) == (MirrorView::Acting { actions, done: count }),
        (MirrorView::Acting { actions, done: count }).request() == if count < actions.len() {
            Request::Perform(actions[count as int])
        } else {
            Request::Done
        },
    decreases count,
{
    if count > 0 {
        lemma_actions_in_order(actions, (count - 1) as nat);
        assert(Seq::new(count, |i: int| Reply::Performed).drop_last() =~= Seq::new(
            (count - 1) as nat,
            |i: int| Reply::Performed,
        ));
    }
}

/// A failed call ends the handling for good: whatever comes back later,
/// nothing more is asked for.
pub proof fn lemma_failure_is_final(state: MirrorView, replies: Seq<Reply>)
    requires
        state.request() is GetStanding || state.request() is Perform,
    ensures
        state.advance(Reply::Failed).advance_all(replies) == MirrorView::Failed,
        state.advance(Reply::Failed).advance_all(replies).request() == Request::Failed,
    decreases replies.len(),
{
    if replies.len() > 0 {
        lemma_failure_is_final(state, replies.drop_last());
    }
}

} // verus!
