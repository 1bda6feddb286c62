//! One connected client: its session state and the dispatch of its
//! events.
//!
//! The connection loop around a session waits on two sources at once —
//! the next line from the client and the next broadcast from the current
//! room — and hands whichever arrives first to the functions here.  They
//! decide everything: how registries change, which lines go back to this
//! client, and which notices are published to which rooms.  The caller
//! only performs the listed sends.
use vstd::prelude::*;

use tokio::sync::broadcast::Receiver;

use crate::names::Names;
use crate::shared::is_coined_name;
use crate::parse::is_help;
use crate::parse::is_join_cmd;
use crate::parse::is_name_cmd;
use crate::parse::is_quit;
use crate::parse::is_rooms_cmd;
use crate::parse::second_token;
use crate::parse::spec_second_token;
use crate::parse::starts_with_lit;
use crate::protocol::already_in;
use crate::protocol::chat_msg;
use crate::protocol::greeting;
use crate::protocol::help_text;
use crate::protocol::join_usage;
use crate::protocol::joined_msg;
use crate::protocol::left_msg;
use crate::protocol::main_room;
use crate::protocol::name_taken;
use crate::protocol::name_usage;
use crate::protocol::rename_msg;
use crate::protocol::rooms_reply;
use crate::protocol::spec_already_in;
use crate::protocol::spec_chat_msg;
use crate::protocol::spec_greeting;
use crate::protocol::spec_help_text;
use crate::protocol::spec_join_usage;
use crate::protocol::spec_joined_msg;
use crate::protocol::spec_left_msg;
use crate::protocol::spec_name_taken;
use crate::protocol::spec_name_usage;
use crate::protocol::spec_rename_msg;
use crate::protocol::spec_rooms_reply;
use crate::rooms::counts_in_bounds;
use crate::rooms::is_listing_of;
use crate::rooms::join_step;
use crate::rooms::leave_step;
use crate::rooms::Rooms;

verus! {

/// The state of one connected client: its display name, its current
/// room, and its subscription to that room's broadcast topic.
pub struct Session {
    pub name: String,
    pub room: String,
    pub rx: Receiver<String>,
}

/// The session's name is taken in the name registry and its room exists
/// in the room registry.
pub open spec fn session_ok(s: Session, names: Set<Seq<char>>, rooms: Map<Seq<char>, nat>) -> bool {
    names.contains(s.name@) && rooms.contains_key(s.room@)
}

/// What arrived from the client: a line, a failed read, or the end of
/// the stream.
pub enum UserEvent {
    Line(String),
    ReadFailed,
    Closed,
}

/// What arrived from the room subscription: a broadcast message, a lag
/// notice for a span of missed messages, or a closed topic.
pub enum PeerEvent {
    Message(String),
    Lagged,
    Closed,
}

/// What the caller must do after dispatching one event: stop the
/// session, send each reply to this client, and publish each (room,
/// message) pair in order.
pub struct Outcome {
    pub quit: bool,
    pub replies: Vec<String>,
    pub publishes: Vec<(String, String)>,
}

/// Handles one event from the room subscription.  A broadcast message
/// is forwarded to the client.  Falling behind the topic's bounded
/// buffer skips the missed span and never ends the session, and a
/// closed topic is likewise ignored.
pub fn process_peer_msg(event: PeerEvent) -> (r: Option<String>)
    ensures
        r == (match event {
            PeerEvent::Message(m) => Some(m),
            PeerEvent::Lagged => None::<String>,
            PeerEvent::Closed => None::<String>,
        }),
{
    match event {
        PeerEvent::Message(m) => Some(m),
        PeerEvent::Lagged => None,
        PeerEvent::Closed => None,
    }
}

/// Starts a session: claims a fresh unique display name of the form
/// `<adjective><animal>` (or, should every random candidate collide, a
/// fallback longer than every taken name), joins the default room, and
/// returns the session beside the greeting to send and the join notice
/// to publish.
pub fn connect(names: &mut Names, rooms: &mut Rooms) -> (r: (Session, Outcome))
    requires
        old(names).wf(),
        old(rooms).wf(),
        counts_in_bounds(old(rooms)@),
    ensures
        final(names).wf(),
        final(rooms).wf(),
        !old(names)@.contains(r.0.name@),
        final(names)@ == old(names)@.insert(r.0.name@),
        is_coined_name(r.0.name@) || (forall|m: Seq<char>|
            old(names)@.contains(m) ==> m.len() < r.0.name@.len()),
        r.0.room@ == "main"@,
        final(rooms)@ == join_step(old(rooms)@, "main"@),
        session_ok(r.0, final(names)@, final(rooms)@),
        !r.1.quit,
        r.1.replies@.len() == 1,
        r.1.replies@[0]@ == spec_greeting(r.0.name@),
        r.1.publishes@.len() == 1,
        r.1.publishes@[0].0@ == "main"@,
        r.1.publishes@[0].1@ == spec_joined_msg(r.0.name@, "main"@),
{
    let name = names.get_unique();
    let room = main_room().to_owned();
    let rx = rooms.join(main_room());
    let mut replies: Vec<String> = Vec::new();
    replies.push(greeting(name.as_str()));
    let mut publishes: Vec<(String, String)> = Vec::new();
    publishes.push((room.clone(), joined_msg(name.as_str(), room.as_str())));
    let session = Session { name, room, rx };
    (session, Outcome { quit: false, replies, publishes })
}

/// Ends a session: publishes the leave notice for its room, gives the
/// room up, and releases the display name for others to claim.
pub fn disconnect(session: Session, names: &mut Names, rooms: &mut Rooms) -> (out: Outcome)
    requires
        old(names).wf(),
        old(rooms).wf(),
    ensures
        final(names).wf(),
        final(rooms).wf(),
        final(names)@ == old(names)@.remove(session.name@),
        final(rooms)@ == leave_step(old(rooms)@, session.room@),
        out.quit,
        out.replies@.len() == 0,
        out.publishes@.len() == 1,
        out.publishes@[0].0@ == session.room@,
        out.publishes@[0].1@ == spec_left_msg(session.name@, session.room@),
{
    let mut publishes: Vec<(String, String)> = Vec::new();
    publishes.push((session.room.clone(), left_msg(session.name.as_str(), session.room.as_str())));
    rooms.leave(session.room.as_str());
    names.remove(session.name.as_str());
    Outcome { quit: true, replies: Vec::new(), publishes }
}

/// Dispatches one client event against the session and the registries.
///
/// A command line takes its effect on the registries here; everything
/// the caller still has to do — stop, reply, publish — comes back in
/// the outcome.  A missing argument to `/name` or `/join` is reported
/// to the client and never ends the session.  A rename succeeds exactly
/// when the new name is free, releases the old name at that instant,
/// and is announced to the room; a refused rename changes nothing and
/// is announced to nobody.  Joining the current room again changes
/// nothing and publishes nothing.
#[verifier::rlimit(60)]
pub fn process_user_msg(
    session: &mut Session,
    names: &mut Names,
    rooms: &mut Rooms,
    event: UserEvent,
) -> (out: Outcome)
    requires
        old(names).wf(),
        old(rooms).wf(),
        counts_in_bounds(old(rooms)@),
        session_ok(*old(session), old(names)@, old(rooms)@),
    ensures
        final(names).wf(),
        final(rooms).wf(),
        session_ok(*final(session), final(names)@, final(rooms)@),
        ({
            match event {
                UserEvent::ReadFailed => out.quit && *final(session) == *old(session)
                    && *final(names) == *old(names) && *final(rooms) == *old(rooms)
                    && out.replies@.len() == 0 && out.publishes@.len() == 0,
                UserEvent::Closed => out.quit && *final(session) == *old(session)
                    && *final(names) == *old(names) && *final(rooms) == *old(rooms)
                    && out.replies@.len() == 0 && out.publishes@.len() == 0,
                UserEvent::Line(l) => if is_help(l@) {
                    !out.quit && *final(session) == *old(session) && *final(names) == *old(names)
                        && *final(rooms) == *old(rooms) && out.publishes@.len() == 0
                        && out.replies@.len() == 1 && out.replies@[0]@ == spec_help_text()
                } else if is_quit(l@) {
                    out.quit && *final(session) == *old(session) && *final(names) == *old(names)
                        && *final(rooms) == *old(rooms) && out.replies@.len() == 0
                        && out.publishes@.len() == 0
                } else if is_name_cmd(l@) {
                    let arg = spec_second_token(l@);
                    if arg.len() == 0 {
                        !out.quit && *final(session) == *old(session)
                            && *final(names) == *old(names) && *final(rooms) == *old(rooms)
                            && out.publishes@.len() == 0 && out.replies@.len() == 1
                            && out.replies@[0]@ == spec_name_usage()
                    } else if !old(names)@.contains(arg) {
                        !out.quit
                            && final(names)@ == old(names)@.insert(arg).remove(
                            old(session).name@,
                        ) && final(session).name@ == arg
                            && final(session).room == old(session).room
                            && final(session).rx == old(session).rx
                            && *final(rooms) == *old(rooms) && out.replies@.len() == 0
                            && out.publishes@.len() == 1
                            && out.publishes@[0].0@ == old(session).room@
                            && out.publishes@[0].1@ == spec_rename_msg(old(session).name@, arg)
                    } else {
                        !out.quit && *final(session) == *old(session)
                            && *final(names) == *old(names) && *final(rooms) == *old(rooms)
                            && out.publishes@.len() == 0 && out.replies@.len() == 1
                            && out.replies@[0]@ == spec_name_taken(arg)
                    }
                } else if is_join_cmd(l@) {
                    let arg = spec_second_token(l@);
                    if arg.len() == 0 {
                        !out.quit && *final(session) == *old(session)
                            && *final(names) == *old(names) && *final(rooms) == *old(rooms)
                            && out.publishes@.len() == 0 && out.replies@.len() == 1
                            && out.replies@[0]@ == spec_join_usage()
                    } else if arg == old(session).room@ {
                        !out.quit && *final(session) == *old(session)
                            && *final(names) == *old(names) && *final(rooms) == *old(rooms)
                            && out.publishes@.len() == 0 && out.replies@.len() == 1
                            && out.replies@[0]@ == spec_already_in(old(session).room@)
                    } else {
                        !out.quit && *final(names) == *old(names)
                            && final(rooms)@ == join_step(
                            leave_step(old(rooms)@, old(session).room@),
                            arg,
                        ) && final(session).name == old(session).name
                            && final(session).room@ == arg && out.replies@.len() == 0
                            && out.publishes@.len() == 2
                            && out.publishes@[0].0@ == old(session).room@
                            && out.publishes@[0].1@ == spec_left_msg(
                            old(session).name@,
                            old(session).room@,
                        ) && out.publishes@[1].0@ == arg
                            && out.publishes@[1].1@ == spec_joined_msg(old(session).name@, arg)
                    }
                } else if is_rooms_cmd(l@) {
                    !out.quit && *final(session) == *old(session) && *final(names) == *old(names)
                        && *final(rooms) == *old(rooms) && out.publishes@.len() == 0
                        && out.replies@.len() == 1
                        && exists|listing: Seq<(String, usize)>|
                        is_listing_of(listing, old(rooms)@) && out.replies@[0]@
                            == spec_rooms_reply(listing)
                } else {
                    !out.quit && *final(session) == *old(session) && *final(names) == *old(names)
                        && *final(rooms) == *old(rooms) && out.replies@.len() == 0
                        && out.publishes@.len() == 1
                        && out.publishes@[0].0@ == old(session).room@
                        && out.publishes@[0].1@ == spec_chat_msg(old(session).name@, l@)
                },
            }
        }),
{
    let mut quit = false;
    let mut replies: Vec<String> = Vec::new();
    let mut publishes: Vec<(String, String)> = Vec::new();
    match event {
        UserEvent::ReadFailed => {
            quit = true;
        },
        UserEvent::Closed => {
            quit = true;
        },
        UserEvent::Line(line) => {
            if starts_with_lit(line.as_str(), "/help") {
                replies.push(help_text());
            } else if starts_with_lit(line.as_str(), "/quit") {
                quit = true;
            } else if starts_with_lit(line.as_str(), "/name") {
                match second_token(line.as_str()) {
                    None => {
                        replies.push(name_usage());
                    },
                    Some(new_name) => {
                        let claimed = names.insert(new_name.clone());
                        if claimed {
                            let msg = rename_msg(session.name.as_str(), new_name.as_str());
                            names.remove(session.name.as_str());
                            publishes.push((session.room.clone(), msg));
                            session.name = new_name;
                        } else {
                            replies.push(name_taken(new_name.as_str()));
                        }
                    },
                }
            } else if starts_with_lit(line.as_str(), "/join") {
                match second_token(line.as_str()) {
                    None => {
                        replies.push(join_usage());
                    },
                    Some(new_room) => {
                        if new_room == session.room {
                            replies.push(already_in(session.room.as_str()));
                        } else {
                            publishes.push(
                                (
                                    session.room.clone(),
                                    left_msg(session.name.as_str(), session.room.as_str()),
                                ),
                            );
                            let rx = rooms.change(session.room.as_str(), new_room.as_str());
                            session.rx = rx;
                            session.room = new_room;
                            publishes.push(
                                (
                                    session.room.clone(),
                                    joined_msg(session.name.as_str(), session.room.as_str()),
                                ),
                            );
                        }
                    },
                }
            } else if starts_with_lit(line.as_str(), "/rooms") {
                let listing = rooms.lists();
                replies.push(rooms_reply(&listing));
            } else {
                publishes.push(
                    (session.room.clone(), chat_msg(session.name.as_str(), line.as_str())),
                );
            }
        },
    }
    Outcome { quit, replies, publishes }
}

/// Uniqueness of display names: while one session holds its name, a
/// rename by another session can neither take that name nor free it.
/// The other session's name stays taken, and the renamed session's new
/// name differs from it.
pub proof fn lemma_rename_preserves_others(
    names: Set<Seq<char>>,
    old_name: Seq<char>,
    new_name: Seq<char>,
    other: Seq<char>,
)
    requires
        names.contains(other),
        other != old_name,
        !names.contains(new_name),
    ensures
        names.insert(new_name).remove(old_name).contains(other),
        other != new_name,
{
}


/// Display-name uniqueness over all live sessions at once: every live
/// session's name is taken in the registry, and no two live sessions
/// hold the same name.
///
/// The three lemmas below show that every registry transition a session
/// can make keeps this invariant: claiming a fresh name at connect,
/// trading the old name for a free one at a successful rename, and
/// releasing the name at disconnect.  A failed claim, a failed rename
/// and every other event leave the registry unchanged, so the invariant
/// holds at every instant of any run that starts from the empty
/// registry, where it holds trivially.
pub open spec fn sessions_ok(live: Seq<Seq<char>>, names: Set<Seq<char>>) -> bool {
    &&& forall|i: int| 0 <= i < live.len() ==> names.contains(#[trigger] live[i])
    &&& forall|i: int, j: int| 0 <= i < j < live.len() ==> live[i] != live[j]
}

/// A session connects: it claims a name that was free, as `connect`'s
/// contract states, and becomes live.
pub proof fn lemma_uniqueness_connect(
    live: Seq<Seq<char>>,
    names: Set<Seq<char>>,
    fresh: Seq<char>,
)
    requires
        sessions_ok(live, names),
        !names.contains(fresh),
    ensures
        sessions_ok(live.push(fresh), names.insert(fresh)),
{
    let live1 = live.push(fresh);
    assert forall|i: int| 0 <= i < live1.len()
        implies names.insert(fresh).contains(#[trigger] live1[i]) by {
        if i < live.len() {
            assert(live1[i] == live[i]);
        }
    }
    assert forall|i: int, j: int| 0 <= i < j < live1.len() implies live1[i] != live1[j] by {
        if j < live.len() {
            assert(live1[i] == live[i] && live1[j] == live[j]);
        } else {
            assert(live1[i] == live[i] && live1[j] == fresh);
            assert(names.contains(live[i]));
        }
    }
}

/// Live session `k` renames itself: the new name was free and the old
/// one is released in the same step, as the `/name` branch of
/// `process_user_msg` states.
pub proof fn lemma_uniqueness_rename(
    live: Seq<Seq<char>>,
    names: Set<Seq<char>>,
    k: int,
    new_name: Seq<char>,
)
    requires
        sessions_ok(live, names),
        0 <= k < live.len(),
        !names.contains(new_name),
    ensures
        sessions_ok(live.update(k, new_name), names.insert(new_name).remove(live[k])),
{
    let live1 = live.update(k, new_name);
    let names1 = names.insert(new_name).remove(live[k]);
    assert forall|i: int| 0 <= i < live1.len() implies names1.contains(#[trigger] live1[i]) by {
        if i == k {
            assert(live1[i] == new_name);
            assert(new_name != live[k]);
        } else {
            assert(live1[i] == live[i]);
            assert(names.contains(live[i]));
            assert(live[i] != live[k]);
            assert(live[i] != new_name);
        }
    }
    assert forall|i: int, j: int| 0 <= i < j < live1.len() implies live1[i] != live1[j] by {
        if i != k && j != k {
            assert(live1[i] == live[i] && live1[j] == live[j]);
        } else {
            let o: int = if i == k { j } else { i };
            assert(live1[o] == live[o]);
            assert(names.contains(live[o]));
        }
    }
}

/// Live session `k` disconnects: its name is released and it stops
/// being live, as `disconnect`'s contract states.
pub proof fn lemma_uniqueness_disconnect(live: Seq<Seq<char>>, names: Set<Seq<char>>, k: int)
    requires
        sessions_ok(live, names),
        0 <= k < live.len(),
    ensures
        sessions_ok(live.remove(k), names.remove(live[k])),
{
    let live1 = live.remove(k);
    assert forall|i: int| 0 <= i < live1.len()
        implies names.remove(live[k]).contains(#[trigger] live1[i]) by {
        let i0: int = if i < k { i } else { i + 1 };
        assert(live1[i] == live[i0]);
        assert(names.contains(live[i0]));
        assert(live[i0] != live[k]);
    }
    assert forall|i: int, j: int| 0 <= i < j < live1.len() implies live1[i] != live1[j] by {
        let i0: int = if i < k { i } else { i + 1 };
        let j0: int = if j < k { j } else { j + 1 };
        assert(live1[i] == live[i0] && live1[j] == live[j0]);
        assert(i0 < j0);
    }
}

} // verus!
