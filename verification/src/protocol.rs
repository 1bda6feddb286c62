//! The text lines that the service sends: greetings, notices, and the
//! room listing, each pinned to an exact character-sequence specification.
use vstd::prelude::*;

verus! {

/// What a chat line from `name` reads like.
pub open spec fn spec_chat_msg(name: Seq<char>, text: Seq<char>) -> Seq<char> {
    name + ": "@ + text
}

/// The notice that `name` entered `room`.
pub open spec fn spec_joined_msg(name: Seq<char>, room: Seq<char>) -> Seq<char> {
    name + " joined "@ + room
}

/// The notice that `name` left `room`.
pub open spec fn spec_left_msg(name: Seq<char>, room: Seq<char>) -> Seq<char> {
    name + " left "@ + room
}

/// The notice that `old_name` renamed itself to `new_name`.
pub open spec fn spec_rename_msg(old_name: Seq<char>, new_name: Seq<char>) -> Seq<char> {
    old_name + " is now "@ + new_name
}

/// The greeting that tells a fresh session its name.
pub open spec fn spec_greeting(name: Seq<char>) -> Seq<char> {
    "You are "@ + name
}

/// The reply to joining the room one is already in.
pub open spec fn spec_already_in(room: Seq<char>) -> Seq<char> {
    "You are in "@ + room
}

/// The rejection notice for a display name that is already taken.
pub open spec fn spec_name_taken(name: Seq<char>) -> Seq<char> {
    name + " is already taken"@
}

fn two_part(a: &str, mid: &'static str, b: &str) -> (r: String)
    ensures
        r@ == a@ + mid@ + b@,
{
    let mut m = a.to_owned();
    m.append(mid);
    m.append(b);
    m
}

/// The chat line relayed for `name` saying `text`.
pub fn chat_msg(name: &str, text: &str) -> (r: String)
    ensures
        r@ == spec_chat_msg(name@, text@),
{
    two_part(name, ": ", text)
}

/// The notice broadcast when `name` enters `room`.
pub fn joined_msg(name: &str, room: &str) -> (r: String)
    ensures
        r@ == spec_joined_msg(name@, room@),
{
    two_part(name, " joined ", room)
}

/// The notice broadcast when `name` leaves `room`.
pub fn left_msg(name: &str, room: &str) -> (r: String)
    ensures
        r@ == spec_left_msg(name@, room@),
{
    two_part(name, " left ", room)
}

/// The notice broadcast when `old_name` becomes `new_name`.
pub fn rename_msg(old_name: &str, new_name: &str) -> (r: String)
    ensures
        r@ == spec_rename_msg(old_name@, new_name@),
{
    two_part(old_name, " is now ", new_name)
}

/// The greeting sent to a fresh session.
pub fn greeting(name: &str) -> (r: String)
    ensures
        r@ == spec_greeting(name@),
{
    let mut m = String::from_str("You are ");
    m.append(name);
    m
}

/// The reply to `/join` naming the session's current room.
pub fn already_in(room: &str) -> (r: String)
    ensures
        r@ == spec_already_in(room@),
{
    let mut m = String::from_str("You are in ");
    m.append(room);
    m
}

/// The rejection notice for a taken display name.
pub fn name_taken(name: &str) -> (r: String)
    ensures
        r@ == spec_name_taken(name@),
{
    let mut m = name.to_owned();
    m.append(" is already taken");
    m
}

/// The digit character of `d`.
pub open spec fn digit_char(d: nat) -> char {
    if d == 0 {
        '0'
    } else if d == 1 {
        '1'
    } else if d == 2 {
        '2'
    } else if d == 3 {
        '3'
    } else if d == 4 {
        '4'
    } else if d == 5 {
        '5'
    } else if d == 6 {
        '6'
    } else if d == 7 {
        '7'
    } else if d == 8 {
        '8'
    } else {
        '9'
    }
}

/// The decimal digits of `n`, most significant first.
pub open spec fn spec_digits(n: nat) -> Seq<char>
    decreases n,
{
    if n < 10 {
        seq![digit_char(n)]
    } else {
        spec_digits(n / 10) + seq![digit_char(n % 10)]
    }
}

fn digit_str(d: usize) -> (r: &'static str)
    requires
        d < 10,
    ensures
        r@ == seq![digit_char(d as nat)],
{
    proof {
        reveal_strlit("0");
        reveal_strlit("1");
        reveal_strlit("2");
        reveal_strlit("3");
        reveal_strlit("4");
        reveal_strlit("5");
        reveal_strlit("6");
        reveal_strlit("7");
        reveal_strlit("8");
        reveal_strlit("9");
    }
    let r: &'static str = match d {
        0 => "0",
        1 => "1",
        2 => "2",
        3 => "3",
        4 => "4",
        5 => "5",
        6 => "6",
        7 => "7",
        8 => "8",
        _ => "9",
    };
    proof {
        assert(r@ =~= seq![digit_char(d as nat)]);
    }
    r
}

/// The decimal rendering of `n`.
pub fn count_to_string(n: usize) -> (r: String)
    ensures
        r@ == spec_digits(n as nat),
    decreases n,
{
    if n < 10 {
        digit_str(n).to_owned()
    } else {
        let mut s = count_to_string(n / 10);
        s.append(digit_str(n % 10));
        proof {
            assert(s@ =~= spec_digits(n as nat));
        }
        s
    }
}

/// What one room reads like in the listing reply.
pub open spec fn spec_room_pair(p: (String, usize)) -> Seq<char> {
    p.0@ + ": "@ + spec_digits(p.1 as nat)
}

/// The comma-separated body of the listing reply.
pub open spec fn spec_rooms_line(l: Seq<(String, usize)>) -> Seq<char>
    decreases l.len(),
{
    if l.len() == 0 {
        Seq::empty()
    } else if l.len() == 1 {
        spec_room_pair(l[0])
    } else {
        spec_room_pair(l[0]) + ", "@ + spec_rooms_line(l.drop_first())
    }
}

/// The full reply to `/rooms` for the listing `l`.
pub open spec fn spec_rooms_reply(l: Seq<(String, usize)>) -> Seq<char> {
    "Rooms - "@ + spec_rooms_line(l)
}

fn room_pair_str(p: &(String, usize)) -> (r: String)
    ensures
        r@ == spec_room_pair(*p),
{
    let mut m = p.0.as_str().to_owned();
    m.append(": ");
    m.append(count_to_string(p.1).as_str());
    m
}

fn rooms_line_from(list: &Vec<(String, usize)>, i: usize) -> (r: String)
    requires
        i <= list@.len(),
    ensures
        r@ == spec_rooms_line(list@.skip(i as int)),
    decreases list@.len() - i,
{
    let n = list.len();
    if i == n {
        let r = String::new();
        proof {
            assert(list@.skip(i as int) =~= Seq::<(String, usize)>::empty());
        }
        r
    } else {
        let mut m = room_pair_str(&list[i]);
        proof {
            assert(list@.skip(i as int)[0] == list@[i as int]);
        }
        if i + 1 == n {
            proof {
                assert(list@.skip(i as int).len() == 1);
            }
            m
        } else {
            m.append(", ");
            let rest = rooms_line_from(list, i + 1);
            m.append(rest.as_str());
            proof {
                assert(list@.skip(i as int).drop_first() =~= list@.skip(i as int + 1));
                assert(m@ =~= spec_rooms_line(list@.skip(i as int)));
            }
            m
        }
    }
}

/// The reply sent for `/rooms`, built from a listing snapshot.
pub fn rooms_reply(list: &Vec<(String, usize)>) -> (r: String)
    ensures
        r@ == spec_rooms_reply(list@),
{
    let mut m = String::from_str("Rooms - ");
    let body = rooms_line_from(list, 0);
    m.append(body.as_str());
    proof {
        assert(list@.skip(0) =~= list@);
    }
    m
}

/// What the fixed help text reads like.
pub open spec fn spec_help_text() -> Seq<char> {
    "Commands:\n/help - show this help\n/quit - leave the chat\n/name <newName> - pick a new display name\n/join <roomName> - move to another room\n/rooms - list rooms and occupant counts"@
}

/// The fixed help text sent for `/help`.
pub fn help_text() -> (r: String)
    ensures
        r@ == spec_help_text(),
{
    String::from_str(
        "Commands:\n/help - show this help\n/quit - leave the chat\n/name <newName> - pick a new display name\n/join <roomName> - move to another room\n/rooms - list rooms and occupant counts",
    )
}

/// The usage reply for `/name` without an argument.
pub open spec fn spec_name_usage() -> Seq<char> {
    "Usage: /name <newName>"@
}

/// The usage reply sent when `/name` lacks its argument.
pub fn name_usage() -> (r: String)
    ensures
        r@ == spec_name_usage(),
{
    String::from_str("Usage: /name <newName>")
}

/// The usage reply for `/join` without an argument.
pub open spec fn spec_join_usage() -> Seq<char> {
    "Usage: /join <roomName>"@
}

/// The usage reply sent when `/join` lacks its argument.
pub fn join_usage() -> (r: String)
    ensures
        r@ == spec_join_usage(),
{
    String::from_str("Usage: /join <roomName>")
}

/// The default room that every fresh session starts in.
pub fn main_room() -> (r: &'static str)
    ensures
        r@ == "main"@,
{
    "main"
}

} // verus!
