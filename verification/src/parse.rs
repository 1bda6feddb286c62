//! Reading a line of client input: which command it is, and its argument.
//!
//! A line is a command when it starts with one of the five command words;
//! any other line is a plain chat message.  The argument of `/name` and
//! `/join` is the second whitespace-separated token of the whole line.
use vstd::prelude::*;

verus! {

/// `p` is a prefix of `s`.
pub open spec fn spec_starts_with(s: Seq<char>, p: Seq<char>) -> bool {
    p.len() <= s.len() && s.subrange(0, p.len() as int) == p
}

/// ASCII whitespace, as the token splitting understands it.
pub open spec fn is_ws_char(c: char) -> bool {
    c == ' ' || c == '\t' || c == '\n' || c == '\u{c}' || c == '\r'
}

/// The length of the whitespace run at the front of `s`.
pub open spec fn spec_ws_len(s: Seq<char>) -> nat
    decreases s.len(),
{
    if s.len() > 0 && is_ws_char(s[0]) {
        1 + spec_ws_len(s.drop_first())
    } else {
        0
    }
}

/// The length of the non-whitespace run at the front of `s`.
pub open spec fn spec_token_len(s: Seq<char>) -> nat
    decreases s.len(),
{
    if s.len() > 0 && !is_ws_char(s[0]) {
        1 + spec_token_len(s.drop_first())
    } else {
        0
    }
}

/// The second whitespace-separated token of `s`; empty when `s` has no
/// second token.
pub open spec fn spec_second_token(s: Seq<char>) -> Seq<char> {
    let t1 = s.skip(spec_ws_len(s) as int);
    let t2 = t1.skip(spec_token_len(t1) as int);
    let t3 = t2.skip(spec_ws_len(t2) as int);
    t3.take(spec_token_len(t3) as int)
}

/// The line invokes `/help`: a command is recognised by its word at
/// the front of the line.
pub open spec fn is_help(s: Seq<char>) -> bool {
    spec_starts_with(s, "/help"@)
}

/// The line invokes `/quit`.
pub open spec fn is_quit(s: Seq<char>) -> bool {
    spec_starts_with(s, "/quit"@)
}

/// The line invokes `/name`.
pub open spec fn is_name_cmd(s: Seq<char>) -> bool {
    spec_starts_with(s, "/name"@)
}

/// The line invokes `/join`.
pub open spec fn is_join_cmd(s: Seq<char>) -> bool {
    spec_starts_with(s, "/join"@)
}

/// The line invokes `/rooms`.
pub open spec fn is_rooms_cmd(s: Seq<char>) -> bool {
    spec_starts_with(s, "/rooms"@)
}

/// Whether `s` starts with `p`.
pub fn starts_with_lit(s: &str, p: &str) -> (r: bool)
    ensures
        r == spec_starts_with(s@, p@),
{
    let pn = p.unicode_len();
    let sn = s.unicode_len();
    if pn > sn {
        return false;
    }
    let mut i: usize = 0;
    while i < pn
        invariant
            pn == p@.len(),
            sn == s@.len(),
            pn <= sn,
            0 <= i <= pn,
            forall|k: int| 0 <= k < i ==> s@[k] == p@[k],
        decreases pn - i,
    {
        if s.get_char(i) != p.get_char(i) {
            proof {
                if s@.subrange(0, pn as int) == p@ {
                    assert(s@.subrange(0, pn as int)[i as int] == p@[i as int]);
                }
            }
            return false;
        }
        i += 1;
    }
    proof {
        assert(s@.subrange(0, pn as int) =~= p@);
    }
    true
}

fn ws_len(s: &str) -> (r: usize)
    ensures
        r == spec_ws_len(s@),
        r <= s@.len(),
    decreases s@.len(),
{
    let n = s.unicode_len();
    if n == 0 {
        return 0;
    }
    let c = s.get_char(0);
    if c == ' ' || c == '\t' || c == '\n' || c == '\u{c}' || c == '\r' {
        let t = s.substring_char(1, n);
        proof {
            assert(t@ =~= s@.drop_first());
        }
        1 + ws_len(t)
    } else {
        0
    }
}

fn token_len(s: &str) -> (r: usize)
    ensures
        r == spec_token_len(s@),
        r <= s@.len(),
    decreases s@.len(),
{
    let n = s.unicode_len();
    if n == 0 {
        return 0;
    }
    let c = s.get_char(0);
    if c == ' ' || c == '\t' || c == '\n' || c == '\u{c}' || c == '\r' {
        0
    } else {
        let t = s.substring_char(1, n);
        proof {
            assert(t@ =~= s@.drop_first());
        }
        1 + token_len(t)
    }
}

/// The second whitespace-separated token of the line, if there is one.
pub fn second_token(s: &str) -> (r: Option<String>)
    ensures
        match r {
            Some(t) => spec_second_token(s@).len() > 0 && t@ == spec_second_token(s@),
            None => spec_second_token(s@).len() == 0,
        },
{
    let n = s.unicode_len();
    let a = ws_len(s);
    let s1 = s.substring_char(a, n);
    proof {
        assert(s1@ =~= s@.skip(spec_ws_len(s@) as int));
    }
    let n1 = s1.unicode_len();
    let b = token_len(s1);
    let s2 = s1.substring_char(b, n1);
    proof {
        assert(s2@ =~= s1@.skip(spec_token_len(s1@) as int));
    }
    let n2 = s2.unicode_len();
    let c = ws_len(s2);
    let s3 = s2.substring_char(c, n2);
    proof {
        assert(s3@ =~= s2@.skip(spec_ws_len(s2@) as int));
    }
    let d = token_len(s3);
    if d == 0 {
        proof {
            assert(spec_second_token(s@) =~= s3@.take(0));
        }
        None
    } else {
        let t = s3.substring_char(0, d);
        proof {
            assert(t@ =~= s3@.take(spec_token_len(s3@) as int));
        }
        Some(t.to_owned())
    }
}

} // verus!
