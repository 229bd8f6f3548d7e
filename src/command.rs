//! The two commands of the line protocol: `/nick <name>` and `/w <name> <message>`.

use vstd::prelude::*;

use crate::text::{
    chars_of, lemma_token_len, lemma_trim_first, skip_token, starts_with, starts_with_at, token_len, trim, trim_bounds,
};

verus! {

/// The prefix of a rename command.
pub open spec fn nick_cmd() -> Seq<char> {
    "/nick "@
}

/// The prefix of a whisper command.
pub open spec fn whisper_cmd() -> Seq<char> {
    "/w "@
}

/// The name that a `/nick` line asks for: the first word after the command.
pub open spec fn nick_of(line: Seq<char>) -> Option<Seq<char>> {
    let t = trim(line);
    if starts_with(t, nick_cmd()) {
        let rest = trim(t.subrange(nick_cmd().len() as int, t.len() as int));
        if rest.len() == 0 {
            None
        } else {
            Some(rest.subrange(0, token_len(rest) as int))
        }
    } else {
        None
    }
}

/// Whether the trimmed line starts like a whisper command.
pub open spec fn is_whisper_like(line: Seq<char>) -> bool {
    starts_with(trim(line), whisper_cmd())
}

/// The target and message of a `/w` line. The target is the first
/// whitespace-delimited word after the command; the message is what follows
/// the whitespace character that ends the target, trimmed. Either being empty
/// makes the line malformed.
pub open spec fn whisper_of(line: Seq<char>) -> Option<(Seq<char>, Seq<char>)> {
    let t = trim(line);
    if starts_with(t, whisper_cmd()) {
        let rest = trim(t.subrange(whisper_cmd().len() as int, t.len() as int));
        let k = token_len(rest);
        let to = rest.subrange(0, k as int);
        let msg = if k < rest.len() {
            trim(rest.subrange(k + 1 as int, rest.len() as int))
        } else {
            Seq::empty()
        };
        if to.len() == 0 || msg.len() == 0 {
            None
        } else {
            Some((to, msg))
        }
    } else {
        None
    }
}

/// Parses `/nick <name>`.
pub fn parse_nick(s: &str) -> (r: Option<&str>)
    ensures
        r is Some <==> nick_of(s@) is Some,
        r is Some ==> r->0@ == nick_of(s@)->0,
{
    let v = chars_of(s);
    let n = v.len();
    let (a, b) = trim_bounds(&v, 0, n);
    assert(v@.subrange(0, n as int) =~= s@);
    let p = chars_of("/nick ");
    if !starts_with_at(&v, a, b, &p) {
        return None;
    }
    let c = a + p.len();
    assert(v@.subrange(a as int, b as int).subrange(p@.len() as int, b - a) =~= v@.subrange(
        c as int,
        b as int,
    ));
    let (c2, d2) = trim_bounds(&v, c, b);
    if c2 == d2 {
        return None;
    }
    let e = skip_token(&v, c2, d2);
    assert(v@.subrange(c2 as int, d2 as int).subrange(0, e - c2) =~= v@.subrange(
        c2 as int,
        e as int,
    ));
    Some(s.substring_char(c2, e))
}

/// Parses `/w <name> <message>`.
pub fn parse_whisper(s: &str) -> (r: Option<(&str, &str)>)
    ensures
        r is Some <==> whisper_of(s@) is Some,
        r is Some ==> whisper_of(s@) == Some(((r->0).0@, (r->0).1@)),
{
    let v = chars_of(s);
    let n = v.len();
    let (a, b) = trim_bounds(&v, 0, n);
    assert(v@.subrange(0, n as int) =~= s@);
    let p = chars_of("/w ");
    if !starts_with_at(&v, a, b, &p) {
        return None;
    }
    let c0 = a + p.len();
    assert(v@.subrange(a as int, b as int).subrange(p@.len() as int, b - a) =~= v@.subrange(
        c0 as int,
        b as int,
    ));
    let (c, d) = trim_bounds(&v, c0, b);
    let ghost rest = v@.subrange(c as int, d as int);
    let k = skip_token(&v, c, d);
    assert(rest.subrange(0, k - c) =~= v@.subrange(c as int, k as int));
    let (m1, m2) = if k < d {
        assert(rest.subrange(k - c + 1, rest.len() as int) =~= v@.subrange(k + 1, d as int));
        trim_bounds(&v, k + 1, d)
    } else {
        (d, d)
    };
    if k == c || m1 == m2 {
        return None;
    }
    Some((s.substring_char(c, k), s.substring_char(m1, m2)))
}

/// Whether the trimmed line starts with `/w `, well formed or not.
pub fn is_whisper_attempt(s: &str) -> (r: bool)
    ensures
        r == is_whisper_like(s@),
{
    let v = chars_of(s);
    let n = v.len();
    let (a, b) = trim_bounds(&v, 0, n);
    assert(v@.subrange(0, n as int) =~= s@);
    let p = chars_of("/w ");
    starts_with_at(&v, a, b, &p)
}

/// The name asked for by a `/nick` line is never empty.
pub proof fn lemma_nick_nonempty(line: Seq<char>)
    ensures
        nick_of(line) is Some ==> nick_of(line)->0.len() > 0,
{
    let t = trim(line);
    if starts_with(t, nick_cmd()) {
        let rest = trim(t.subrange(nick_cmd().len() as int, t.len() as int));
        lemma_trim_first(t.subrange(nick_cmd().len() as int, t.len() as int));
        lemma_token_len(rest);
    }
}

} // verus!
