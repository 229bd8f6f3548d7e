//! The lines that the server writes to clients.

use vstd::prelude::*;

verus! {

/// The decimal digit for `d < 10`.
pub open spec fn digit_char(d: nat) -> char {
    if d == 0 { '0' }
    else if d == 1 { '1' }
    else if d == 2 { '2' }
    else if d == 3 { '3' }
    else if d == 4 { '4' }
    else if d == 5 { '5' }
    else if d == 6 { '6' }
    else if d == 7 { '7' }
    else if d == 8 { '8' }
    else { '9' }
}

/// The decimal form of `n`, without leading zeros.
pub open spec fn decimal(n: nat) -> Seq<char>
    decreases n,
{
    if n < 10 {
        seq![digit_char(n)]
    } else {
        decimal(n / 10).push(digit_char(n % 10))
    }
}

fn digit_str(d: u64) -> (r: &'static str)
    requires
        d < 10,
    ensures
        r@ == seq![digit_char(d as nat)],
{
    proof {
        reveal_strlit("0");
        reveal_strlit("1");
        reveal_strlit("2");
        reveal_strlit("3");
        reveal_strlit("4");
        reveal_strlit("5");
        reveal_strlit("6");
        reveal_strlit("7");
        reveal_strlit("8");
        reveal_strlit("9");
    }
    let r = match d {
        0 => "0",
        1 => "1",
        2 => "2",
        3 => "3",
        4 => "4",
        5 => "5",
        6 => "6",
        7 => "7",
        8 => "8",
        _ => "9",
    };
    assert(r@ =~= seq![digit_char(d as nat)]);
    r
}

/// The decimal form of `n`.
pub fn decimal_string(n: u64) -> (r: String)
    ensures
        r@ == decimal(n as nat),
    decreases n,
{
    if n < 10 {
        String::from_str(digit_str(n))
    } else {
        let mut r = decimal_string(n / 10);
        r.append(digit_str(n % 10));
        r
    }
}

/// `-- <name> joined`
pub open spec fn joined(name: Seq<char>) -> Seq<char> {
    "-- "@ + name + " joined"@
}

/// `-- <name> left`
pub open spec fn left(name: Seq<char>) -> Seq<char> {
    "-- "@ + name + " left"@
}

/// `-- <old> -> <new>`
pub open spec fn renamed(old_name: Seq<char>, new_name: Seq<char>) -> Seq<char> {
    "-- "@ + old_name + " -> "@ + new_name
}

/// `[<name>] <text>`
pub open spec fn chat(name: Seq<char>, text: Seq<char>) -> Seq<char> {
    "["@ + name + "] "@ + text
}

/// `[whisper from <name>] <text>`
pub open spec fn whisper_from(name: Seq<char>, text: Seq<char>) -> Seq<char> {
    "[whisper from "@ + name + "] "@ + text
}

/// `[whisper to <name>] <text>`
pub open spec fn whisper_to(name: Seq<char>, text: Seq<char>) -> Seq<char> {
    "[whisper to "@ + name + "] "@ + text
}

/// `[history] <line>`
pub open spec fn history_line(line: Seq<char>) -> Seq<char> {
    "[history] "@ + line
}

/// `** Nick '<nick>' is taken`
pub open spec fn nick_taken(nick: Seq<char>) -> Seq<char> {
    "** Nick '"@ + nick + "' is taken"@
}

/// `** Nick '<nick>' is taken. You are <name>`
pub open spec fn nick_replaced(nick: Seq<char>, name: Seq<char>) -> Seq<char> {
    "** Nick '"@ + nick + "' is taken. You are "@ + name
}

/// `** User '<name>' not found`
pub open spec fn user_not_found(name: Seq<char>) -> Seq<char> {
    "** User '"@ + name + "' not found"@
}

/// `** Idle timeout: no input for <secs>s, disconnecting.`
pub open spec fn idle_timeout(secs: nat) -> Seq<char> {
    "** Idle timeout: no input for "@ + decimal(secs) + "s, disconnecting."@
}

/// Builds `-- <name> joined`.
pub fn joined_line(name: &str) -> (r: String)
    ensures
        r@ == joined(name@),
{
    let mut r = String::from_str("-- ");
    r.append(name);
    r.append(" joined");
    r
}

/// Builds `-- <name> left`.
pub fn left_line(name: &str) -> (r: String)
    ensures
        r@ == left(name@),
{
    let mut r = String::from_str("-- ");
    r.append(name);
    r.append(" left");
    r
}

/// Builds `-- <old> -> <new>`.
pub fn renamed_line(old_name: &str, new_name: &str) -> (r: String)
    ensures
        r@ == renamed(old_name@, new_name@),
{
    let mut r = String::from_str("-- ");
    r.append(old_name);
    r.append(" -> ");
    r.append(new_name);
    r
}

/// Builds `[<name>] <text>`.
pub fn chat_line(name: &str, text: &str) -> (r: String)
    ensures
        r@ == chat(name@, text@),
{
    let mut r = String::from_str("[");
    r.append(name);
    r.append("] ");
    r.append(text);
    r
}

/// Builds `[whisper from <name>] <text>`.
pub fn whisper_from_line(name: &str, text: &str) -> (r: String)
    ensures
        r@ == whisper_from(name@, text@),
{
    let mut r = String::from_str("[whisper from ");
    r.append(name);
    r.append("] ");
    r.append(text);
    r
}

/// Builds `[whisper to <name>] <text>`.
pub fn whisper_to_line(name: &str, text: &str) -> (r: String)
    ensures
        r@ == whisper_to(name@, text@),
{
    let mut r = String::from_str("[whisper to ");
    r.append(name);
    r.append("] ");
    r.append(text);
    r
}

/// Builds `[history] <line>`.
pub fn history_replay_line(line: &str) -> (r: String)
    ensures
        r@ == history_line(line@),
{
    let mut r = String::from_str("[history] ");
    r.append(line);
    r
}

/// Builds `** Nick '<nick>' is taken`.
pub fn nick_taken_line(nick: &str) -> (r: String)
    ensures
        r@ == nick_taken(nick@),
{
    let mut r = String::from_str("** Nick '");
    r.append(nick);
    r.append("' is taken");
    r
}

/// Builds `** Nick '<nick>' is taken. You are <name>`.
pub fn nick_replaced_line(nick: &str, name: &str) -> (r: String)
    ensures
        r@ == nick_replaced(nick@, name@),
{
    let mut r = String::from_str("** Nick '");
    r.append(nick);
    r.append("' is taken. You are ");
    r.append(name);
    r
}

/// Builds `** User '<name>' not found`.
pub fn user_not_found_line(name: &str) -> (r: String)
    ensures
        r@ == user_not_found(name@),
{
    let mut r = String::from_str("** User '");
    r.append(name);
    r.append("' not found");
    r
}

/// Builds `** Idle timeout: no input for <secs>s, disconnecting.`.
pub fn idle_timeout_line(secs: u64) -> (r: String)
    ensures
        r@ == idle_timeout(secs as nat),
{
    let mut r = String::from_str("** Idle timeout: no input for ");
    let d = decimal_string(secs);
    r.append(d.as_str());
    r.append("s, disconnecting.");
    r
}

} // verus!
