//! Small everyday building blocks: identity, options, byte lengths, string
//! growth, calling closures, and a person ordered by age.

use core::cmp::Ordering;

use vstd::prelude::*;
use vstd::utf8::encode_utf8;

use crate::notice::{decimal, decimal_string};

verus! {

/// Hands its argument back.
pub fn echo<T>(x: T) -> (r: T)
    ensures
        r == x,
{
    x
}

/// `Some(num)` when `num` is even.
pub fn find_even(num: i32) -> (r: Option<i32>)
    ensures
        r == (if num % 2 == 0 {
            Some(num)
        } else {
            None
        }),
{
    if num % 2 == 0 {
        Some(num)
    } else {
        None
    }
}

/// The length of `s` in UTF-8 bytes.
pub fn calculate_length(s: &String) -> (r: usize)
    ensures
        r == encode_utf8(s@).len() as usize,
{
    s.as_str().len()
}

/// Appends `!!` to `s`.
pub fn change(s: &mut String)
    ensures
        final(s)@ == old(s)@ + "!!"@,
{
    s.append("!!");
}

/// The longer of two strings by UTF-8 length; the second on a tie.
pub fn longest<'a>(s1: &'a str, s2: &'a str) -> (r: &'a str)
    ensures
        r == (if encode_utf8(s1@).len() as usize > encode_utf8(s2@).len() as usize {
            s1
        } else {
            s2
        }),
{
    if s1.len() > s2.len() {
        s1
    } else {
        s2
    }
}

/// Calls `f` once.
pub fn call_with_fn<F: Fn()>(f: F)
    requires
        f.requires(()),
    ensures
        f.ensures((), ()),
{
    f();
}

/// Calls `f` once, consuming it.
pub fn call_with_fnonce<F: FnOnce()>(f: F)
    requires
        f.requires(()),
    ensures
        f.ensures((), ()),
{
    f();
}

/// A post that borrows its title.
pub struct Post<'a> {
    pub id: u32,
    pub title: &'a str,
}

impl<'a> Post<'a> {
    /// The length of the title in UTF-8 bytes.
    pub fn title_len(&self) -> (r: usize)
        ensures
            r == encode_utf8(self.title@).len() as usize,
    {
        self.title.len()
    }
}

/// A person; two persons compare by age alone.
pub struct Person {
    pub name: String,
    pub age: u32,
}

impl Person {
    /// `<name> (<age>)`.
    pub fn describe(&self) -> (r: String)
        ensures
            r@ == self.name@ + " ("@ + decimal(self.age as nat) + ")"@,
    {
        let mut r = self.name.clone();
        r.append(" (");
        let d = decimal_string(self.age as u64);
        r.append(d.as_str());
        r.append(")");
        r
    }
}

impl PartialEq for Person {
    fn eq(&self, other: &Person) -> (r: bool) {
        self.age == other.age
    }
}

impl vstd::std_specs::cmp::PartialEqSpecImpl for Person {
    open spec fn obeys_eq_spec() -> bool {
        true
    }

    open spec fn eq_spec(&self, other: &Person) -> bool {
        self.age == other.age
    }
}

/// The order of `a` and `b`.
pub open spec fn order_of(a: u32, b: u32) -> Ordering {
    if a < b {
        Ordering::Less
    } else if a > b {
        Ordering::Greater
    } else {
        Ordering::Equal
    }
}

impl PartialOrd for Person {
    fn partial_cmp(&self, other: &Person) -> (r: Option<Ordering>) {
        if self.age < other.age {
            Some(Ordering::Less)
        } else if self.age > other.age {
            Some(Ordering::Greater)
        } else {
            Some(Ordering::Equal)
        }
    }
}

impl vstd::std_specs::cmp::PartialOrdSpecImpl for Person {
    open spec fn obeys_partial_cmp_spec() -> bool {
        true
    }

    open spec fn partial_cmp_spec(&self, other: &Person) -> Option<Ordering> {
        Some(order_of(self.age, other.age))
    }
}

} // verus!
