//! What each operating system's own tools print, and the arguments they take.
//!
//! The tools are run by the application; the three modules here read their
//! output. Everything that can be done portably lives outside this layer.
pub mod linux;
pub mod macos;
pub mod windows;

use crate::text::{copy_chars, is_text, views};
use vstd::prelude::*;

verus! {

/// The tool a capability depends on, so the doctor can name it precisely.
#[derive(Debug, Clone, Copy)]
pub struct ToolRef {
    pub command: &'static str,
    /// How to obtain it, phrased for the operating system.
    pub remedy: &'static str,
}

/// One entry of the ARP / neighbour table.
#[derive(Debug, Clone)]
pub struct Neighbor {
    /// The IPv4 address, as its 32-bit value.
    pub ip: u32,
    pub mac: String,
}

/// Neighbours as (address, MAC text) pairs.
pub open spec fn neighbors_view(v: Seq<Neighbor>) -> Seq<(u32, Seq<char>)> {
    Seq::new(v.len(), |i: int| (v[i].ip, v[i].mac@))
}

/// An optional character vector by its contents.
pub open spec fn opt_chars(o: Option<Vec<char>>) -> Option<Seq<char>> {
    match o {
        Some(v) => Some(v@),
        None => None,
    }
}

/// The first word equal to `key` from `i` on, and the word after it, if any.
pub open spec fn token_after(t: Seq<Seq<char>>, key: Seq<char>, i: int) -> Option<Seq<char>>
    decreases t.len() - i,
{
    if i < 0 || i >= t.len() {
        None
    } else if t[i] == key {
        if i + 1 < t.len() {
            Some(t[i + 1])
        } else {
            None
        }
    } else {
        token_after(t, key, i + 1)
    }
}

/// The word after the first occurrence of `key` among the words.
pub fn word_after(t: &Vec<Vec<char>>, key: &str) -> (r: Option<Vec<char>>)
    ensures
        opt_chars(r) == token_after(views(t@), key@, 0),
{
    let mut i: usize = 0;
    while i < t.len()
        invariant
            i <= t@.len(),
            token_after(views(t@), key@, 0) == token_after(views(t@), key@, i as int),
        decreases t.len() - i,
    {
        assert(views(t@)[i as int] == t@[i as int]@);
        if is_text(&t[i], key) {
            if i + 1 < t.len() {
                assert(views(t@)[i + 1] == t@[i + 1]@);
                return Some(copy_chars(&t[i + 1]));
            }
            return None;
        }
        i += 1;
    }
    None
}

} // verus!
