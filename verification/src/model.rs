//! The mathematical model of parsing and building.
//!
//! Every convention is described here as a pair of functions over `Seq<char>`:
//! a split of the buffer into the next component and the rest, iterated to a
//! component sequence, and a join of a component sequence back to text.

use vstd::prelude::*;
use crate::text::{is_upper_char, lower_of, upper_of};

verus! {

/// The first position at or after `from` holding an uppercase character.
pub open spec fn find_upper(s: Seq<char>, from: int) -> Option<int>
    decreases s.len() - from,
{
    if from >= s.len() {
        None
    } else if is_upper_char(s[from]) {
        Some(from)
    } else {
        find_upper(s, from + 1)
    }
}

/// The first position at or after `from` holding the delimiter `d`.
pub open spec fn find_delim(s: Seq<char>, d: char, from: int) -> Option<int>
    decreases s.len() - from,
{
    if from >= s.len() {
        None
    } else if s[from] == d {
        Some(from)
    } else {
        find_delim(s, d, from + 1)
    }
}

pub proof fn lemma_find_upper(s: Seq<char>, from: int)
    requires
        0 <= from,
    ensures
        match find_upper(s, from) {
            Some(i) => from <= i < s.len() && is_upper_char(s[i]) && (forall|j: int|
                from <= j < i ==> !is_upper_char(s[j])),
            None => forall|j: int| from <= j < s.len() ==> !is_upper_char(s[j]),
        },
    decreases s.len() - from,
{
    if from >= s.len() {
    } else if is_upper_char(s[from]) {
    } else {
        lemma_find_upper(s, from + 1);
    }
}

pub proof fn lemma_find_delim(s: Seq<char>, d: char, from: int)
    requires
        0 <= from,
    ensures
        match find_delim(s, d, from) {
            Some(i) => from <= i < s.len() && s[i] == d && (forall|j: int|
                from <= j < i ==> s[j] != d),
            None => forall|j: int| from <= j < s.len() ==> s[j] != d,
        },
    decreases s.len() - from,
{
    if from >= s.len() {
    } else if s[from] == d {
    } else {
        lemma_find_delim(s, d, from + 1);
    }
}

/// The camel rule's next component and the rest of the buffer: the scan for an
/// uppercase character skips position 0, so a leading uppercase letter belongs
/// to the first component.  Meaningful only for a non-empty buffer.
pub open spec fn camel_split(s: Seq<char>) -> (Seq<char>, Seq<char>) {
    match find_upper(s, 1) {
        Some(i) => (s.subrange(0, i), s.subrange(i, s.len() as int)),
        None => (s, Seq::empty()),
    }
}

/// The delimited rule's next component and the rest of the buffer: the rest
/// starts past the delimiter.  Meaningful only for a non-empty buffer.
pub open spec fn delim_split(s: Seq<char>, d: char) -> (Seq<char>, Seq<char>) {
    match find_delim(s, d, 0) {
        Some(i) => (s.subrange(0, i), s.subrange(i + 1, s.len() as int)),
        None => (s, Seq::empty()),
    }
}

pub proof fn lemma_camel_split(s: Seq<char>)
    requires
        s.len() > 0,
    ensures
        camel_split(s).1.len() < s.len(),
        camel_split(s).0.len() > 0,
        camel_split(s).0 + camel_split(s).1 == s,
{
    lemma_find_upper(s, 1);
    match find_upper(s, 1) {
        Some(i) => {
            assert(s.subrange(0, i) + s.subrange(i, s.len() as int) =~= s);
        },
        None => {
            assert(s + Seq::<char>::empty() =~= s);
        },
    }
}

pub proof fn lemma_delim_split(s: Seq<char>, d: char)
    requires
        s.len() > 0,
    ensures
        delim_split(s, d).1.len() < s.len(),
        match find_delim(s, d, 0) {
            Some(i) => delim_split(s, d).0 + seq![d] + delim_split(s, d).1 == s,
            None => delim_split(s, d).0 == s && delim_split(s, d).1 == Seq::<char>::empty(),
        },
{
    lemma_find_delim(s, d, 0);
    match find_delim(s, d, 0) {
        Some(i) => {
            assert(s.subrange(0, i) + seq![d] + s.subrange(i + 1, s.len() as int) =~= s);
        },
        None => {},
    }
}

/// All components the camel rule finds in `s`, in order.
pub open spec fn camel_components(s: Seq<char>) -> Seq<Seq<char>>
    decreases s.len(),
{
    if s.len() == 0 {
        Seq::empty()
    } else {
        proof {
            lemma_camel_split(s);
        }
        seq![camel_split(s).0] + camel_components(camel_split(s).1)
    }
}

/// All components the delimited rule with delimiter `d` finds in `s`, in
/// order.  A delimiter at the very end of the buffer leaves an empty rest, so
/// it yields no trailing empty component.
pub open spec fn delim_components(s: Seq<char>, d: char) -> Seq<Seq<char>>
    decreases s.len(),
{
    if s.len() == 0 {
        Seq::empty()
    } else {
        proof {
            lemma_delim_split(s, d);
        }
        seq![delim_split(s, d).0] + delim_components(delim_split(s, d).1, d)
    }
}

/// The components concatenated in order, with nothing between them.
pub open spec fn concat_all(cs: Seq<Seq<char>>) -> Seq<char>
    decreases cs.len(),
{
    if cs.len() == 0 {
        Seq::empty()
    } else {
        concat_all(cs.drop_last()) + cs.last()
    }
}

/// The components joined in order with `d` between neighbours, with no leading
/// or trailing delimiter.
pub open spec fn join_with(cs: Seq<Seq<char>>, d: char) -> Seq<char>
    decreases cs.len(),
{
    if cs.len() == 0 {
        Seq::empty()
    } else if cs.len() == 1 {
        cs[0]
    } else {
        join_with(cs.drop_last(), d) + seq![d] + cs.last()
    }
}

/// One non-initial component as the camel builder renders it: the first
/// character uppercased, the remainder kept exactly as found.
pub open spec fn camel_piece(c: Seq<char>) -> Seq<char> {
    if c.len() == 0 {
        Seq::empty()
    } else {
        upper_of(c.subrange(0, 1)) + c.skip(1)
    }
}

/// The non-initial components as the camel builder renders them, concatenated.
pub open spec fn camel_pieces(cs: Seq<Seq<char>>) -> Seq<char>
    decreases cs.len(),
{
    if cs.len() == 0 {
        Seq::empty()
    } else {
        camel_pieces(cs.drop_last()) + camel_piece(cs.last())
    }
}

/// The identifier the camel builder makes: the first component lowercased in
/// full, every later component rendered as a camel piece.
pub open spec fn camel_built(cs: Seq<Seq<char>>) -> Seq<char> {
    if cs.len() == 0 {
        Seq::empty()
    } else {
        lower_of(cs[0]) + camel_pieces(cs.skip(1))
    }
}

/// Every component lowercased in full.
pub open spec fn lowered(cs: Seq<Seq<char>>) -> Seq<Seq<char>> {
    cs.map_values(|c: Seq<char>| lower_of(c))
}

/// The identifier a delimited builder with delimiter `d` makes: every
/// component lowercased in full, then joined with `d`.
pub open spec fn delim_built(cs: Seq<Seq<char>>, d: char) -> Seq<char> {
    join_with(lowered(cs), d)
}

} // verus!
