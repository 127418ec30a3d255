//! The three concrete conventions and their component iterators.

use vstd::prelude::*;
use vstd::string::StrSliceExecFns;
use vstd::string::StringExecFns;
use crate::{Case, DefiningCase};
use crate::model::{
    camel_built, camel_components, camel_piece, camel_pieces, camel_split, delim_built,
    delim_components, delim_split, find_delim, find_upper, join_with, lemma_camel_split,
    lemma_delim_split, lowered,
};
use crate::text::{is_uppercase_char, lower_of, push_char, to_lowercase, to_uppercase};

verus! {

/// The position of the first uppercase character at or after `from`, or the
/// character length of `s` if there is none.
fn scan_upper(s: &str, from: usize) -> (r: usize)
    requires
        from as int <= s@.len(),
    ensures
        r as int <= s@.len(),
        find_upper(s@, from as int) == (if (r as int) < s@.len() {
            Some(r as int)
        } else {
            None::<int>
        }),
{
    let n = s.unicode_len();
    let mut i = from;
    while i < n
        invariant
            from <= i <= n,
            n as int == s@.len(),
            find_upper(s@, from as int) == find_upper(s@, i as int),
        decreases n - i,
    {
        let c = s.get_char(i);
        if is_uppercase_char(c) {
            proof {
                assert(find_upper(s@, i as int) == Some(i as int));
            }
            return i;
        }
        proof {
            assert(find_upper(s@, i as int) == find_upper(s@, i as int + 1));
        }
        i += 1;
    }
    proof {
        assert(find_upper(s@, n as int) is None);
    }
    n
}

/// The position of the first occurrence of `d` at or after `from`, or the
/// character length of `s` if there is none.
fn scan_delim(s: &str, d: char, from: usize) -> (r: usize)
    requires
        from as int <= s@.len(),
    ensures
        r as int <= s@.len(),
        find_delim(s@, d, from as int) == (if (r as int) < s@.len() {
            Some(r as int)
        } else {
            None::<int>
        }),
{
    let n = s.unicode_len();
    let mut i = from;
    while i < n
        invariant
            from <= i <= n,
            n as int == s@.len(),
            find_delim(s@, d, from as int) == find_delim(s@, d, i as int),
        decreases n - i,
    {
        let c = s.get_char(i);
        if c == d {
            proof {
                assert(find_delim(s@, d, i as int) == Some(i as int));
            }
            return i;
        }
        proof {
            assert(find_delim(s@, d, i as int) == find_delim(s@, d, i as int + 1));
        }
        i += 1;
    }
    proof {
        assert(find_delim(s@, d, n as int) is None);
    }
    n
}

/// Lazy, finite, non-restartable sequence of the components the camel rule
/// finds: each step ends before the next uppercase character, where the scan
/// skips the very first position of what is left.
#[derive(Clone, Copy)]
pub struct CamelIterator<'a> {
    src: &'a str,
}

impl<'a> CamelIterator<'a> {
    /// The text not yet consumed.
    pub closed spec fn remaining(&self) -> Seq<char> {
        self.src@
    }

    pub fn new(src: &'a str) -> (it: CamelIterator<'a>)
        ensures
            it.remaining() == src@,
    {
        CamelIterator { src }
    }

    /// The next component, or `None` once the text is exhausted.
    pub fn next(&mut self) -> (r: Option<&'a str>)
        ensures
            old(self).remaining().len() == 0 ==> r is None && final(self).remaining()
                == old(self).remaining(),
            old(self).remaining().len() > 0 ==> (r matches Some(c) && c@ == camel_split(
                old(self).remaining(),
            ).0 && final(self).remaining() == camel_split(old(self).remaining()).1),
    {
        if self.src.is_empty() {
            None
        } else {
            let n = self.src.unicode_len();
            let idx = scan_upper(self.src, 1);
            let component = self.src.substring_char(0, idx);
            let rest = self.src.substring_char(idx, n);
            proof {
                let s = old(self).remaining();
                if idx as int == s.len() {
                    assert(component@ =~= camel_split(s).0);
                    assert(rest@ =~= camel_split(s).1);
                }
            }
            self.src = rest;
            Some(component)
        }
    }
}

/// Lazy, finite, non-restartable sequence of the components a delimited rule
/// finds: each step ends before the next delimiter, which is consumed with it.
#[derive(Clone, Copy)]
pub struct DelimeterIterator<'a> {
    delimeter: char,
    src: &'a str,
}

impl<'a> DelimeterIterator<'a> {
    /// The text not yet consumed.
    pub closed spec fn remaining(&self) -> Seq<char> {
        self.src@
    }

    /// The delimiter this iterator splits at.
    pub closed spec fn delim(&self) -> char {
        self.delimeter
    }

    pub fn new(src: &'a str, delimeter: char) -> (it: DelimeterIterator<'a>)
        ensures
            it.remaining() == src@,
            it.delim() == delimeter,
    {
        DelimeterIterator { delimeter, src }
    }

    /// The next component, or `None` once the text is exhausted.  A delimiter
    /// at the very end of the text is consumed without a trailing empty
    /// component, because the following call sees an empty buffer.
    pub fn next(&mut self) -> (r: Option<&'a str>)
        ensures
            final(self).delim() == old(self).delim(),
            old(self).remaining().len() == 0 ==> r is None && final(self).remaining()
                == old(self).remaining(),
            old(self).remaining().len() > 0 ==> (r matches Some(c) && c@ == delim_split(
                old(self).remaining(),
                old(self).delim(),
            ).0 && final(self).remaining() == delim_split(
                old(self).remaining(),
                old(self).delim(),
            ).1),
    {
        if self.src.is_empty() {
            None
        } else {
            let n = self.src.unicode_len();
            let idx = scan_delim(self.src, self.delimeter, 0);
            let component = self.src.substring_char(0, idx);
            let rest = if idx < n {
                self.src.substring_char(idx + 1, n)
            } else {
                self.src.substring_char(n, n)
            };
            proof {
                let s = old(self).remaining();
                if idx as int == s.len() {
                    assert(component@ =~= delim_split(s, old(self).delim()).0);
                    assert(rest@ =~= delim_split(s, old(self).delim()).1);
                }
            }
            self.src = rest;
            Some(component)
        }
    }
}

/// Decompose `src` in full under the camel rule.
fn camel_components_of(src: &str) -> (r: Vec<String>)
    ensures
        r.deep_view() == camel_components(src@),
{
    let mut it = CamelIterator::new(src);
    let mut out: Vec<String> = Vec::new();
    let mut done = false;
    proof {
        assert(out.deep_view() =~= Seq::<Seq<char>>::empty());
    }
    while !done
        invariant
            done ==> it.remaining().len() == 0,
            out.deep_view() + camel_components(it.remaining()) == camel_components(src@),
        decreases it.remaining().len() + (if done {
            0int
        } else {
            1int
        }),
    {
        let ghost pre = out.deep_view();
        let ghost rem = it.remaining();
        match it.next() {
            Some(c) => {
                out.push(String::from_str(c));
                proof {
                    lemma_camel_split(rem);
                    assert(out.deep_view() =~= pre.push(c@));
                    assert(pre.push(c@) + camel_components(it.remaining()) =~= pre + (seq![c@]
                        + camel_components(it.remaining())));
                }
            },
            None => {
                done = true;
            },
        }
    }
    out
}

/// Decompose `src` in full under the delimited rule with delimiter `d`.
fn delim_components_of(src: &str, d: char) -> (r: Vec<String>)
    ensures
        r.deep_view() == delim_components(src@, d),
{
    let mut it = DelimeterIterator::new(src, d);
    let mut out: Vec<String> = Vec::new();
    let mut done = false;
    proof {
        assert(out.deep_view() =~= Seq::<Seq<char>>::empty());
    }
    while !done
        invariant
            it.delim() == d,
            done ==> it.remaining().len() == 0,
            out.deep_view() + delim_components(it.remaining(), d) == delim_components(src@, d),
        decreases it.remaining().len() + (if done {
            0int
        } else {
            1int
        }),
    {
        let ghost pre = out.deep_view();
        let ghost rem = it.remaining();
        match it.next() {
            Some(c) => {
                out.push(String::from_str(c));
                proof {
                    lemma_delim_split(rem, d);
                    assert(out.deep_view() =~= pre.push(c@));
                    assert(pre.push(c@) + delim_components(it.remaining(), d) =~= pre + (seq![c@]
                        + delim_components(it.remaining(), d)));
                }
            },
            None => {
                done = true;
            },
        }
    }
    out
}

/// Join components under the camel rule: the first lowercased in full, every
/// later one with only its first character uppercased and the remainder kept
/// exactly as found.
fn camel_build(components: &Vec<String>) -> (r: String)
    ensures
        r@ == camel_built(components.deep_view()),
{
    let ghost cs = components.deep_view();
    if components.len() == 0 {
        String::new()
    } else {
        let mut buf = to_lowercase(components[0].as_str());
        let mut k: usize = 1;
        proof {
            assert(cs.subrange(1, 1) =~= Seq::<Seq<char>>::empty());
        }
        while k < components.len()
            invariant
                1 <= k <= components.len(),
                cs == components.deep_view(),
                cs.len() == components.len(),
                buf@ == lower_of(cs[0]) + camel_pieces(cs.subrange(1, k as int)),
            decreases components.len() - k,
        {
            let comp = &components[k];
            let n = comp.as_str().unicode_len();
            if n > 0 {
                let first = comp.as_str().substring_char(0, 1);
                let upper = to_uppercase(first);
                buf.append(upper.as_str());
                let rest = comp.as_str().substring_char(1, n);
                buf.append(rest);
            }
            proof {
                assert(cs.subrange(1, k as int + 1).drop_last() =~= cs.subrange(1, k as int));
                assert(cs.subrange(1, k as int + 1).last() == cs[k as int]);
                assert(comp@ == cs[k as int]);
                if comp@.len() > 0 {
                    assert(comp@.subrange(1, comp@.len() as int) =~= cs[k as int].skip(1));
                    assert(buf@ =~= lower_of(cs[0]) + camel_pieces(cs.subrange(1, k as int + 1)));
                } else {
                    assert(camel_piece(cs[k as int]) =~= Seq::<char>::empty());
                    assert(buf@ =~= lower_of(cs[0]) + camel_pieces(cs.subrange(1, k as int + 1)));
                }
            }
            k += 1;
        }
        proof {
            assert(cs.subrange(1, cs.len() as int) =~= cs.skip(1));
        }
        buf
    }
}

/// Join components under a delimited rule: every component lowercased in
/// full, one delimiter between neighbours, none at either end.
fn delim_build(components: &Vec<String>, d: char) -> (r: String)
    ensures
        r@ == delim_built(components.deep_view(), d),
{
    let ghost cs = components.deep_view();
    let mut buf = String::new();
    let mut k: usize = 0;
    proof {
        assert(lowered(cs).subrange(0, 0) =~= Seq::<Seq<char>>::empty());
    }
    while k < components.len()
        invariant
            0 <= k <= components.len(),
            cs == components.deep_view(),
            cs.len() == components.len(),
            buf@ == join_with(lowered(cs).subrange(0, k as int), d),
        decreases components.len() - k,
    {
        if k > 0 {
            push_char(&mut buf, d);
        }
        let low = to_lowercase(components[k].as_str());
        buf.append(low.as_str());
        proof {
            assert(lowered(cs).subrange(0, k as int + 1).drop_last() =~= lowered(cs).subrange(
                0,
                k as int,
            ));
            assert(lowered(cs).subrange(0, k as int + 1).last() == lower_of(cs[k as int]));
            if k == 0 {
                assert(buf@ =~= join_with(lowered(cs).subrange(0, k as int + 1), d));
            } else {
                assert(buf@ =~= join_with(lowered(cs).subrange(0, k as int), d) + seq![d]
                    + lower_of(cs[k as int]));
                assert(buf@ =~= join_with(lowered(cs).subrange(0, k as int + 1), d));
            }
        }
        k += 1;
    }
    proof {
        assert(lowered(cs).subrange(0, lowered(cs).len() as int) =~= lowered(cs));
    }
    buf
}

/// The camel convention: no delimiter; component boundaries are inferred from
/// letter casing.
pub struct Camel {}

impl Camel {
    /// A lazy component sequence over `src` under the camel rule.
    pub fn components_iter<'a>(self, src: &'a str) -> (it: CamelIterator<'a>)
        ensures
            it.remaining() == src@,
    {
        CamelIterator::new(src)
    }
}

impl DefiningCase for Camel {
    open spec fn components_spec(&self, s: Seq<char>) -> Seq<Seq<char>> {
        camel_components(s)
    }

    fn components(&self, src: &str) -> (r: Vec<String>) {
        camel_components_of(src)
    }
}

impl Case for Camel {
    open spec fn built_spec(&self, cs: Seq<Seq<char>>) -> Seq<char> {
        camel_built(cs)
    }

    fn build_identifier(&self, components: &Vec<String>) -> (r: String) {
        camel_build(components)
    }
}

/// A convention that separates components with one fixed delimiter character.
pub trait DelimetedCase {
    /// The delimiter character, for contracts.
    spec fn delimeter_spec() -> char;

    /// The single character that separates this convention's components.
    fn delimeter() -> (c: char)
        ensures
            c == Self::delimeter_spec(),
    ;
}

/// The snake convention: components separated by `_`.
pub struct Snake {}

impl DelimetedCase for Snake {
    open spec fn delimeter_spec() -> char {
        '_'
    }

    fn delimeter() -> (c: char) {
        '_'
    }
}

impl Snake {
    /// A lazy component sequence over `src` under the snake rule.
    pub fn components_iter<'a>(self, src: &'a str) -> (it: DelimeterIterator<'a>)
        ensures
            it.remaining() == src@,
            it.delim() == Snake::delimeter_spec(),
    {
        DelimeterIterator::new(src, Snake::delimeter())
    }
}

impl DefiningCase for Snake {
    open spec fn components_spec(&self, s: Seq<char>) -> Seq<Seq<char>> {
        delim_components(s, Snake::delimeter_spec())
    }

    fn components(&self, src: &str) -> (r: Vec<String>) {
        delim_components_of(src, Snake::delimeter())
    }
}

impl Case for Snake {
    open spec fn built_spec(&self, cs: Seq<Seq<char>>) -> Seq<char> {
        delim_built(cs, Snake::delimeter_spec())
    }

    fn build_identifier(&self, components: &Vec<String>) -> (r: String) {
        delim_build(components, Snake::delimeter())
    }
}

/// The kebab convention: components separated by `-`.
pub struct Kebab {}

impl DelimetedCase for Kebab {
    open spec fn delimeter_spec() -> char {
        '-'
    }

    fn delimeter() -> (c: char) {
        '-'
    }
}

impl Kebab {
    /// A lazy component sequence over `src` under the kebab rule.
    pub fn components_iter<'a>(self, src: &'a str) -> (it: DelimeterIterator<'a>)
        ensures
            it.remaining() == src@,
            it.delim() == Kebab::delimeter_spec(),
    {
        DelimeterIterator::new(src, Kebab::delimeter())
    }
}

impl DefiningCase for Kebab {
    open spec fn components_spec(&self, s: Seq<char>) -> Seq<Seq<char>> {
        delim_components(s, Kebab::delimeter_spec())
    }

    fn components(&self, src: &str) -> (r: Vec<String>) {
        delim_components_of(src, Kebab::delimeter())
    }
}

impl Case for Kebab {
    open spec fn built_spec(&self, cs: Seq<Seq<char>>) -> Seq<char> {
        delim_built(cs, Kebab::delimeter_spec())
    }

    fn build_identifier(&self, components: &Vec<String>) -> (r: String) {
        delim_build(components, Kebab::delimeter())
    }
}

} // verus!
