//! Runtime-selectable conventions: a tagged value standing for one of the
//! three concrete conventions, a convention-guessing heuristic, and the
//! combined parser for identifiers whose components were produced under
//! several conventions at once.

use vstd::prelude::*;
use vstd::string::StrSliceExecFns;
use vstd::string::StringExecFns;
use crate::{convert, Case, DefiningCase};
use crate::case::{Camel, CamelIterator, DelimeterIterator, Kebab, Snake};
use crate::model::{
    camel_built, camel_components, camel_split, delim_built, delim_components, delim_split,
    lemma_camel_split, lemma_delim_split, lemma_find_delim, lemma_find_upper,
};

verus! {

/// Runtime tag standing for one of the three conventions.
#[derive(Clone, Copy, PartialEq, Eq, Structural, Debug)]
pub enum CaseType {
    CAMEL,
    SNAKE,
    KEBAB,
}

/// The components `s` parses to under the convention `ct` stands for.
pub open spec fn case_components(ct: CaseType, s: Seq<char>) -> Seq<Seq<char>> {
    match ct {
        CaseType::CAMEL => camel_components(s),
        CaseType::SNAKE => delim_components(s, '_'),
        CaseType::KEBAB => delim_components(s, '-'),
    }
}

/// The next component and the rest of the buffer under `ct`.
pub open spec fn case_split(ct: CaseType, s: Seq<char>) -> (Seq<char>, Seq<char>) {
    match ct {
        CaseType::CAMEL => camel_split(s),
        CaseType::SNAKE => delim_split(s, '_'),
        CaseType::KEBAB => delim_split(s, '-'),
    }
}

/// The identifier built from `cs` under `ct`.
pub open spec fn case_built(ct: CaseType, cs: Seq<Seq<char>>) -> Seq<char> {
    match ct {
        CaseType::CAMEL => camel_built(cs),
        CaseType::SNAKE => delim_built(cs, '_'),
        CaseType::KEBAB => delim_built(cs, '-'),
    }
}

pub proof fn lemma_case_split(ct: CaseType, s: Seq<char>)
    requires
        s.len() > 0,
    ensures
        case_split(ct, s).1.len() < s.len(),
        case_split(ct, s).0.len() <= s.len(),
        case_components(ct, s) == seq![case_split(ct, s).0] + case_components(ct, case_split(ct, s).1),
{
    match ct {
        CaseType::CAMEL => {
            lemma_camel_split(s);
        },
        CaseType::SNAKE => {
            lemma_delim_split(s, '_');
            lemma_find_delim(s, '_', 0);
        },
        CaseType::KEBAB => {
            lemma_delim_split(s, '-');
            lemma_find_delim(s, '-', 0);
        },
    }
}

/// How many characters behind the winning component the combined parser skips:
/// the delimiter itself for a delimited convention, nothing for camel.
pub open spec fn case_extra(ct: CaseType) -> int {
    match ct {
        CaseType::CAMEL => 0,
        CaseType::SNAKE => 1,
        CaseType::KEBAB => 1,
    }
}

/// Where the buffer of length `buf_len` resumes after a component of length
/// `comp_len` won under `ct`: past the component and `ct`'s delimiter, but
/// never past the end of the buffer.
pub open spec fn advance_of(ct: CaseType, comp_len: int, buf_len: int) -> int {
    if comp_len + case_extra(ct) < buf_len {
        comp_len + case_extra(ct)
    } else {
        buf_len
    }
}

/// Advancing by component length plus delimiter, capped at the buffer's end,
/// lands exactly where the winning convention's own parser would resume.
pub proof fn lemma_case_advance(ct: CaseType, s: Seq<char>)
    requires
        s.len() > 0,
    ensures
        case_split(ct, s).1 == s.subrange(
            advance_of(ct, case_split(ct, s).0.len() as int, s.len() as int),
            s.len() as int,
        ),
{
    match ct {
        CaseType::CAMEL => {
            lemma_find_upper(s, 1);
            if case_split(ct, s).0.len() == s.len() {
                assert(case_split(ct, s).1 =~= s.subrange(s.len() as int, s.len() as int));
            }
        },
        CaseType::SNAKE => {
            lemma_find_delim(s, '_', 0);
            if case_split(ct, s).0.len() == s.len() {
                assert(case_split(ct, s).1 =~= s.subrange(s.len() as int, s.len() as int));
            }
        },
        CaseType::KEBAB => {
            lemma_find_delim(s, '-', 0);
            if case_split(ct, s).0.len() == s.len() {
                assert(case_split(ct, s).1 =~= s.subrange(s.len() as int, s.len() as int));
            }
        },
    }
}

/// The count of components `s` parses to under `ct`.
pub open spec fn count_of(ct: CaseType, s: Seq<char>) -> nat {
    case_components(ct, s).len()
}

/// The convention whose parse of `s` yields the most components.  On a tie the
/// latest of Camel, Snake, Kebab wins, so empty text counts as Kebab.
pub open spec fn guess_spec(s: Seq<char>) -> CaseType {
    let best1 = if count_of(CaseType::SNAKE, s) >= count_of(CaseType::CAMEL, s) {
        CaseType::SNAKE
    } else {
        CaseType::CAMEL
    };
    if count_of(CaseType::KEBAB, s) >= count_of(best1, s) {
        CaseType::KEBAB
    } else {
        best1
    }
}

impl CaseType {
    /// Guess the convention of `s`: parse it in full under each convention and
    /// return the one that finds the most components, the latest of Camel,
    /// Snake, Kebab on a tie.
    pub fn guess(s: &str) -> (r: CaseType)
        ensures
            r == guess_spec(s@),
    {
        let camel_count = Camel {}.components(s).len();
        let snake_count = Snake {}.components(s).len();
        let kebab_count = Kebab {}.components(s).len();
        let mut best = CaseType::CAMEL;
        let mut best_count = camel_count;
        if snake_count >= best_count {
            best = CaseType::SNAKE;
            best_count = snake_count;
        }
        if kebab_count >= best_count {
            best = CaseType::KEBAB;
            best_count = kebab_count;
        }
        best
    }

    /// A lazy component sequence over `src` under this convention.
    pub fn components_iter<'a>(&self, src: &'a str) -> (it: CaseTypeIterator<'a>)
        ensures
            it.remaining() == src@,
            it.split_next() == case_split(*self, src@),
            it.components_of() == case_components(*self, src@),
    {
        match self {
            CaseType::CAMEL => CaseTypeIterator::Camel(Camel {}.components_iter(src)),
            CaseType::SNAKE => CaseTypeIterator::Delimeter(Snake {}.components_iter(src)),
            CaseType::KEBAB => CaseTypeIterator::Delimeter(Kebab {}.components_iter(src)),
        }
    }

    /// Advance `buf` past one winning component (`item`) of this convention,
    /// plus this convention's delimiter, capped at the buffer's end.
    pub fn slice_buffer<'a>(&self, buf: &'a str, item: &str) -> (r: &'a str)
        ensures
            r@ == buf@.subrange(
                advance_of(*self, item@.len() as int, buf@.len() as int),
                buf@.len() as int,
            ),
    {
        let n = buf.unicode_len();
        let l = item.unicode_len();
        let extra: usize = match self {
            CaseType::CAMEL => 0,
            CaseType::SNAKE => 1,
            CaseType::KEBAB => 1,
        };
        let skip = if l < n {
            if l + extra < n {
                l + extra
            } else {
                n
            }
        } else {
            n
        };
        buf.substring_char(skip, n)
    }
}

impl Default for CaseType {
    /// The fallback convention.
    fn default() -> (r: CaseType)
        ensures
            r == CaseType::CAMEL,
    {
        CaseType::CAMEL
    }
}

impl DefiningCase for CaseType {
    open spec fn components_spec(&self, s: Seq<char>) -> Seq<Seq<char>> {
        case_components(*self, s)
    }

    fn components(&self, src: &str) -> (r: Vec<String>) {
        match self {
            CaseType::CAMEL => Camel {}.components(src),
            CaseType::SNAKE => Snake {}.components(src),
            CaseType::KEBAB => Kebab {}.components(src),
        }
    }
}

impl Case for CaseType {
    open spec fn built_spec(&self, cs: Seq<Seq<char>>) -> Seq<char> {
        case_built(*self, cs)
    }

    fn build_identifier(&self, components: &Vec<String>) -> (r: String) {
        match self {
            CaseType::CAMEL => Camel {}.build_identifier(components),
            CaseType::SNAKE => Snake {}.build_identifier(components),
            CaseType::KEBAB => Kebab {}.build_identifier(components),
        }
    }
}

/// Lazy component sequence over text whose convention is known only at
/// runtime.
#[derive(Clone, Copy)]
pub enum CaseTypeIterator<'a> {
    Camel(CamelIterator<'a>),
    Delimeter(DelimeterIterator<'a>),
}

impl<'a> CaseTypeIterator<'a> {
    /// The text not yet consumed.
    pub closed spec fn remaining(&self) -> Seq<char> {
        match self {
            CaseTypeIterator::Camel(it) => it.remaining(),
            CaseTypeIterator::Delimeter(it) => it.remaining(),
        }
    }

    /// The split the next call performs on what is left.
    pub closed spec fn split_next(&self) -> (Seq<char>, Seq<char>) {
        match self {
            CaseTypeIterator::Camel(it) => camel_split(it.remaining()),
            CaseTypeIterator::Delimeter(it) => delim_split(it.remaining(), it.delim()),
        }
    }

    /// All components the remaining text still holds.
    pub closed spec fn components_of(&self) -> Seq<Seq<char>> {
        match self {
            CaseTypeIterator::Camel(it) => camel_components(it.remaining()),
            CaseTypeIterator::Delimeter(it) => delim_components(it.remaining(), it.delim()),
        }
    }

    /// The next component, or `None` once the text is exhausted.
    pub fn next(&mut self) -> (r: Option<&'a str>)
        ensures
            old(self).remaining().len() == 0 ==> r is None && final(self).components_of()
                == old(self).components_of(),
            old(self).remaining().len() > 0 ==> (r matches Some(c)
                && c@ == old(self).split_next().0
                && final(self).remaining() == old(self).split_next().1
                && old(self).components_of() == seq![c@] + final(self).components_of()),
    {
        proof {
            if old(self).remaining().len() > 0 {
                match *old(self) {
                    CaseTypeIterator::Camel(it) => lemma_camel_split(it.remaining()),
                    CaseTypeIterator::Delimeter(it) => lemma_delim_split(
                        it.remaining(),
                        it.delim(),
                    ),
                }
            }
        }
        match *self {
            CaseTypeIterator::Camel(mut it) => {
                let r = it.next();
                *self = CaseTypeIterator::Camel(it);
                r
            },
            CaseTypeIterator::Delimeter(mut it) => {
                let r = it.next();
                *self = CaseTypeIterator::Delimeter(it);
                r
            },
        }
    }
}

/// All conventions, in the fixed order the combined parser considers them:
/// Camel, Snake, Kebab.
pub open spec fn all_cases() -> Seq<CaseType> {
    seq![CaseType::CAMEL, CaseType::SNAKE, CaseType::KEBAB]
}

/// The all-conventions candidate list, the default for unjumbling.
pub fn jumbled() -> (r: Vec<CaseType>)
    ensures
        r@ == all_cases(),
{
    let mut v: Vec<CaseType> = Vec::new();
    v.push(CaseType::CAMEL);
    v.push(CaseType::SNAKE);
    v.push(CaseType::KEBAB);
    proof {
        assert(v@ =~= all_cases());
    }
    v
}

/// One combined-parser step on `s`: every candidate offers its next component,
/// the strictly shortest wins, and on a tie of lengths the latest candidate in
/// the list wins.  `None` once the text or the candidate list is empty.
pub open spec fn combined_pick(cands: Seq<CaseType>, s: Seq<char>) -> Option<
    (CaseType, Seq<char>, Seq<char>),
>
    decreases cands.len(),
{
    if s.len() == 0 || cands.len() == 0 {
        None
    } else {
        let ct = cands.last();
        let comp = case_split(ct, s).0;
        let rest = case_split(ct, s).1;
        match combined_pick(cands.drop_last(), s) {
            None => Some((ct, comp, rest)),
            Some((bct, bcomp, brest)) => if comp.len() <= bcomp.len() {
                Some((ct, comp, rest))
            } else {
                Some((bct, bcomp, brest))
            },
        }
    }
}

pub proof fn lemma_combined_pick(cands: Seq<CaseType>, s: Seq<char>)
    ensures
        match combined_pick(cands, s) {
            Some((ct, comp, rest)) => {
                &&& s.len() > 0
                &&& cands.contains(ct)
                &&& comp == case_split(ct, s).0
                &&& rest == case_split(ct, s).1
                &&& rest.len() < s.len()
            },
            None => s.len() == 0 || cands.len() == 0,
        },
    decreases cands.len(),
{
    if s.len() == 0 || cands.len() == 0 {
    } else {
        lemma_combined_pick(cands.drop_last(), s);
        lemma_case_split(cands.last(), s);
        assert(cands[cands.len() - 1] == cands.last());
        match combined_pick(cands.drop_last(), s) {
            Some((bct, bcomp, brest)) => {
                let j = choose|j: int|
                    0 <= j < cands.drop_last().len() && cands.drop_last()[j] == bct;
                assert(cands[j] == bct);
            },
            None => {},
        }
    }
}

/// All components the combined parser draws from `s` with the candidate list
/// `cands`, in order.
pub open spec fn combined_components(cands: Seq<CaseType>, s: Seq<char>) -> Seq<Seq<char>>
    decreases s.len(),
{
    match combined_pick(cands, s) {
        None => Seq::empty(),
        Some((ct, comp, rest)) => {
            proof {
                lemma_combined_pick(cands, s);
            }
            seq![comp] + combined_components(cands, rest)
        },
    }
}

/// Lazy component sequence of the combined parser: each step asks every
/// candidate convention for its next component and takes the shortest, the
/// latest candidate on a tie of lengths, then advances past the component and
/// the winner's delimiter, never past the end of the buffer.
pub struct CombinedCaseIterator<'s> {
    cases: Vec<CaseType>,
    buffer: &'s str,
}

impl<'s> CombinedCaseIterator<'s> {
    /// The candidate conventions, in order.
    pub closed spec fn candidates(&self) -> Seq<CaseType> {
        self.cases@
    }

    /// The text not yet consumed.
    pub closed spec fn remaining(&self) -> Seq<char> {
        self.buffer@
    }

    pub fn new(cases: Vec<CaseType>, buffer: &'s str) -> (it: CombinedCaseIterator<'s>)
        ensures
            it.candidates() == cases@,
            it.remaining() == buffer@,
    {
        CombinedCaseIterator { cases, buffer }
    }

    /// The next component, or `None` once the text is exhausted.
    pub fn next(&mut self) -> (r: Option<&'s str>)
        ensures
            final(self).candidates() == old(self).candidates(),
            (match combined_pick(old(self).candidates(), old(self).remaining()) {
                None => r is None && final(self).remaining() == old(self).remaining(),
                Some((ct, comp, rest)) => r matches Some(c) && c@ == comp
                    && final(self).remaining() == rest,
            }),
    {
        let ghost cands = self.cases@;
        let ghost buf = self.buffer@;
        let mut best: Option<(CaseType, &'s str)> = None;
        let mut best_len: usize = 0;
        let mut i: usize = 0;
        while i < self.cases.len()
            invariant
                i <= self.cases.len(),
                self.cases@ == cands,
                self.buffer@ == buf,
                (match combined_pick(cands.subrange(0, i as int), buf) {
                    None => best is None,
                    Some((bct, bcomp, brest)) => best matches Some((ct2, c2)) && ct2 == bct && c2@
                        == bcomp && best_len == bcomp.len(),
                }),
            decreases self.cases.len() - i,
        {
            let ct = self.cases[i];
            let mut cit = ct.components_iter(self.buffer);
            let item = cit.next();
            proof {
                assert(cands.subrange(0, i as int + 1).drop_last() =~= cands.subrange(0, i as int));
                assert(cands.subrange(0, i as int + 1).last() == cands[i as int]);
            }
            match item {
                Some(c) => {
                    let l = c.unicode_len();
                    match best {
                        None => {
                            best = Some((ct, c));
                            best_len = l;
                        },
                        Some(_) => {
                            if l <= best_len {
                                best = Some((ct, c));
                                best_len = l;
                            }
                        },
                    }
                },
                None => {},
            }
            i += 1;
        }
        proof {
            assert(cands.subrange(0, cands.len() as int) =~= cands);
        }
        match best {
            None => None,
            Some((ct, item)) => {
                proof {
                    lemma_combined_pick(cands, buf);
                    lemma_case_advance(ct, buf);
                }
                let new_buffer = ct.slice_buffer(self.buffer, item);
                self.buffer = new_buffer;
                Some(item)
            },
        }
    }
}

impl DefiningCase for Vec<CaseType> {
    open spec fn components_spec(&self, s: Seq<char>) -> Seq<Seq<char>> {
        combined_components(self@, s)
    }

    fn components(&self, src: &str) -> (r: Vec<String>) {
        let ghost cands = self@;
        let mut cases: Vec<CaseType> = Vec::new();
        let mut j: usize = 0;
        while j < self.len()
            invariant
                j <= self.len(),
                cases@ == self@.subrange(0, j as int),
            decreases self.len() - j,
        {
            cases.push(self[j]);
            proof {
                assert(cases@ =~= self@.subrange(0, j as int + 1));
            }
            j += 1;
        }
        proof {
            assert(self@.subrange(0, self@.len() as int) =~= self@);
        }
        let mut it = CombinedCaseIterator::new(cases, src);
        let mut out: Vec<String> = Vec::new();
        let mut done = false;
        proof {
            assert(out.deep_view() =~= Seq::<Seq<char>>::empty());
        }
        while !done
            invariant
                it.candidates() == cands,
                done ==> combined_pick(cands, it.remaining()) is None,
                out.deep_view() + combined_components(cands, it.remaining()) == combined_components(
                    cands,
                    src@,
                ),
            decreases it.remaining().len() + (if done {
                0int
            } else {
                1int
            }),
        {
            let ghost pre = out.deep_view();
            let ghost rem = it.remaining();
            proof {
                lemma_combined_pick(cands, rem);
            }
            match it.next() {
                Some(c) => {
                    out.push(String::from_str(c));
                    proof {
                        assert(out.deep_view() =~= pre.push(c@));
                        assert(pre.push(c@) + combined_components(cands, it.remaining()) =~= pre + (
                        seq![c@] + combined_components(cands, it.remaining())));
                    }
                },
                None => {
                    done = true;
                },
            }
        }
        out
    }
}

/// Decompose `src` with every convention as a candidate at once and re-join
/// the components under `dst_case`.
pub fn unjumble(src: &str, dst_case: CaseType) -> (r: String)
    ensures
        r@ == case_built(dst_case, combined_components(all_cases(), src@)),
{
    convert(src, jumbled(), dst_case)
}

/// Guess the convention of `src`, then convert it to `dst_case`.
pub fn guess_and_convert(src: &str, dst_case: CaseType) -> (r: String)
    ensures
        r@ == case_built(dst_case, case_components(guess_spec(src@), src@)),
{
    let src_case = CaseType::guess(src);
    convert(src, src_case, dst_case)
}

} // verus!
