//! Laws the conventions obey, stated over the model and proved once for every
//! input.

use vstd::prelude::*;
use crate::model::{
    camel_built, camel_components, camel_piece, camel_pieces, camel_split, concat_all,
    delim_built, delim_components, delim_split, find_delim, find_upper, join_with,
    lemma_camel_split, lemma_delim_split, lemma_find_delim, lemma_find_upper, lowered,
};
use crate::dynamic::{
    all_cases, case_built, case_components, case_split, combined_components, combined_pick,
    lemma_case_split, lemma_combined_pick, CaseType,
};
use crate::text::{is_upper_char, lower_of};

verus! {

proof fn lemma_concat_all_first(cs: Seq<Seq<char>>)
    requires
        cs.len() >= 1,
    ensures
        concat_all(cs) == cs[0] + concat_all(cs.skip(1)),
    decreases cs.len(),
{
    if cs.len() == 1 {
        assert(cs.skip(1) =~= Seq::<Seq<char>>::empty());
        assert(cs.drop_last() =~= Seq::<Seq<char>>::empty());
        assert(concat_all(cs) =~= cs[0] + concat_all(cs.skip(1)));
    } else {
        lemma_concat_all_first(cs.drop_last());
        assert(cs.drop_last().skip(1) =~= cs.skip(1).drop_last());
        assert(cs.drop_last()[0] == cs[0]);
        assert(cs.skip(1).last() == cs.last());
        assert((cs[0] + concat_all(cs.skip(1).drop_last())) + cs.last() =~= cs[0] + (concat_all(
            cs.skip(1).drop_last(),
        ) + cs.skip(1).last()));
    }
}

proof fn lemma_join_with_first(cs: Seq<Seq<char>>, d: char)
    requires
        cs.len() >= 2,
    ensures
        join_with(cs, d) == cs[0] + seq![d] + join_with(cs.skip(1), d),
    decreases cs.len(),
{
    if cs.len() == 2 {
        assert(cs.drop_last().len() == 1);
        assert(cs.drop_last()[0] == cs[0]);
        assert(cs.skip(1).len() == 1);
        assert(cs.skip(1)[0] == cs.last());
        assert(join_with(cs.drop_last(), d) == cs[0]);
        assert(join_with(cs.skip(1), d) == cs.last());
        assert(join_with(cs, d) == join_with(cs.drop_last(), d) + seq![d] + cs.last());
    } else {
        lemma_join_with_first(cs.drop_last(), d);
        assert(cs.drop_last().skip(1) =~= cs.skip(1).drop_last());
        assert(cs.drop_last()[0] == cs[0]);
        assert(cs.skip(1).last() == cs.last());
        assert(cs.skip(1).len() >= 2);
        assert((cs[0] + seq![d] + join_with(cs.skip(1).drop_last(), d)) + seq![d] + cs.last() =~= cs[0]
            + seq![d] + (join_with(cs.skip(1).drop_last(), d) + seq![d] + cs.skip(1).last()));
    }
}

/// The camel parse drops and adds nothing: its components concatenated in
/// order are exactly the text.
pub proof fn lemma_camel_concat(t: Seq<char>)
    ensures
        concat_all(camel_components(t)) == t,
    decreases t.len(),
{
    if t.len() == 0 {
        assert(concat_all(camel_components(t)) =~= t);
    } else {
        lemma_camel_split(t);
        lemma_camel_concat(camel_split(t).1);
        let cs = camel_components(t);
        lemma_concat_all_first(cs);
        assert(cs.skip(1) =~= camel_components(camel_split(t).1));
        assert(cs[0] == camel_split(t).0);
        assert(camel_split(t).0 + camel_split(t).1 =~= t);
    }
}

/// The text with one trailing delimiter removed, if it has one.
pub open spec fn strip_trailing(t: Seq<char>, d: char) -> Seq<char> {
    if t.len() > 0 && t.last() == d {
        t.drop_last()
    } else {
        t
    }
}

/// A delimited parse drops and adds nothing but one trailing delimiter: its
/// components re-joined with the delimiter are exactly the text, except that a
/// delimiter at the very end is absorbed.
pub proof fn lemma_delim_join(t: Seq<char>, d: char)
    ensures
        join_with(delim_components(t, d), d) == strip_trailing(t, d),
    decreases t.len(),
{
    if t.len() == 0 {
        assert(join_with(delim_components(t, d), d) =~= t);
    } else {
        lemma_delim_split(t, d);
        lemma_find_delim(t, d, 0);
        let cs = delim_components(t, d);
        let c0 = delim_split(t, d).0;
        let rest = delim_split(t, d).1;
        lemma_delim_join(rest, d);
        match find_delim(t, d, 0) {
            Some(i) => {
                assert(t == c0 + seq![d] + rest);
                assert(t.last() == (c0 + seq![d] + rest).last());
                if rest.len() == 0 {
                    assert(delim_components(rest, d) =~= Seq::<Seq<char>>::empty());
                    assert(cs =~= seq![c0]);
                    assert(join_with(cs, d) == c0);
                    assert(t.last() == d);
                    assert(t.drop_last() =~= c0);
                } else {
                    assert(delim_components(rest, d).len() >= 1);
                    assert(cs.len() >= 2);
                    lemma_join_with_first(cs, d);
                    assert(cs[0] == c0);
                    assert(cs.skip(1) =~= delim_components(rest, d));
                    assert(t.last() == rest.last());
                    if rest.last() == d {
                        assert(t.drop_last() =~= c0 + seq![d] + rest.drop_last());
                    } else {
                        assert(strip_trailing(t, d) == t);
                        assert(c0 + seq![d] + strip_trailing(rest, d) =~= t);
                    }
                }
            },
            None => {
                assert(rest.len() == 0);
                assert(delim_components(rest, d) =~= Seq::<Seq<char>>::empty());
                assert(cs =~= seq![t]);
                assert(join_with(cs, d) == t);
                assert(t[t.len() - 1] != d);
            },
        }
    }
}

/// Non-empty text parses to at least one component under every convention.
pub proof fn lemma_nonempty_parse(ct: CaseType, t: Seq<char>)
    requires
        t.len() > 0,
    ensures
        case_components(ct, t).len() >= 1,
{
    lemma_case_split(ct, t);
}

/// Non-empty text parses to at least one component under the combined parser,
/// whatever non-empty candidate list it was given.
pub proof fn lemma_nonempty_combined_parse(cands: Seq<CaseType>, t: Seq<char>)
    requires
        t.len() > 0,
        cands.len() > 0,
    ensures
        combined_components(cands, t).len() >= 1,
{
    lemma_combined_pick(cands, t);
    assert(combined_pick(cands, t) is Some);
}

/// Empty text parses to zero components under every convention.
pub proof fn lemma_empty_parse(ct: CaseType, t: Seq<char>)
    requires
        t.len() == 0,
    ensures
        case_components(ct, t) == Seq::<Seq<char>>::empty(),
{
    assert(case_components(ct, t) =~= Seq::<Seq<char>>::empty());
}

/// Empty text parses to zero components under the combined parser, whatever
/// candidate list it was given.
pub proof fn lemma_empty_combined_parse(cands: Seq<CaseType>, t: Seq<char>)
    requires
        t.len() == 0,
    ensures
        combined_components(cands, t) == Seq::<Seq<char>>::empty(),
{
    assert(combined_components(cands, t) =~= Seq::<Seq<char>>::empty());
}

proof fn lemma_camel_pieces_fixed(cs: Seq<Seq<char>>)
    requires
        forall|i: int| 0 <= i < cs.len() ==> camel_piece(#[trigger] cs[i]) == cs[i],
    ensures
        camel_pieces(cs) == concat_all(cs),
    decreases cs.len(),
{
    if cs.len() == 0 {
    } else {
        assert forall|i: int| 0 <= i < cs.drop_last().len() implies camel_piece(
            #[trigger] cs.drop_last()[i],
        ) == cs.drop_last()[i] by {
            assert(cs.drop_last()[i] == cs[i]);
        }
        lemma_camel_pieces_fixed(cs.drop_last());
        assert(camel_piece(cs.last()) == cs.last());
    }
}

/// Every component of `t` under `ct` is already in the casing `ct`'s builder
/// would have produced: for camel, the first component equals its own
/// lowercasing and every later one equals its own camel piece; for a delimited
/// convention, every component equals its own lowercasing.
pub open spec fn built_casing(ct: CaseType, t: Seq<char>) -> bool {
    let cs = case_components(ct, t);
    match ct {
        CaseType::CAMEL => (cs.len() > 0 ==> lower_of(cs[0]) == cs[0]) && (forall|i: int|
            1 <= i < cs.len() ==> camel_piece(#[trigger] cs[i]) == cs[i]),
        CaseType::SNAKE => forall|i: int| 0 <= i < cs.len() ==> lower_of(#[trigger] cs[i]) == cs[i],
        CaseType::KEBAB => forall|i: int| 0 <= i < cs.len() ==> lower_of(#[trigger] cs[i]) == cs[i],
    }
}

proof fn lemma_camel_convert_identity(t: Seq<char>)
    requires
        built_casing(CaseType::CAMEL, t),
    ensures
        camel_built(camel_components(t)) == t,
{
    let cs = camel_components(t);
    lemma_camel_concat(t);
    if t.len() == 0 {
        assert(cs =~= Seq::<Seq<char>>::empty());
    } else {
        assert(cs.len() >= 1);
        assert forall|i: int| 0 <= i < cs.skip(1).len() implies camel_piece(
            #[trigger] cs.skip(1)[i],
        ) == cs.skip(1)[i] by {
            assert(cs.skip(1)[i] == cs[i + 1]);
        }
        lemma_camel_pieces_fixed(cs.skip(1));
        lemma_concat_all_first(cs);
    }
}

proof fn lemma_delim_convert_identity(t: Seq<char>, d: char)
    requires
        forall|i: int| 0 <= i < delim_components(t, d).len() ==> lower_of(
            #[trigger] delim_components(t, d)[i],
        ) == delim_components(t, d)[i],
        t.len() > 0 ==> t.last() != d,
    ensures
        delim_built(delim_components(t, d), d) == t,
{
    let cs = delim_components(t, d);
    lemma_delim_join(t, d);
    assert(strip_trailing(t, d) == t);
    assert(lowered(cs) =~= cs);
}

/// Converting text to the very convention it was parsed under returns it
/// unchanged, provided every component is already in the casing the builder
/// produces and, for a delimited convention, the text does not end in the
/// delimiter (a trailing delimiter is absorbed by the parse, so such text can
/// never round-trip).
pub proof fn lemma_convert_identity(ct: CaseType, t: Seq<char>)
    requires
        built_casing(ct, t),
        match ct {
            CaseType::CAMEL => true,
            CaseType::SNAKE => t.len() > 0 ==> t.last() != '_',
            CaseType::KEBAB => t.len() > 0 ==> t.last() != '-',
        },
    ensures
        case_built(ct, case_components(ct, t)) == t,
{
    match ct {
        CaseType::CAMEL => {
            lemma_camel_convert_identity(t);
        },
        CaseType::SNAKE => {
            assert forall|i: int| 0 <= i < delim_components(t, '_').len() implies lower_of(
                #[trigger] delim_components(t, '_')[i],
            ) == delim_components(t, '_')[i] by {
                assert(case_components(ct, t)[i] == delim_components(t, '_')[i]);
            }
            lemma_delim_convert_identity(t, '_');
        },
        CaseType::KEBAB => {
            assert forall|i: int| 0 <= i < delim_components(t, '-').len() implies lower_of(
                #[trigger] delim_components(t, '-')[i],
            ) == delim_components(t, '-')[i] by {
                assert(case_components(ct, t)[i] == delim_components(t, '-')[i]);
            }
            lemma_delim_convert_identity(t, '-');
        },
    }
}

/// A word-component fit for jumbled assembly: non-empty, holding no delimiter
/// character, and holding no uppercase character after its first.
pub open spec fn plain_component(c: Seq<char>) -> bool {
    &&& c.len() > 0
    &&& (forall|j: int| 0 <= j < c.len() ==> (#[trigger] c[j]) != '_' && c[j] != '-')
    &&& (forall|j: int| 1 <= j < c.len() ==> !is_upper_char(#[trigger] c[j]))
}

/// A well-formed mixed scheme: every component is plain, and a component
/// joined under the camel rule is followed by one that starts with an
/// uppercase character, since that is all that marks the boundary.
pub open spec fn mixed_wf(pairs: Seq<(CaseType, Seq<char>)>) -> bool {
    &&& (forall|i: int| 0 <= i < pairs.len() ==> plain_component((#[trigger] pairs[i]).1))
    &&& (forall|i: int|
        0 <= i < pairs.len() - 1 && (#[trigger] pairs[i]).0 == CaseType::CAMEL ==> is_upper_char(
            pairs[i + 1].1[0],
        ))
}

/// What each convention writes after its component inside a jumbled text.
pub open spec fn sep_of(ct: CaseType) -> Seq<char> {
    match ct {
        CaseType::CAMEL => Seq::empty(),
        CaseType::SNAKE => seq!['_'],
        CaseType::KEBAB => seq!['-'],
    }
}

/// The text a mixed scheme assembles: each component followed by its own
/// convention's separator, nothing after the last component.
pub open spec fn mixed_text(pairs: Seq<(CaseType, Seq<char>)>) -> Seq<char>
    decreases pairs.len(),
{
    if pairs.len() == 0 {
        Seq::empty()
    } else if pairs.len() == 1 {
        pairs[0].1
    } else {
        pairs[0].1 + sep_of(pairs[0].0) + mixed_text(pairs.skip(1))
    }
}

proof fn lemma_mixed_text_first(pairs: Seq<(CaseType, Seq<char>)>)
    requires
        pairs.len() >= 1,
    ensures
        mixed_text(pairs).len() >= pairs[0].1.len(),
        forall|j: int| 0 <= j < pairs[0].1.len() ==> mixed_text(pairs)[j] == pairs[0].1[j],
{
    if pairs.len() == 1 {
    } else {
        assert(mixed_text(pairs) == pairs[0].1 + sep_of(pairs[0].0) + mixed_text(pairs.skip(1)));
    }
}

proof fn lemma_camel_min_len(s: Seq<char>, n0: int)
    requires
        0 < n0 <= s.len(),
        forall|j: int| 1 <= j < n0 ==> !is_upper_char(s[j]),
    ensures
        case_split(CaseType::CAMEL, s).0.len() >= n0,
{
    lemma_find_upper(s, 1);
    match find_upper(s, 1) {
        Some(i) => {
            if i < n0 {
                assert(false);
            }
        },
        None => {},
    }
}

proof fn lemma_camel_exact(s: Seq<char>, n0: int)
    requires
        0 < n0 < s.len(),
        forall|j: int| 1 <= j < n0 ==> !is_upper_char(s[j]),
        is_upper_char(s[n0]),
    ensures
        case_split(CaseType::CAMEL, s).0 == s.subrange(0, n0),
        case_split(CaseType::CAMEL, s).1 == s.subrange(n0, s.len() as int),
        case_split(CaseType::CAMEL, s).0.len() == n0,
{
    lemma_find_upper(s, 1);
    match find_upper(s, 1) {
        Some(i) => {
            if i < n0 {
                assert(false);
            }
            if i > n0 {
                assert(!is_upper_char(s[n0]));
                assert(false);
            }
        },
        None => {
            assert(!is_upper_char(s[n0]));
            assert(false);
        },
    }
}

proof fn lemma_delim_min_len(s: Seq<char>, d: char, n0: int)
    requires
        0 <= n0 <= s.len(),
        forall|j: int| 0 <= j < n0 ==> s[j] != d,
    ensures
        delim_split(s, d).0.len() >= n0,
{
    lemma_find_delim(s, d, 0);
    match find_delim(s, d, 0) {
        Some(i) => {
            if i < n0 {
                assert(false);
            }
        },
        None => {},
    }
}

proof fn lemma_delim_strict(s: Seq<char>, d: char, n0: int)
    requires
        0 <= n0 < s.len(),
        forall|j: int| 0 <= j <= n0 ==> s[j] != d,
    ensures
        delim_split(s, d).0.len() > n0,
{
    lemma_find_delim(s, d, 0);
    match find_delim(s, d, 0) {
        Some(i) => {
            if i <= n0 {
                assert(false);
            }
        },
        None => {},
    }
}

proof fn lemma_delim_exact(s: Seq<char>, d: char, n0: int)
    requires
        0 <= n0 < s.len(),
        forall|j: int| 0 <= j < n0 ==> s[j] != d,
        s[n0] == d,
    ensures
        delim_split(s, d).0 == s.subrange(0, n0),
        delim_split(s, d).1 == s.subrange(n0 + 1, s.len() as int),
        delim_split(s, d).0.len() == n0,
{
    lemma_find_delim(s, d, 0);
    match find_delim(s, d, 0) {
        Some(i) => {
            if i < n0 {
                assert(false);
            }
            if i > n0 {
                assert(s[n0] != d);
                assert(false);
            }
        },
        None => {
            assert(s[n0] != d);
            assert(false);
        },
    }
}

proof fn lemma_pick_all(s: Seq<char>)
    requires
        s.len() > 0,
    ensures
        ({
            let camel = case_split(CaseType::CAMEL, s);
            let snake = case_split(CaseType::SNAKE, s);
            let kebab = case_split(CaseType::KEBAB, s);
            combined_pick(all_cases(), s) == (if kebab.0.len() <= snake.0.len() && kebab.0.len()
                <= camel.0.len() {
                Some((CaseType::KEBAB, kebab.0, kebab.1))
            } else if snake.0.len() <= camel.0.len() {
                Some((CaseType::SNAKE, snake.0, snake.1))
            } else {
                Some((CaseType::CAMEL, camel.0, camel.1))
            })
        }),
{
    let camel = case_split(CaseType::CAMEL, s);
    let snake = case_split(CaseType::SNAKE, s);
    let kebab = case_split(CaseType::KEBAB, s);
    let cands = all_cases();
    let two = seq![CaseType::CAMEL, CaseType::SNAKE];
    let one = seq![CaseType::CAMEL];
    assert(cands.drop_last() =~= two);
    assert(two.drop_last() =~= one);
    assert(one.drop_last() =~= Seq::<CaseType>::empty());
    assert(cands.last() == CaseType::KEBAB);
    assert(two.last() == CaseType::SNAKE);
    assert(one.last() == CaseType::CAMEL);
    assert(combined_pick(Seq::<CaseType>::empty(), s) is None);
    assert(combined_pick(one, s) == Some((CaseType::CAMEL, camel.0, camel.1)));
    if snake.0.len() <= camel.0.len() {
        assert(combined_pick(two, s) == Some((CaseType::SNAKE, snake.0, snake.1)));
        if kebab.0.len() <= snake.0.len() {
            assert(combined_pick(cands, s) == Some((CaseType::KEBAB, kebab.0, kebab.1)));
        } else {
            assert(combined_pick(cands, s) == Some((CaseType::SNAKE, snake.0, snake.1)));
        }
    } else {
        assert(combined_pick(two, s) == Some((CaseType::CAMEL, camel.0, camel.1)));
        if kebab.0.len() <= camel.0.len() {
            assert(combined_pick(cands, s) == Some((CaseType::KEBAB, kebab.0, kebab.1)));
        } else {
            assert(combined_pick(cands, s) == Some((CaseType::CAMEL, camel.0, camel.1)));
        }
    }
}

proof fn lemma_mixed_wf_skip(pairs: Seq<(CaseType, Seq<char>)>)
    requires
        mixed_wf(pairs),
        pairs.len() >= 1,
    ensures
        mixed_wf(pairs.skip(1)),
{
    assert forall|i: int| 0 <= i < pairs.skip(1).len() implies plain_component(
        (#[trigger] pairs.skip(1)[i]).1,
    ) by {
        assert(pairs.skip(1)[i] == pairs[i + 1]);
    }
    assert forall|i: int|
        0 <= i < pairs.skip(1).len() - 1 && (#[trigger] pairs.skip(1)[i]).0
            == CaseType::CAMEL implies is_upper_char(pairs.skip(1)[i + 1].1[0]) by {
        assert(pairs.skip(1)[i] == pairs[i + 1]);
        assert(pairs.skip(1)[i + 1] == pairs[i + 2]);
    }
}

proof fn lemma_mixed_pick(pairs: Seq<(CaseType, Seq<char>)>)
    requires
        mixed_wf(pairs),
        pairs.len() >= 1,
    ensures
        combined_pick(all_cases(), mixed_text(pairs)) matches Some((ct, comp, rest)) && comp
            == pairs[0].1 && rest == mixed_text(pairs.skip(1)),
{
    let s = mixed_text(pairs);
    let c0 = pairs[0].1;
    let n0 = c0.len() as int;
    assert(plain_component(c0));
    lemma_mixed_text_first(pairs);
    lemma_pick_all(s);
    if pairs.len() == 1 {
        assert(s == c0);
        assert forall|j: int| 1 <= j < s.len() implies !is_upper_char(s[j]) by {
            assert(s[j] == c0[j]);
        }
        assert forall|j: int| 0 <= j <= s.len() - 1 implies s[j] != '_' && s[j] != '-' by {
            assert(s[j] == c0[j]);
        }
        lemma_camel_min_len(s, n0);
        lemma_delim_min_len(s, '_', n0);
        lemma_delim_min_len(s, '-', n0);
        lemma_find_upper(s, 1);
        lemma_find_delim(s, '_', 0);
        lemma_find_delim(s, '-', 0);
        assert(case_split(CaseType::KEBAB, s).0.len() <= s.len());
        assert(case_split(CaseType::KEBAB, s).0 == s);
        assert(case_split(CaseType::KEBAB, s).1 =~= Seq::<char>::empty());
        assert(mixed_text(pairs.skip(1)) =~= Seq::<char>::empty());
    } else {
        let ct0 = pairs[0].0;
        let tail = mixed_text(pairs.skip(1));
        assert(s == c0 + sep_of(ct0) + tail);
        lemma_mixed_text_first(pairs.skip(1));
        let c1 = pairs.skip(1)[0].1;
        assert(pairs.skip(1)[0] == pairs[1]);
        assert(plain_component(c1));
        assert(tail.len() >= 1);
        assert(tail[0] == c1[0]);
        assert forall|j: int| 1 <= j < n0 implies !is_upper_char(s[j]) by {
            assert(s[j] == c0[j]);
        }
        assert forall|j: int| 0 <= j < n0 implies s[j] != '_' && s[j] != '-' by {
            assert(s[j] == c0[j]);
        }
        match ct0 {
            CaseType::CAMEL => {
                assert(s.len() == n0 + tail.len());
                assert(s[n0] == tail[0]);
                assert(is_upper_char(pairs[1].1[0]));
                assert(is_upper_char(s[n0]));
                lemma_camel_exact(s, n0);
                assert(case_split(CaseType::CAMEL, s).0 =~= c0);
                assert(case_split(CaseType::CAMEL, s).1 =~= tail);
                assert(s[n0] == c1[0]);
                assert(c1[0] != '_' && c1[0] != '-');
                lemma_delim_strict(s, '_', n0);
                lemma_delim_strict(s, '-', n0);
            },
            CaseType::SNAKE => {
                assert(s.len() == n0 + 1 + tail.len());
                assert(s[n0] == '_');
                lemma_delim_exact(s, '_', n0);
                assert(case_split(CaseType::SNAKE, s).0 =~= c0);
                assert(case_split(CaseType::SNAKE, s).1 =~= tail);
                lemma_camel_min_len(s, n0);
                lemma_delim_strict(s, '-', n0);
            },
            CaseType::KEBAB => {
                assert(s.len() == n0 + 1 + tail.len());
                assert(s[n0] == '-');
                lemma_delim_exact(s, '-', n0);
                assert(case_split(CaseType::KEBAB, s).0 =~= c0);
                assert(case_split(CaseType::KEBAB, s).1 =~= tail);
                lemma_camel_min_len(s, n0);
                lemma_delim_strict(s, '_', n0);
            },
        }
    }
}

/// Round trip through the combined parser: text assembled under a well-formed
/// mixed scheme parses back, with all conventions as candidates, to exactly
/// the components it was assembled from — in particular to the same multiset
/// of components.
pub proof fn lemma_unjumble_round_trip(pairs: Seq<(CaseType, Seq<char>)>)
    requires
        mixed_wf(pairs),
    ensures
        combined_components(all_cases(), mixed_text(pairs)) == pairs.map_values(
            |p: (CaseType, Seq<char>)| p.1,
        ),
    decreases pairs.len(),
{
    if pairs.len() == 0 {
        assert(combined_components(all_cases(), mixed_text(pairs)) =~= Seq::<Seq<char>>::empty());
        assert(pairs.map_values(|p: (CaseType, Seq<char>)| p.1) =~= Seq::<Seq<char>>::empty());
    } else {
        lemma_mixed_pick(pairs);
        lemma_mixed_wf_skip(pairs);
        lemma_unjumble_round_trip(pairs.skip(1));
        assert(combined_components(all_cases(), mixed_text(pairs)) == seq![pairs[0].1]
            + combined_components(all_cases(), mixed_text(pairs.skip(1))));
        assert(seq![pairs[0].1] + pairs.skip(1).map_values(|p: (CaseType, Seq<char>)| p.1)
            =~= pairs.map_values(|p: (CaseType, Seq<char>)| p.1));
    }
}

} // verus!
