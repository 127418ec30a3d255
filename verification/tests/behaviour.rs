use caseconv::case::{Camel, CamelIterator, DelimeterIterator, Kebab, Snake};
use caseconv::convert;
use caseconv::dynamic::{guess_and_convert, jumbled, unjumble, CaseType, CombinedCaseIterator};
use caseconv::{Case, DefiningCase};

#[test]
fn unjumble_mixed_to_kebab() {
    assert_eq!(unjumble("simple_jumbledCase", CaseType::KEBAB), "simple-jumbled-case");
}

#[test]
fn guess_camel() {
    assert_eq!(CaseType::guess("simpleCamelCase"), CaseType::CAMEL);
}

#[test]
fn guess_snake() {
    assert_eq!(CaseType::guess("simple_snake_case"), CaseType::SNAKE);
}

#[test]
fn guess_kebab() {
    assert_eq!(CaseType::guess("simple-kebab-case"), CaseType::KEBAB);
}

#[test]
fn guess_empty_ties_toward_last() {
    assert_eq!(CaseType::guess(""), CaseType::KEBAB);
}

#[test]
fn guess_and_convert_camel_to_snake() {
    assert_eq!(guess_and_convert("simpleCamelCase", CaseType::SNAKE), "simple_camel_case");
}

#[test]
fn empty_text_has_no_components() {
    assert_eq!(Camel {}.components("").len(), 0);
    assert_eq!(Snake {}.components("").len(), 0);
    assert_eq!(Kebab {}.components("").len(), 0);
    assert_eq!(jumbled().components("").len(), 0);
}

#[test]
fn empty_text_converts_to_empty() {
    assert_eq!(convert("", Camel {}, Snake {}), "");
    assert_eq!(convert("", Snake {}, Camel {}), "");
}

#[test]
fn nonempty_text_has_a_component() {
    assert_eq!(Camel {}.components("x"), vec!["x"]);
    assert_eq!(Snake {}.components("x"), vec!["x"]);
    assert_eq!(Kebab {}.components("x"), vec!["x"]);
}

#[test]
fn leading_uppercase_starts_first_component() {
    assert_eq!(Camel {}.components("CamelCase"), vec!["Camel", "Case"]);
}

#[test]
fn adjacent_delimiters_yield_empty_component() {
    assert_eq!(Snake {}.components("a__b"), vec!["a", "", "b"]);
}

#[test]
fn leading_delimiter_yields_empty_first_component() {
    assert_eq!(Snake {}.components("_a"), vec!["", "a"]);
}

#[test]
fn trailing_delimiter_is_absorbed() {
    assert_eq!(Snake {}.components("a_"), vec!["a"]);
    assert_eq!(convert("a_", Snake {}, Snake {}), "a");
}

#[test]
fn empty_components_round_trip_through_delimited() {
    assert_eq!(convert("a__b", Snake {}, Snake {}), "a__b");
}

#[test]
fn lowercase_snake_converts_to_itself() {
    assert_eq!(convert("simple_snake_case", Snake {}, Snake {}), "simple_snake_case");
}

#[test]
fn camel_builder_lowercases_first_component() {
    assert_eq!(convert("Foo", Camel {}, Camel {}), "foo");
}

#[test]
fn camel_builder_uppercases_join_boundaries() {
    assert_eq!(convert("foo_bar", Snake {}, Camel {}), "fooBar");
}

#[test]
fn camel_builder_keeps_internal_casing() {
    assert_eq!(convert("foo_barBAZ", Snake {}, Camel {}), "fooBarBAZ");
}

#[test]
fn delimited_builder_lowercases_components() {
    assert_eq!(convert("FOO-BAR", Kebab {}, Kebab {}), "foo-bar");
}

#[test]
fn non_ascii_characters_convert() {
    assert_eq!(convert("ÜberCase", Camel {}, Snake {}), "über_case");
}

#[test]
fn camel_iterator_steps() {
    let mut it = CamelIterator::new("fooBar");
    assert_eq!(it.next(), Some("foo"));
    assert_eq!(it.next(), Some("Bar"));
    assert_eq!(it.next(), None);
}

#[test]
fn delimeter_iterator_steps() {
    let mut it = DelimeterIterator::new("a-b-", '-');
    assert_eq!(it.next(), Some("a"));
    assert_eq!(it.next(), Some("b"));
    assert_eq!(it.next(), None);
}

#[test]
fn concrete_conventions_hand_out_iterators() {
    let mut it = Camel {}.components_iter("aB");
    assert_eq!(it.next(), Some("a"));
    assert_eq!(it.next(), Some("B"));
    assert_eq!(it.next(), None);
    let mut it = Snake {}.components_iter("a_b");
    assert_eq!(it.next(), Some("a"));
    assert_eq!(it.next(), Some("b"));
    assert_eq!(it.next(), None);
    let mut it = Kebab {}.components_iter("a-b");
    assert_eq!(it.next(), Some("a"));
    assert_eq!(it.next(), Some("b"));
    assert_eq!(it.next(), None);
}

#[test]
fn case_type_iterator_dispatches() {
    let mut it = CaseType::SNAKE.components_iter("a_b");
    assert_eq!(it.next(), Some("a"));
    assert_eq!(it.next(), Some("b"));
    assert_eq!(it.next(), None);
}

#[test]
fn combined_iterator_picks_shortest() {
    let mut it = CombinedCaseIterator::new(jumbled(), "simple_jumbledCase");
    assert_eq!(it.next(), Some("simple"));
    assert_eq!(it.next(), Some("jumbled"));
    assert_eq!(it.next(), Some("Case"));
    assert_eq!(it.next(), None);
}

#[test]
fn slice_buffer_skips_delimiter() {
    assert_eq!(CaseType::SNAKE.slice_buffer("foo_bar", "foo"), "bar");
    assert_eq!(CaseType::CAMEL.slice_buffer("fooBar", "foo"), "Bar");
}

#[test]
fn slice_buffer_never_passes_the_end() {
    assert_eq!(CaseType::SNAKE.slice_buffer("foo", "foo"), "");
}

#[test]
fn default_case_type_is_camel() {
    assert_eq!(CaseType::default(), CaseType::CAMEL);
}

#[test]
fn dynamic_build_dispatches() {
    let components = vec!["one".to_string(), "two".to_string()];
    assert_eq!(CaseType::CAMEL.build_identifier(&components), "oneTwo");
    assert_eq!(CaseType::SNAKE.build_identifier(&components), "one_two");
    assert_eq!(CaseType::KEBAB.build_identifier(&components), "one-two");
}

#[test]
fn unjumble_keeps_component_multiset() {
    let components = jumbled().components("foo_barBaz-qux");
    assert_eq!(components, vec!["foo", "bar", "Baz", "qux"]);
    assert_eq!(unjumble("foo_barBaz-qux", CaseType::SNAKE), "foo_bar_baz_qux");
}
