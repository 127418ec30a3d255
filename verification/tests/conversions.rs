use caseconv::case::{Camel, Kebab, Snake};
use caseconv::convert;
use caseconv::dynamic::{jumbled, CaseType};
use caseconv::DefiningCase;

const CAMEL_CASE_TEST_VAL: &str = "simpleCamelCase";
const SNAKE_CASE_TEST_VAL: &str = "simple_snake_case";
const KEBAB_CASE_TEST_VAL: &str = "simple-kebab-case";

#[test]
fn simple_camel_case_counted_correctly() {
    let components = Camel {}.components(CAMEL_CASE_TEST_VAL);
    assert_eq!(components.len(), 3);
}

#[test]
fn simple_camel_case_defined_correctly() {
    let components = Camel {}.components(CAMEL_CASE_TEST_VAL);
    assert_eq!(components, vec!["simple", "Camel", "Case"]);
}

#[test]
fn simple_camel_case_converts_self() {
    let id = convert(CAMEL_CASE_TEST_VAL, Camel {}, Camel {});
    assert_eq!(id, "simpleCamelCase");
}

#[test]
fn simple_snake_case_converts_camel() {
    let id = convert(SNAKE_CASE_TEST_VAL, Snake {}, Camel {});
    assert_eq!(id, "simpleSnakeCase");
}

#[test]
fn simple_kebab_case_converts_camel() {
    let id = convert(KEBAB_CASE_TEST_VAL, Kebab {}, Camel {});
    assert_eq!(id, "simpleKebabCase");
}

#[test]
fn simple_camel_case_converts_kebab() {
    let id = convert(CAMEL_CASE_TEST_VAL, Camel {}, Kebab {});
    assert_eq!(id, "simple-camel-case");
}

#[test]
fn simple_snake_case_converts_kebab() {
    let id = convert(SNAKE_CASE_TEST_VAL, Snake {}, Kebab {});
    assert_eq!(id, "simple-snake-case");
}

#[test]
fn simple_kebab_case_converts_snake() {
    let id = convert(KEBAB_CASE_TEST_VAL, Kebab {}, Snake {});
    assert_eq!(id, "simple_kebab_case");
}

#[test]
fn simple_camel_case_converts_snake() {
    let id = convert(CAMEL_CASE_TEST_VAL, Camel {}, Snake {});
    assert_eq!(id, "simple_camel_case");
}

#[test]
fn simple_snake_case_defined_correctly() {
    let components = Snake {}.components(SNAKE_CASE_TEST_VAL);
    assert_eq!(components, vec!["simple", "snake", "case"]);
}

#[test]
fn simple_kebab_case_defined_correctly() {
    let components = Kebab {}.components(KEBAB_CASE_TEST_VAL);
    assert_eq!(components, vec!["simple", "kebab", "case"]);
}

#[test]
fn dynamic_camel_to_kebab() {
    let id = convert("simpleCamelCase", CaseType::CAMEL, CaseType::KEBAB);
    assert_eq!(id, "simple-camel-case");
}

#[test]
fn dynamic_jumbled_to_kebab() {
    let id = convert("simple_jumbledCase", jumbled(), CaseType::KEBAB);
    assert_eq!(id, "simple-jumbled-case");
}
