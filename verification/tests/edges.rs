//! Edge cases of the grammar and the substitution engine.

use custom_properties::cascade::{ComputedMap, SpecifiedMap};
use custom_properties::parse::parse;
use custom_properties::sertype::SerType;
use custom_properties::subst::{finish_cascade, substitute};
use custom_properties::value::SpecifiedValue;

fn one_entry_map(name: &[u8], value: &[u8]) -> ComputedMap {
    let mut cp: Option<SpecifiedMap> = None;
    let mut seen = custom_properties::maps::NameSet::new();
    let parsed = parse(&value.to_vec()).unwrap();
    custom_properties::cascade::cascade(
        &mut cp,
        &None,
        &mut seen,
        &name.to_vec(),
        &custom_properties::cascade::DeclaredValue::Value(parsed),
    );
    finish_cascade(cp, &None).unwrap()
}

#[test]
fn whitespace_alone_is_a_value() {
    let v: SpecifiedValue = parse(&b" ".to_vec()).unwrap();
    assert_eq!(v.css, b" ".to_vec());
    assert_eq!(v.references.count(), 0);
}

#[test]
fn junk_after_the_name_is_tolerated_when_parsing() {
    // A failed comma probe consumes one token; only trailing whitespace and
    // comments may remain.
    let v = parse(&b"var(--a 5px)".to_vec()).unwrap();
    assert!(v.references.contains(&b"a".to_vec()));
    assert_eq!(v.references.count(), 1);
    assert!(parse(&b"var(--a 5px 3px)".to_vec()).is_err());
}

#[test]
fn junk_blocks_are_skipped_without_collecting() {
    // A block consumed by the failed comma probe is skipped wholesale, so a
    // var() inside it contributes no reference.
    let v = parse(&b"var(--a var(--b))".to_vec()).unwrap();
    assert!(v.references.contains(&b"a".to_vec()));
    assert!(!v.references.contains(&b"b".to_vec()));
    assert_eq!(v.references.count(), 1);
}

#[test]
fn substitution_requires_a_comma_before_the_fallback() {
    let map = one_entry_map(b"a", b"1px");
    // The referenced name is missing and no comma follows: invalid.
    let err = substitute(&b"x: var(--y 5px);".to_vec(), SerType::Ident, &Some(map));
    assert!(err.is_err());
}

#[test]
fn implicitly_closed_input_keeps_its_text() {
    // Blocks left open at the end of the input are implicitly closed.
    let v = parse(&b"f(x".to_vec()).unwrap();
    assert_eq!(v.css, b"f(x".to_vec());

    let map = one_entry_map(b"a", b"10px");
    let out = substitute(&b"f(var(--a)".to_vec(), SerType::Ident, &Some(map)).unwrap();
    assert_eq!(out, b"f(10px".to_vec());
}

#[test]
fn fallback_may_hold_nested_blocks() {
    let map = one_entry_map(b"a", b"1px");
    let out = substitute(
        &b"x: var(--missing, calc(1px + 2px));".to_vec(),
        SerType::Ident,
        &Some(map),
    )
    .unwrap();
    assert_eq!(out, b"x: calc(1px + 2px);".to_vec());
}

#[test]
fn fallback_of_a_resolved_reference_is_skipped() {
    let map = one_entry_map(b"a", b"10px");
    let out = substitute(&b"x: var(--a, 5px);".to_vec(), SerType::Ident, &Some(map)).unwrap();
    assert_eq!(out, b"x: 10px;".to_vec());
}

#[test]
fn chained_references_resolve_through_the_map() {
    let mut cp: Option<SpecifiedMap> = None;
    let mut seen = custom_properties::maps::NameSet::new();
    for (name, value) in
        [(b"a".to_vec(), b"var(--b)".to_vec()), (b"b".to_vec(), b"var(--c)".to_vec()), (
            b"c".to_vec(),
            b"7px".to_vec(),
        )]
    {
        let parsed = parse(&value).unwrap();
        custom_properties::cascade::cascade(
            &mut cp,
            &None,
            &mut seen,
            &name,
            &custom_properties::cascade::DeclaredValue::Value(parsed),
        );
    }
    let map = finish_cascade(cp, &None).unwrap();
    assert_eq!(map.get(&b"a".to_vec()).unwrap().css, b"7px".to_vec());
    assert_eq!(map.get(&b"b".to_vec()).unwrap().css, b"7px".to_vec());
    assert_eq!(map.get(&b"c".to_vec()).unwrap().css, b"7px".to_vec());
}

#[test]
fn to_css_returns_the_stored_text() {
    let v = parse(&b"10px /*k*/ solid".to_vec()).unwrap();
    assert_eq!(v.to_css(), b"10px /*k*/ solid".to_vec());
    let map = one_entry_map(b"a", b"red");
    assert_eq!(map.get(&b"a".to_vec()).unwrap().to_css(), b"red".to_vec());
}

#[test]
fn skipped_fallback_may_hold_blocks() {
    let map = one_entry_map(b"a", b"1px");
    let out = substitute(&b"x: var(--a, f(y));".to_vec(), SerType::Ident, &Some(map)).unwrap();
    assert_eq!(out, b"x: 1px;".to_vec());
}

#[test]
fn no_separator_against_an_enclosing_bracket() {
    let map = one_entry_map(b"a", b"em");
    let out = substitute(&b"1px(var(--a))".to_vec(), SerType::Dimension, &Some(map)).unwrap();
    assert_eq!(out, b"1px(em)".to_vec());
}
