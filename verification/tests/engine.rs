//! End-to-end tests for the custom-property engine.

use custom_properties::cascade::{cascade, DeclaredValue, ComputedMap, SpecifiedMap};
use custom_properties::maps::NameSet;
use custom_properties::parse::{parse, parse_declaration_value};
use custom_properties::sertype::{needs_separator, SerType};
use custom_properties::subst::{finish_cascade, substitute};
use custom_properties::parse_name;

fn declare(
    cp: &mut Option<SpecifiedMap>,
    inherited: &Option<ComputedMap>,
    seen: &mut NameSet,
    name: &[u8],
    value: &[u8],
) {
    let parsed = parse(&value.to_vec()).expect("declaration value must parse");
    let decl = DeclaredValue::Value(parsed);
    cascade(cp, inherited, seen, &name.to_vec(), &decl);
}

fn build_map(decls: &[(&[u8], &[u8])]) -> ComputedMap {
    let mut cp: Option<SpecifiedMap> = None;
    let mut seen = NameSet::new();
    for (name, value) in decls {
        declare(&mut cp, &None, &mut seen, name, value);
    }
    let map = match cp {
        Some(map) => map,
        None => SpecifiedMap::new(),
    };
    finish_cascade(Some(map), &None).expect("declarations must produce a map")
}

#[test]
fn name_round_trip() {
    assert_eq!(parse_name(&b"--x".to_vec()), Ok(b"x".to_vec()));
    assert_eq!(parse_name(&b"--main-color".to_vec()), Ok(b"main-color".to_vec()));
    assert_eq!(parse_name(&b"x".to_vec()), Err(()));
    assert_eq!(parse_name(&b"-x".to_vec()), Err(()));
    assert_eq!(parse_name(&b"".to_vec()), Err(()));
}

#[test]
fn parse_keeps_the_slice() {
    let v = parse(&b" 10px  solid".to_vec()).unwrap();
    assert_eq!(v.css, b" 10px  solid".to_vec());
    let v = parse(&b"bad !important".to_vec()).unwrap();
    assert_eq!(v.css, b"bad ".to_vec());
    let v = parse(&b"a; rest".to_vec()).unwrap();
    assert_eq!(v.css, b"a".to_vec());
}

#[test]
fn parse_collects_references() {
    let v = parse(&b"var(--a) var(--b, var(--c)) f(var(--d))".to_vec()).unwrap();
    for name in [b"a".to_vec(), b"b".to_vec(), b"c".to_vec(), b"d".to_vec()] {
        assert!(v.references.contains(&name), "missing reference");
    }
    assert_eq!(v.references.count(), 4);
    let v = parse(&b"10px solid red".to_vec()).unwrap();
    assert_eq!(v.references.count(), 0);
}

#[test]
fn parse_rejects_malformed_values() {
    assert!(parse(&b"".to_vec()).is_err());
    assert!(parse(&b"/* only a comment */".to_vec()).is_err());
    assert!(parse(&b"!important".to_vec()).is_err());
    assert!(parse(&b"a ) b".to_vec()).is_err());
    assert!(parse(&b"var()".to_vec()).is_err());
    assert!(parse(&b"var(a)".to_vec()).is_err());
    assert!(parse(&b"var(--a,)".to_vec()).is_err());
}

#[test]
fn parse_declaration_value_reports_types_and_references() {
    let mut sink = Some(NameSet::new());
    let r = parse_declaration_value(&b"var(--a) 1px".to_vec(), &mut sink);
    assert!(r.is_ok());
    let sink = sink.unwrap();
    assert!(sink.contains(&b"a".to_vec()));
    assert_eq!(sink.count(), 1);

    let mut none_sink = None;
    assert!(parse_declaration_value(&b"1px".to_vec(), &mut none_sink).is_ok());
    assert!(none_sink.is_none());
}

#[test]
fn simple_substitution() {
    let map = build_map(&[(b"a", b"10px")]);
    let out = substitute(&b"width: var(--a);".to_vec(), SerType::Ident, &Some(map)).unwrap();
    assert_eq!(out, b"width: 10px;".to_vec());
}

#[test]
fn cycle_drops_participants() {
    let map = build_map(&[(b"a", b"var(--b)"), (b"b", b"var(--a)"), (b"c", b"1px")]);
    assert!(map.get(&b"a".to_vec()).is_none());
    assert!(map.get(&b"b".to_vec()).is_none());
    assert_eq!(map.get(&b"c".to_vec()).unwrap().css, b"1px".to_vec());

    let err = substitute(&b"x: var(--a);".to_vec(), SerType::Ident, &Some(map));
    assert!(err.is_err());

    let map = build_map(&[(b"a", b"var(--b)"), (b"b", b"var(--a)"), (b"c", b"1px")]);
    let out = substitute(&b"x: var(--a, 5px);".to_vec(), SerType::Ident, &Some(map)).unwrap();
    assert_eq!(out, b"x: 5px;".to_vec());
}

#[test]
fn self_reference_is_a_cycle() {
    let map = build_map(&[(b"a", b"var(--a)"), (b"c", b"2em")]);
    assert!(map.get(&b"a".to_vec()).is_none());
    assert_eq!(map.get(&b"c".to_vec()).unwrap().css, b"2em".to_vec());
}

#[test]
fn fallback_on_missing() {
    let map = build_map(&[]);
    let out = substitute(&b"color: var(--x, red);".to_vec(), SerType::Ident, &Some(map)).unwrap();
    assert_eq!(out, b"color: red;".to_vec());
    let out = substitute(&b"color: var(--x, red);".to_vec(), SerType::Ident, &None).unwrap();
    assert_eq!(out, b"color: red;".to_vec());
}

#[test]
fn missing_without_fallback_fails() {
    let map = build_map(&[]);
    let err = substitute(&b"color: var(--x);".to_vec(), SerType::Ident, &Some(map));
    assert!(err.is_err());
}

#[test]
fn separator_insertion() {
    let map = build_map(&[(b"a", b"1"), (b"b", b"em")]);
    let out = substitute(&b"x: var(--a)var(--b);".to_vec(), SerType::Ident, &Some(map)).unwrap();
    assert_eq!(out, b"x: 1/**/em;".to_vec());
}

#[test]
fn nested_substitution() {
    let map = build_map(&[(b"a", b"var(--b) solid"), (b"b", b"2px")]);
    assert_eq!(map.get(&b"a".to_vec()).unwrap().css, b"2px solid".to_vec());
    assert_eq!(map.get(&b"b".to_vec()).unwrap().css, b"2px".to_vec());
}

#[test]
fn substitution_inside_nested_blocks() {
    let map = build_map(&[(b"a", b"10px")]);
    let out = substitute(&b"width: calc(var(--a) + 2px);".to_vec(), SerType::Ident, &Some(map))
        .unwrap();
    assert_eq!(out, b"width: calc(10px + 2px);".to_vec());
}

#[test]
fn substitute_without_var_is_identity() {
    let map = build_map(&[(b"a", b"10px")]);
    let input = b"width: 10px solid /*c*/ red;".to_vec();
    let out = substitute(&input, SerType::Ident, &Some(map)).unwrap();
    assert_eq!(out, input);
}

#[test]
fn inherit_seeding_returns_parent_map() {
    let parent = build_map(&[(b"a", b"red"), (b"b", b"2px")]);
    let child = finish_cascade(None, &Some(parent)).unwrap();
    assert_eq!(child.get(&b"a".to_vec()).unwrap().css, b"red".to_vec());
    assert_eq!(child.get(&b"b".to_vec()).unwrap().css, b"2px".to_vec());
    assert_eq!(child.count(), 2);
}

#[test]
fn initial_removes_inherited_entry() {
    let parent = build_map(&[(b"a", b"red")]);
    let mut cp: Option<SpecifiedMap> = None;
    let mut seen = NameSet::new();
    let inherited = Some(parent);
    cascade(&mut cp, &inherited, &mut seen, &b"a".to_vec(), &DeclaredValue::Initial);
    let child = finish_cascade(cp, &inherited).unwrap();
    assert!(child.get(&b"a".to_vec()).is_none());
}

#[test]
fn inherit_keeps_the_seeded_entry() {
    let parent = build_map(&[(b"a", b"red")]);
    let mut cp: Option<SpecifiedMap> = None;
    let mut seen = NameSet::new();
    let inherited = Some(parent);
    cascade(&mut cp, &inherited, &mut seen, &b"a".to_vec(), &DeclaredValue::Inherit);
    let child = finish_cascade(cp, &inherited).unwrap();
    assert_eq!(child.get(&b"a".to_vec()).unwrap().css, b"red".to_vec());
}

#[test]
fn first_declaration_wins() {
    let mut cp: Option<SpecifiedMap> = None;
    let mut seen = NameSet::new();
    declare(&mut cp, &None, &mut seen, b"a", b"1px");
    declare(&mut cp, &None, &mut seen, b"a", b"2px");
    let map = finish_cascade(cp, &None).unwrap();
    assert_eq!(map.get(&b"a".to_vec()).unwrap().css, b"1px".to_vec());
}

#[test]
fn inherited_value_rescues_invalid_substitution() {
    let parent = build_map(&[(b"a", b"red")]);
    let mut cp: Option<SpecifiedMap> = None;
    let mut seen = NameSet::new();
    let inherited = Some(parent);
    let parsed = parse(&b"var(--missing)".to_vec()).unwrap();
    cascade(&mut cp, &inherited, &mut seen, &b"a".to_vec(), &DeclaredValue::Value(parsed));
    let child = finish_cascade(cp, &inherited).unwrap();
    assert_eq!(child.get(&b"a".to_vec()).unwrap().css, b"red".to_vec());
}

#[test]
fn separator_table_matches_the_serialization_rules() {
    assert!(needs_separator(SerType::Number, SerType::Ident));
    assert!(needs_separator(SerType::Ident, SerType::Ident));
    assert!(needs_separator(SerType::Ident, SerType::OpenParen));
    assert!(needs_separator(SerType::DelimSlash, SerType::DelimAsterisk));
    assert!(!needs_separator(SerType::Nothing, SerType::Ident));
    assert!(!needs_separator(SerType::WhiteSpace, SerType::Ident));
    assert!(!needs_separator(SerType::Other, SerType::Other));
}
