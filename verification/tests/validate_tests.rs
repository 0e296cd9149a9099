use indexmap::IndexMap;
use match_lowering::registry::Adt;
use match_lowering::term::Term;
use match_lowering::validate::{find_missing, find_repeated, has_name};

fn registry(types: &[(&str, &[(&str, &[&str])])]) -> (IndexMap<String, Adt>, IndexMap<String, String>) {
    let mut adts = IndexMap::new();
    let mut ctrs = IndexMap::new();
    for (ty, ctors) in types {
        let mut of_type: IndexMap<String, Vec<String>> = IndexMap::new();
        for (c, fields) in ctors.iter() {
            of_type.insert(c.to_string(), fields.iter().map(|f| f.to_string()).collect());
            ctrs.insert(c.to_string(), ty.to_string());
        }
        adts.insert(ty.to_string(), Adt { ctrs: of_type });
    }
    (adts, ctrs)
}

fn bool_registry() -> (IndexMap<String, Adt>, IndexMap<String, String>) {
    registry(&[("Bool", &[("True", &[]), ("False", &[])])])
}

fn tags(names: &[&str]) -> Vec<String> {
    names.iter().map(|s| s.to_string()).collect()
}

#[test]
fn missing_one_constructor() {
    let (adts, ctrs) = bool_registry();
    let r = Term::check_matches(&tags(&["True"]), &adts, &ctrs);
    assert_eq!(r.err(), Some("Missing a constructor in a match block: False".to_string()));
}

#[test]
fn repeated_one_constructor() {
    let (adts, ctrs) = bool_registry();
    let r = Term::check_matches(&tags(&["True", "True", "False"]), &adts, &ctrs);
    assert_eq!(r.err(), Some("Repeated a constructor in a match block: True".to_string()));
}

#[test]
fn exhaustive_match_returns_the_type() {
    let (adts, ctrs) = bool_registry();
    let t = tags(&["False", "True"]);
    let r = Term::check_matches(&t, &adts, &ctrs);
    let adt = r.ok().unwrap();
    let names: Vec<&String> = adt.ctrs.keys().collect();
    assert_eq!(names, vec!["True", "False"]);
}

#[test]
fn missing_several_in_declared_order() {
    let (adts, ctrs) = registry(&[("Rgb", &[("R", &[]), ("G", &[]), ("B", &[])])]);
    let r = Term::check_matches(&tags(&["G"]), &adts, &ctrs);
    assert_eq!(r.err(), Some("Missing constructors in a match block: R, B".to_string()));
}

#[test]
fn repeated_several_in_scan_order() {
    let (adts, ctrs) = registry(&[("Rgb", &[("R", &[]), ("G", &[]), ("B", &[])])]);
    let r = Term::check_matches(&tags(&["B", "R", "R", "B", "B"]), &adts, &ctrs);
    assert_eq!(r.err(), Some("Repeated constructors in a match block: R, B".to_string()));
}

#[test]
fn repetition_is_reported_before_omission() {
    let (adts, ctrs) = registry(&[("Rgb", &[("R", &[]), ("G", &[]), ("B", &[])])]);
    let r = Term::check_matches(&tags(&["R", "R"]), &adts, &ctrs);
    assert_eq!(r.err(), Some("Repeated a constructor in a match block: R".to_string()));
}

#[test]
fn the_type_is_the_owner_of_the_first_tag() {
    let (adts, ctrs) = registry(&[
        ("Bool", &[("True", &[]), ("False", &[])]),
        ("Unit", &[("Unit", &[])]),
    ]);
    let r = Term::check_matches(&tags(&["Unit"]), &adts, &ctrs);
    assert!(r.is_ok());
    assert_eq!(r.ok().unwrap().ctrs.len(), 1);
}

#[test]
fn scanning_helpers() {
    let t = tags(&["a", "b", "a", "c", "a", "b"]);
    assert!(has_name(&t, 2, &"b".to_string()));
    assert!(!has_name(&t, 1, &"b".to_string()));
    assert!(!has_name(&t, 0, &"a".to_string()));
    assert_eq!(find_repeated(&t), tags(&["a", "b"]));
    let declared = vec![
        ("c".to_string(), Vec::new()),
        ("d".to_string(), vec!["x".to_string()]),
        ("a".to_string(), Vec::new()),
        ("e".to_string(), Vec::new()),
    ];
    assert_eq!(find_missing(&declared, &t), tags(&["d", "e"]));
}
