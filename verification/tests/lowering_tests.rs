use indexmap::IndexMap;
use match_lowering::book::Book;
use match_lowering::lower::{find_arm, match_adt_app, match_native_arms};
use match_lowering::registry::Adt;
use match_lowering::simplify::{all_numeric, all_tagged, count_after, is_lowerable};
use match_lowering::subst::{call_on_fields, lams_over_fields, subst_term};
use match_lowering::term::{Definition, Pattern, Rule, Term};

fn s(x: &str) -> String {
    x.to_string()
}

fn var(x: &str) -> Term {
    Term::Var { nam: s(x) }
}

fn rf(x: &str) -> Term {
    Term::Ref { nam: s(x) }
}

fn num(n: u64) -> Term {
    Term::Num { val: n }
}

fn app(f: Term, a: Term) -> Term {
    Term::App { fun: Box::new(f), arg: Box::new(a) }
}

fn lam(n: &str, b: Term) -> Term {
    Term::Lam { nam: Some(s(n)), bod: Box::new(b) }
}

fn tag(x: &str) -> Pattern {
    Pattern::Var(Some(s(x)))
}

fn match_on(scrutinee: Term, arms: Vec<(Pattern, Term)>) -> Term {
    Term::Match { scrutinee: Box::new(scrutinee), arms }
}

fn def(name: &str, body: Term) -> Definition {
    Definition { name: s(name), rules: vec![Rule { pats: Vec::new(), body }] }
}

fn registries() -> (IndexMap<String, Adt>, IndexMap<String, String>) {
    let mut of_bool: IndexMap<String, Vec<String>> = IndexMap::new();
    of_bool.insert(s("True"), Vec::new());
    of_bool.insert(s("False"), Vec::new());
    let mut of_list: IndexMap<String, Vec<String>> = IndexMap::new();
    of_list.insert(s("Cons"), vec![s("x"), s("xs")]);
    of_list.insert(s("Nil"), Vec::new());
    let mut adts = IndexMap::new();
    adts.insert(s("Bool"), Adt { ctrs: of_bool });
    adts.insert(s("List"), Adt { ctrs: of_list });
    let mut ctrs = IndexMap::new();
    ctrs.insert(s("True"), s("Bool"));
    ctrs.insert(s("False"), s("Bool"));
    ctrs.insert(s("Cons"), s("List"));
    ctrs.insert(s("Nil"), s("List"));
    (adts, ctrs)
}

fn book_of(defs: Vec<Definition>) -> Book {
    let (adts, ctrs) = registries();
    Book { defs, adts, ctrs }
}

#[test]
fn algebraic_match_becomes_scott_application() {
    let mut book = book_of(vec![def("f", match_on(var("b"), vec![(tag("True"), num(1)), (tag("False"), num(0))]))]);
    assert_eq!(book.simplify_matches(), Ok(()));
    assert_eq!(
        book.defs,
        vec![
            def("f", app(app(var("b"), rf("f$True$1")), rf("f$False$1"))),
            def("f$True$1", num(1)),
            def("f$False$1", num(0)),
        ]
    );
}

#[test]
fn application_follows_declared_order_not_arm_order() {
    let mut book = book_of(vec![def("f", match_on(var("b"), vec![(tag("False"), num(0)), (tag("True"), num(1))]))]);
    assert_eq!(book.simplify_matches(), Ok(()));
    assert_eq!(
        book.defs,
        vec![
            def("f", app(app(var("b"), rf("f$True$1")), rf("f$False$1"))),
            def("f$True$1", num(1)),
            def("f$False$1", num(0)),
        ]
    );
}

#[test]
fn numeric_match_keeps_its_shape() {
    let body = match_on(
        var("n"),
        vec![(Pattern::Zero, var("a")), (Pattern::Succ(Some(s("p"))), app(rf("g"), var("p")))],
    );
    let mut book = book_of(vec![def("f", body)]);
    assert_eq!(book.simplify_matches(), Ok(()));
    assert_eq!(
        book.defs,
        vec![
            def(
                "f",
                match_on(
                    var("n"),
                    vec![
                        (Pattern::Zero, rf("f$zero$1")),
                        (Pattern::Succ(Some(s("p"))), app(rf("f$succ$1"), var("p"))),
                    ],
                ),
            ),
            def("f$zero$1", var("a")),
            def("f$succ$1", lam("p", app(rf("g"), var("p")))),
        ]
    );
}

#[test]
fn successor_without_binder_gets_no_lambda() {
    let arms = vec![(Pattern::Zero, num(0)), (Pattern::Succ(None), num(1))];
    let mut new_defs = Vec::new();
    let out = match_native_arms(&arms, &s("h"), &mut new_defs, 7);
    assert_eq!(out, vec![(Pattern::Zero, rf("h$zero$7")), (Pattern::Succ(None), rf("h$succ$7"))]);
    assert_eq!(new_defs, vec![def("h$zero$7", num(0)), def("h$succ$7", num(1))]);
}

#[test]
fn empty_match_is_rejected() {
    let mut book = book_of(vec![def("f", match_on(var("b"), Vec::new()))]);
    assert_eq!(book.simplify_matches(), Err(s("Empty match block found")));
    assert_eq!(book.defs, vec![def("f", match_on(var("b"), Vec::new()))]);
}

#[test]
fn missing_constructor_is_rejected() {
    let mut book = book_of(vec![def("f", match_on(var("b"), vec![(tag("True"), num(1))]))]);
    assert_eq!(book.simplify_matches(), Err(s("Missing a constructor in a match block: False")));
}

#[test]
fn repeated_constructor_is_rejected() {
    let arms = vec![(tag("True"), num(1)), (tag("True"), num(2)), (tag("False"), num(0))];
    let mut book = book_of(vec![def("f", match_on(var("b"), arms))]);
    assert_eq!(book.simplify_matches(), Err(s("Repeated a constructor in a match block: True")));
}

#[test]
fn first_error_wins_and_term_is_kept() {
    let (adts, ctrs) = registries();
    let build = || {
        app(
            match_on(var("b"), vec![(tag("True"), match_on(var("c"), Vec::new()))]),
            match_on(var("b"), vec![(tag("False"), num(1)), (tag("False"), num(1))]),
        )
    };
    let mut t = build();
    let mut new_defs = Vec::new();
    let mut count = 0;
    let r = t.simplify_matches(&s("f"), &adts, &ctrs, &mut new_defs, &mut count);
    assert_eq!(r, Err(s("Empty match block found")));
    assert_eq!(t, build());
    assert!(new_defs.is_empty());
    assert_eq!(count, 0);
    let mut later = app(
        match_on(var("n"), vec![(Pattern::Zero, num(1))]),
        match_on(var("b"), vec![(tag("False"), num(1)), (tag("False"), num(1))]),
    );
    let mut kept = vec![def("kept", Term::Era)];
    let mut from = 8;
    let r = later.simplify_matches(&s("f"), &adts, &ctrs, &mut kept, &mut from);
    assert_eq!(r, Err(s("Repeated a constructor in a match block: False")));
    assert_eq!(kept, vec![def("kept", Term::Era)]);
    assert_eq!(from, 8);
}

#[test]
fn scrutinee_occurrences_are_rebuilt_from_fields() {
    let arms = vec![(tag("Nil"), var("lst")), (tag("Cons"), app(var("k"), var("lst")))];
    let mut t = match_on(var("lst"), arms);
    let (adts, ctrs) = registries();
    let mut new_defs = Vec::new();
    let mut count = 4;
    let r = t.simplify_matches(&s("len"), &adts, &ctrs, &mut new_defs, &mut count);
    assert_eq!(r, Ok(()));
    assert_eq!(count, 5);
    assert_eq!(t, app(app(var("lst"), rf("len$Cons$5")), rf("len$Nil$5")));
    let rebuilt = app(app(rf("Cons"), var("lst.x")), var("lst.xs"));
    assert_eq!(
        new_defs,
        vec![
            def("len$Cons$5", lam("lst.x", lam("lst.xs", app(var("k"), rebuilt)))),
            def("len$Nil$5", rf("Nil")),
        ]
    );
}

#[test]
fn nested_matches_are_lowered_first_with_their_own_numbers() {
    let inner = |z: u64| match_on(var("n"), vec![(Pattern::Zero, num(z)), (Pattern::Succ(Some(s("p"))), var("p"))]);
    let mut t = match_on(var("b"), vec![(tag("True"), inner(10)), (tag("False"), inner(20))]);
    let (adts, ctrs) = registries();
    let mut new_defs = Vec::new();
    let mut count = 0;
    assert_eq!(t.simplify_matches(&s("f"), &adts, &ctrs, &mut new_defs, &mut count), Ok(()));
    assert_eq!(count, 3);
    let names: Vec<&str> = new_defs.iter().map(|d| d.name.as_str()).collect();
    assert_eq!(names, vec!["f$zero$1", "f$succ$1", "f$zero$2", "f$succ$2", "f$True$3", "f$False$3"]);
    for i in 0..names.len() {
        for j in 0..i {
            assert_ne!(names[i], names[j]);
        }
    }
    assert_eq!(t, app(app(var("b"), rf("f$True$3")), rf("f$False$3")));
    let lowered_inner = |k: u64| {
        match_on(
            var("n"),
            vec![
                (Pattern::Zero, rf(&format!("f$zero${k}"))),
                (Pattern::Succ(Some(s("p"))), app(rf(&format!("f$succ${k}")), var("p"))),
            ],
        )
    };
    assert_eq!(new_defs[4], def("f$True$3", lowered_inner(1)));
    assert_eq!(new_defs[5], def("f$False$3", lowered_inner(2)));
}

#[test]
fn counter_restarts_in_every_definition_and_runs_through_its_rules() {
    let m = || match_on(var("b"), vec![(tag("True"), num(1)), (tag("False"), num(0))]);
    let two_rules = Definition {
        name: s("f"),
        rules: vec![Rule { pats: Vec::new(), body: m() }, Rule { pats: vec![Pattern::Zero], body: m() }],
    };
    let mut book = book_of(vec![two_rules, def("g", m())]);
    assert_eq!(book.simplify_matches(), Ok(()));
    let names: Vec<&str> = book.defs.iter().map(|d| d.name.as_str()).collect();
    assert_eq!(names, vec!["f", "g", "f$True$1", "f$False$1", "f$True$2", "f$False$2", "g$True$1", "g$False$1"]);
    assert_eq!(book.defs[0].rules[1].pats, vec![Pattern::Zero]);
}

#[test]
fn one_definition_per_constructor() {
    let (adts, _) = registries();
    let arms = vec![(tag("Nil"), num(0)), (tag("Cons"), num(1))];
    let mut new_defs = vec![def("old", Term::Era)];
    let t = match_adt_app(s("l"), adts.get("List").unwrap(), &arms, &s("d"), &mut new_defs, 2);
    assert_eq!(t, app(app(var("l"), rf("d$Cons$2")), rf("d$Nil$2")));
    assert_eq!(new_defs.len(), 3);
    assert_eq!(new_defs[1], def("d$Cons$2", lam("l.x", lam("l.xs", num(1)))));
    assert_eq!(new_defs[2], def("d$Nil$2", num(0)));
    assert_eq!(find_arm(&arms, &s("Cons")), Some(1));
    assert_eq!(find_arm(&arms, &s("True")), None);
}

#[test]
fn substitution_and_builders() {
    let t = lam("y", app(var("x"), match_on(var("x"), vec![(Pattern::Zero, var("x")), (Pattern::Succ(None), var("z"))])));
    let to = num(5);
    let expected = lam("y", app(num(5), match_on(num(5), vec![(Pattern::Zero, num(5)), (Pattern::Succ(None), var("z"))])));
    assert_eq!(subst_term(&t, &s("x"), &to), expected);
    let fields = vec![s("a"), s("b"), s("c")];
    assert_eq!(
        call_on_fields(rf("K"), &s("v"), &fields),
        app(app(app(rf("K"), var("v.a")), var("v.b")), var("v.c"))
    );
    assert_eq!(lams_over_fields(num(1), &s("v"), &fields), lam("v.a", lam("v.b", lam("v.c", num(1)))));
    assert_eq!(lams_over_fields(num(1), &s("v"), &Vec::new()), num(1));
}

#[test]
fn acceptance_of_terms_for_lowering() {
    let (adts, ctrs) = registries();
    let good = match_on(var("b"), vec![(tag("True"), num(1))]);
    assert!(is_lowerable(&good, &adts, &ctrs));
    assert!(is_lowerable(&match_on(app(var("f"), var("x")), Vec::new()), &adts, &ctrs));
    let on_expression = match_on(app(var("f"), var("x")), vec![(tag("True"), num(1))]);
    assert!(!is_lowerable(&on_expression, &adts, &ctrs));
    let numeric_on_expression = match_on(app(var("f"), var("x")), vec![(Pattern::Zero, num(1))]);
    assert!(is_lowerable(&numeric_on_expression, &adts, &ctrs));
    let unknown = match_on(var("b"), vec![(tag("Maybe"), num(1))]);
    assert!(!is_lowerable(&unknown, &adts, &ctrs));
    let mixed = match_on(var("n"), vec![(Pattern::Zero, num(1)), (tag("True"), num(1))]);
    assert!(!is_lowerable(&mixed, &adts, &ctrs));
    let nested = lam("x", match_on(var("n"), vec![(Pattern::Zero, unknown)]));
    assert!(!is_lowerable(&nested, &adts, &ctrs));
    let unflattened = match_on(var("l"), vec![(Pattern::Ctr(s("Nil"), Vec::new()), num(1))]);
    assert!(!is_lowerable(&unflattened, &adts, &ctrs));
    assert!(all_numeric(&vec![(Pattern::Zero, num(1)), (Pattern::Succ(None), num(2))]));
    assert!(!all_tagged(&vec![(tag("True"), num(1)), (Pattern::Var(None), num(2))]));
}

#[test]
fn counting_matches() {
    let inner = match_on(var("n"), vec![(Pattern::Zero, num(1))]);
    let t = app(match_on(var("b"), vec![(tag("True"), inner), (tag("False"), num(0))]), match_on(var("x"), Vec::new()));
    assert_eq!(count_after(&t, 0), Some(3));
    assert_eq!(count_after(&t, 10), Some(13));
    assert_eq!(count_after(&t, usize::MAX - 3), Some(usize::MAX));
    assert_eq!(count_after(&t, usize::MAX - 2), None);
    assert_eq!(count_after(&var("x"), usize::MAX), Some(usize::MAX));
    let in_scrutinee = match_on(match_on(var("x"), Vec::new()), Vec::new());
    assert_eq!(count_after(&in_scrutinee, 0), Some(1));
}

#[test]
fn lowering_only_what_is_accepted() {
    let (adts, ctrs) = registries();
    let mut new_defs = Vec::new();
    let mut count = 0;
    let mut bad = match_on(num(1), vec![(tag("True"), num(1)), (tag("False"), num(0))]);
    assert_eq!(bad.try_simplify_matches(&s("f"), &adts, &ctrs, &mut new_defs, &mut count), None);
    assert_eq!(bad, match_on(num(1), vec![(tag("True"), num(1)), (tag("False"), num(0))]));
    assert_eq!(count, 0);
    assert!(new_defs.is_empty());
    let mut full = match_on(var("b"), vec![(tag("True"), num(1)), (tag("False"), num(0))]);
    let mut at_limit = usize::MAX;
    assert_eq!(full.try_simplify_matches(&s("f"), &adts, &ctrs, &mut new_defs, &mut at_limit), None);
    assert_eq!(full.try_simplify_matches(&s("f"), &adts, &ctrs, &mut new_defs, &mut count), Some(Ok(())));
    assert_eq!(full, app(app(var("b"), rf("f$True$1")), rf("f$False$1")));
    let mut short = match_on(var("b"), vec![(tag("False"), num(0))]);
    assert_eq!(
        short.try_simplify_matches(&s("f"), &adts, &ctrs, &mut new_defs, &mut count),
        Some(Err(s("Missing a constructor in a match block: True")))
    );
}
