use indexmap::IndexMap;
use match_lowering::book::Book;
use match_lowering::desugar::{desugared_term, explicit_pattern, is_desugarable, is_registered};
use match_lowering::names::{binded, decimal_string, make_def_name, pred_binder};
use match_lowering::registry::Adt;
use match_lowering::term::{copy_term, Definition, Op, Pattern, Rule, Term};

fn s(x: &str) -> String {
    x.to_string()
}

fn var(x: &str) -> Term {
    Term::Var { nam: s(x) }
}

fn app(f: Term, a: Term) -> Term {
    Term::App { fun: Box::new(f), arg: Box::new(a) }
}

fn list_registry() -> (IndexMap<String, Adt>, IndexMap<String, String>) {
    let mut of_list: IndexMap<String, Vec<String>> = IndexMap::new();
    of_list.insert(s("Cons"), vec![s("x"), s("xs")]);
    of_list.insert(s("Nil"), Vec::new());
    let mut adts = IndexMap::new();
    adts.insert(s("List"), Adt { ctrs: of_list });
    let mut ctrs = IndexMap::new();
    ctrs.insert(s("Cons"), s("List"));
    ctrs.insert(s("Nil"), s("List"));
    (adts, ctrs)
}

fn match_on(scrutinee: Term, arms: Vec<(Pattern, Term)>) -> Term {
    Term::Match { scrutinee: Box::new(scrutinee), arms }
}

#[test]
fn implicit_constructor_fields_are_named_after_the_scrutinee() {
    let (adts, ctrs) = list_registry();
    let p = explicit_pattern(&Pattern::Ctr(s("Cons"), Vec::new()), &s("lst"), &ctrs, &adts);
    assert_eq!(
        p,
        Pattern::Ctr(s("Cons"), vec![Pattern::Var(Some(s("lst.x"))), Pattern::Var(Some(s("lst.xs")))])
    );
}

#[test]
fn nullary_and_explicit_constructors_are_kept() {
    let (adts, ctrs) = list_registry();
    let nil = Pattern::Ctr(s("Nil"), Vec::new());
    assert_eq!(explicit_pattern(&nil, &s("lst"), &ctrs, &adts), Pattern::Ctr(s("Nil"), Vec::new()));
    let cons = Pattern::Ctr(s("Cons"), vec![Pattern::Var(Some(s("h"))), Pattern::Var(None)]);
    assert_eq!(
        explicit_pattern(&cons, &s("lst"), &ctrs, &adts),
        Pattern::Ctr(s("Cons"), vec![Pattern::Var(Some(s("h"))), Pattern::Var(None)])
    );
}

#[test]
fn implicit_predecessor_is_named_after_the_scrutinee() {
    let (adts, ctrs) = list_registry();
    assert_eq!(
        explicit_pattern(&Pattern::Succ(None), &s("n"), &ctrs, &adts),
        Pattern::Succ(Some(s("n-1")))
    );
    assert_eq!(
        explicit_pattern(&Pattern::Succ(Some(s("p"))), &s("n"), &ctrs, &adts),
        Pattern::Succ(Some(s("p")))
    );
    assert_eq!(explicit_pattern(&Pattern::Zero, &s("n"), &ctrs, &adts), Pattern::Zero);
}

#[test]
fn match_on_a_variable_keeps_its_scrutinee() {
    let (adts, ctrs) = list_registry();
    let mut t = match_on(
        var("lst"),
        vec![(Pattern::Ctr(s("Cons"), Vec::new()), var("lst.x")), (Pattern::Ctr(s("Nil"), Vec::new()), Term::Era)],
    );
    t.desugar_implicit_match_binds(&ctrs, &adts);
    let expected = match_on(
        var("lst"),
        vec![
            (
                Pattern::Ctr(s("Cons"), vec![Pattern::Var(Some(s("lst.x"))), Pattern::Var(Some(s("lst.xs")))]),
                var("lst.x"),
            ),
            (Pattern::Ctr(s("Nil"), Vec::new()), Term::Era),
        ],
    );
    assert_eq!(t, expected);
}

#[test]
fn other_scrutinee_is_hoisted_into_a_let() {
    let (adts, ctrs) = list_registry();
    let call = app(Term::Ref { nam: s("call") }, var("x"));
    let mut t = match_on(
        copy_term(&call),
        vec![(Pattern::Zero, var("a")), (Pattern::Succ(None), var("b"))],
    );
    t.desugar_implicit_match_binds(&ctrs, &adts);
    let expected = Term::Let {
        pat: Pattern::Var(Some(s("%temp%scrutinee"))),
        val: Box::new(call),
        nxt: Box::new(match_on(
            var("%temp%scrutinee"),
            vec![(Pattern::Zero, var("a")), (Pattern::Succ(Some(s("%temp%scrutinee-1"))), var("b"))],
        )),
    };
    assert_eq!(t, expected);
}

#[test]
fn nested_matches_in_arm_bodies_and_children_are_desugared() {
    let (adts, ctrs) = list_registry();
    let inner = match_on(var("m"), vec![(Pattern::Zero, var("a")), (Pattern::Succ(None), var("m-1"))]);
    let inner_done =
        match_on(var("m"), vec![(Pattern::Zero, var("a")), (Pattern::Succ(Some(s("m-1"))), var("m-1"))]);
    let t = Term::Lam {
        nam: Some(s("m")),
        bod: Box::new(Term::Opx {
            op: Op::Add,
            fst: Box::new(match_on(var("n"), vec![(Pattern::Succ(None), copy_term(&inner))])),
            snd: Box::new(Term::Tup { fst: Box::new(copy_term(&inner)), snd: Box::new(Term::Num { val: 3 }) }),
        }),
    };
    let expected = Term::Lam {
        nam: Some(s("m")),
        bod: Box::new(Term::Opx {
            op: Op::Add,
            fst: Box::new(match_on(var("n"), vec![(Pattern::Succ(Some(s("n-1"))), copy_term(&inner_done))])),
            snd: Box::new(Term::Tup { fst: Box::new(inner_done), snd: Box::new(Term::Num { val: 3 }) }),
        }),
    };
    assert_eq!(desugared_term(&t, &ctrs, &adts), expected);
}

#[test]
fn desugaring_twice_is_desugaring_once() {
    let (adts, ctrs) = list_registry();
    let t = match_on(
        app(var("f"), var("x")),
        vec![(Pattern::Ctr(s("Cons"), Vec::new()), match_on(var("n"), vec![(Pattern::Succ(None), Term::Era)]))],
    );
    let once = desugared_term(&t, &ctrs, &adts);
    let twice = desugared_term(&once, &ctrs, &adts);
    assert_eq!(once, twice);
}

#[test]
fn book_desugars_every_rule_body() {
    let (adts, ctrs) = list_registry();
    let body = |x: &str| match_on(var(x), vec![(Pattern::Succ(None), Term::Era)]);
    let done = |x: &str| match_on(var(x), vec![(Pattern::Succ(Some(format!("{x}-1"))), Term::Era)]);
    let mut book = Book {
        defs: vec![
            Definition {
                name: s("f"),
                rules: vec![
                    Rule { pats: vec![Pattern::Var(Some(s("a")))], body: body("a") },
                    Rule { pats: Vec::new(), body: body("b") },
                ],
            },
            Definition { name: s("g"), rules: vec![Rule { pats: Vec::new(), body: body("c") }] },
        ],
        adts,
        ctrs,
    };
    book.desugar_implicit_match_binds();
    assert_eq!(
        book.defs,
        vec![
            Definition {
                name: s("f"),
                rules: vec![
                    Rule { pats: vec![Pattern::Var(Some(s("a")))], body: done("a") },
                    Rule { pats: Vec::new(), body: done("b") },
                ],
            },
            Definition { name: s("g"), rules: vec![Rule { pats: Vec::new(), body: done("c") }] },
        ]
    );
}

#[test]
fn synthesised_names() {
    assert_eq!(binded(&s("lst"), &s("xs")), "lst.xs");
    assert_eq!(pred_binder(&s("n")), "n-1");
    assert_eq!(make_def_name(&s("f"), &s("True"), 1), "f$True$1");
    assert_eq!(make_def_name(&s("main"), &s("succ"), 120), "main$succ$120");
    assert_eq!(decimal_string(0), "0");
    assert_eq!(decimal_string(9), "9");
    assert_eq!(decimal_string(10), "10");
    assert_eq!(decimal_string(1234567890), "1234567890");
}

#[test]
fn acceptance_of_terms_for_desugaring() {
    let (adts, ctrs) = list_registry();
    assert!(is_registered(&s("Cons"), &ctrs, &adts));
    assert!(!is_registered(&s("Snoc"), &ctrs, &adts));
    let known = match_on(var("l"), vec![(Pattern::Ctr(s("Nil"), Vec::new()), Term::Era)]);
    assert!(is_desugarable(&known, &ctrs, &adts));
    let unknown = match_on(var("l"), vec![(Pattern::Ctr(s("Snoc"), Vec::new()), Term::Era)]);
    assert!(!is_desugarable(&unknown, &ctrs, &adts));
    assert!(!is_desugarable(&app(var("f"), unknown), &ctrs, &adts));
    let destructuring = Term::Let {
        pat: Pattern::Tup(Box::new(Pattern::Var(None)), Box::new(Pattern::Var(None))),
        val: Box::new(var("p")),
        nxt: Box::new(Term::Era),
    };
    assert!(!is_desugarable(&destructuring, &ctrs, &adts));
    let plain = Term::Let { pat: Pattern::Var(Some(s("x"))), val: Box::new(var("p")), nxt: Box::new(known) };
    assert!(is_desugarable(&plain, &ctrs, &adts));
}

#[test]
fn a_hoisted_scrutinee_is_left_as_it_was() {
    let (adts, ctrs) = list_registry();
    let inner = match_on(var("n"), vec![(Pattern::Succ(None), Term::Era)]);
    let t = match_on(copy_term(&inner), vec![(Pattern::Zero, Term::Era)]);
    let once = desugared_term(&t, &ctrs, &adts);
    let expected = Term::Let {
        pat: Pattern::Var(Some(s("%temp%scrutinee"))),
        val: Box::new(inner),
        nxt: Box::new(match_on(var("%temp%scrutinee"), vec![(Pattern::Zero, Term::Era)])),
    };
    assert_eq!(once, expected);
}

#[test]
fn desugaring_only_what_is_accepted() {
    let (adts, ctrs) = list_registry();
    let mut unknown = match_on(var("l"), vec![(Pattern::Ctr(s("Snoc"), Vec::new()), Term::Era)]);
    assert!(!unknown.try_desugar_implicit_match_binds(&ctrs, &adts));
    assert_eq!(unknown, match_on(var("l"), vec![(Pattern::Ctr(s("Snoc"), Vec::new()), Term::Era)]));
    let mut known = match_on(var("n"), vec![(Pattern::Succ(None), Term::Era)]);
    assert!(known.try_desugar_implicit_match_binds(&ctrs, &adts));
    assert_eq!(known, match_on(var("n"), vec![(Pattern::Succ(Some(s("n-1"))), Term::Era)]));
}
