//! Lowering of matches into freshly minted top-level definitions.
use crate::names::{def_name_of, make_def_name};
use crate::registry::{constructor_list, ctr_list_view, field_entries, Adt, CtrsV};
use crate::subst::{
    binder_names, call, call_on_fields, field_vars, lams, lams_over_fields, subst_term,
    substituted,
};
use crate::term::{
    arms_view, copy_pattern, copy_term, defs_view, names_view, pat_view, pats_view, rules_view,
    term_view, DefV, Definition, PatV, Pattern, Rule, RuleV, Term, TermV,
};
use vstd::prelude::*;
use vstd::string::StringExecFns;

verus! {

/// A definition with one rule, without argument patterns, whose body is `body`.
pub open spec fn single_rule(name: Seq<char>, body: TermV) -> DefV {
    DefV { name, rules: seq![RuleV { pats: Seq::empty(), body }] }
}

/// Whether the pattern matches a native number.
pub open spec fn is_numeric(p: PatV) -> bool {
    p is Zero || p is Succ
}

/// The tag of a numeric arm: `zero` or `succ`.
pub open spec fn native_tag(p: PatV) -> Seq<char> {
    if p is Zero {
        "zero"@
    } else {
        "succ"@
    }
}

/// The predecessor binder of a numeric arm, if it has one.
pub open spec fn native_binder(p: PatV) -> Option<Seq<char>> {
    match p {
        PatV::Succ(b) => b,
        _ => None,
    }
}

/// The definition minted for one numeric arm: its body, under the
/// predecessor binder where the arm has one.
pub open spec fn native_def(arm: (PatV, TermV), def_name: Seq<char>, count: nat) -> DefV {
    single_rule(
        def_name_of(def_name, native_tag(arm.0), count),
        match native_binder(arm.0) {
            Some(n) => TermV::Lam(Some(n), Box::new(arm.1)),
            None => arm.1,
        },
    )
}

/// A numeric arm after lowering: the same pattern, and a reference to the
/// minted definition, applied to the predecessor where the arm binds it.
pub open spec fn native_arm(arm: (PatV, TermV), def_name: Seq<char>, count: nat) -> (PatV, TermV) {
    let r = TermV::Ref(def_name_of(def_name, native_tag(arm.0), count));
    (
        arm.0,
        match native_binder(arm.0) {
            Some(n) => TermV::App(Box::new(r), Box::new(TermV::Var(n))),
            None => r,
        },
    )
}

pub open spec fn native_arms(arms: Seq<(PatV, TermV)>, def_name: Seq<char>, count: nat) -> Seq<
    (PatV, TermV),
> {
    Seq::new(arms.len(), |i: int| native_arm(arms[i], def_name, count))
}

pub open spec fn native_defs(arms: Seq<(PatV, TermV)>, def_name: Seq<char>, count: nat) -> Seq<DefV> {
    Seq::new(arms.len(), |i: int| native_def(arms[i], def_name, count))
}

/// The tag of an algebraic arm: the name its variable pattern carries.
pub open spec fn arm_tag(p: PatV) -> Seq<char> {
    match p {
        PatV::Var(Some(n)) => n,
        _ => Seq::empty(),
    }
}

pub open spec fn arm_tags(arms: Seq<(PatV, TermV)>) -> Seq<Seq<char>> {
    Seq::new(arms.len(), |i: int| arm_tag(arms[i].0))
}

/// Whether the pattern is a variable that carries a name.
pub open spec fn is_tagged(p: PatV) -> bool {
    p matches PatV::Var(Some(_))
}

/// The position of the first tag equal to `c`; the length where there is none.
pub open spec fn first_index(tags: Seq<Seq<char>>, c: Seq<char>) -> int
    decreases tags.len(),
{
    if tags.len() == 0 {
        0
    } else if tags[0] == c {
        0
    } else {
        1 + first_index(tags.drop_first(), c)
    }
}

/// The definition minted for constructor `ctr` from the arm body `body`: the
/// scrutinee is replaced by the constructor applied to its field variables,
/// and the result stands under one binder per field.
pub open spec fn case_def(
    scrutinee: Seq<char>,
    ctr: (Seq<char>, Seq<Seq<char>>),
    body: TermV,
    def_name: Seq<char>,
    count: nat,
) -> DefV {
    single_rule(
        def_name_of(def_name, ctr.0, count),
        lams(
            binder_names(scrutinee, ctr.1),
            substituted(body, scrutinee, call(TermV::Ref(ctr.0), field_vars(scrutinee, ctr.1))),
        ),
    )
}

/// The definitions minted for an algebraic match, in declared constructor
/// order: one for each constructor that some arm names, from the first such arm.
pub open spec fn adt_defs(
    scrutinee: Seq<char>,
    adt: CtrsV,
    arms: Seq<(PatV, TermV)>,
    def_name: Seq<char>,
    count: nat,
) -> Seq<DefV>
    decreases adt.len(),
{
    if adt.len() == 0 {
        Seq::empty()
    } else {
        let before = adt_defs(scrutinee, adt.drop_last(), arms, def_name, count);
        if arm_tags(arms).contains(adt.last().0) {
            before.push(
                case_def(
                    scrutinee,
                    adt.last(),
                    arms[first_index(arm_tags(arms), adt.last().0)].1,
                    def_name,
                    count,
                ),
            )
        } else {
            before
        }
    }
}

/// References to the definitions, in order.
pub open spec fn def_refs(defs: Seq<DefV>) -> Seq<TermV> {
    Seq::new(defs.len(), |i: int| TermV::Ref(defs[i].name))
}

/// The scrutinee applied in turn to a reference to each case definition.
pub open spec fn adt_app(scrutinee: Seq<char>, defs: Seq<DefV>) -> TermV {
    call(TermV::Var(scrutinee), def_refs(defs))
}

/// If `c` stands at position `i` and nowhere before, `i` is its first index.
pub proof fn lemma_first_index(tags: Seq<Seq<char>>, c: Seq<char>, i: int)
    requires
        0 <= i < tags.len(),
        tags[i] == c,
        forall|k: int| 0 <= k < i ==> tags[k] != c,
    ensures
        first_index(tags, c) == i,
    decreases i,
{
    if i > 0 {
        let rest = tags.drop_first();
        assert(rest[i - 1] == tags[i]);
        assert forall|k: int| 0 <= k < i - 1 implies rest[k] != c by {
            assert(rest[k] == tags[k + 1]);
        }
        lemma_first_index(rest, c, i - 1);
    }
}

/// A definition named `name` with `body` as its only rule.
pub fn single_rule_def(name: String, body: Term) -> (d: Definition)
    ensures
        d@ == single_rule(name@, body@),
{
    let rule = Rule { pats: Vec::new(), body };
    assert(pats_view(rule.pats@) =~= Seq::<PatV>::empty());
    let mut rules: Vec<Rule> = Vec::new();
    rules.push(rule);
    let d = Definition { name, rules };
    assert(rules_view(d.rules@) =~= seq![RuleV { pats: Seq::empty(), body: body@ }]);
    d
}

/// Mints one definition per arm of a native number match and returns the
/// arms that refer to them.
pub fn match_native_arms(
    arms: &Vec<(Pattern, Term)>,
    def_name: &String,
    new_defs: &mut Vec<Definition>,
    match_count: usize,
) -> (r: Vec<(Pattern, Term)>)
    requires
        forall|i: int| 0 <= i < arms.len() ==> is_numeric(pat_view((#[trigger] arms@[i]).0)),
    ensures
        arms_view(r@) == native_arms(arms_view(arms@), def_name@, match_count as nat),
        defs_view(final(new_defs)@) == defs_view(old(new_defs)@) + native_defs(
            arms_view(arms@),
            def_name@,
            match_count as nat,
        ),
{
    let ghost before = defs_view(new_defs@);
    let ghost minted = native_defs(arms_view(arms@), def_name@, match_count as nat);
    let mut new_arms: Vec<(Pattern, Term)> = Vec::new();
    let mut i: usize = 0;
    assert(defs_view(new_defs@) =~= before + minted.take(0));
    while i < arms.len()
        invariant
            i <= arms.len(),
            new_arms.len() == i,
            minted == native_defs(arms_view(arms@), def_name@, match_count as nat),
            forall|k: int| 0 <= k < arms.len() ==> is_numeric(pat_view((#[trigger] arms@[k]).0)),
            defs_view(new_defs@) == before + minted.take(i as int),
            forall|k: int|
                0 <= k < i ==> (pat_view((#[trigger] new_arms@[k]).0), term_view(new_arms@[k].1))
                    == native_arm(arms_view(arms@)[k], def_name@, match_count as nat),
        decreases arms.len() - i,
    {
        let ghost arm = arms_view(arms@)[i as int];
        assert(arm == (pat_view(arms@[i as int].0), term_view(arms@[i as int].1)));
        assert(is_numeric(pat_view(arms@[i as int].0)));
        proof {
            reveal_strlit("zero");
            reveal_strlit("succ");
        }
        let body = copy_term(&arms[i].1);
        let (tag, def_body, binder) = match &arms[i].0 {
            Pattern::Succ(Some(nam)) => (
                String::from_str("succ"),
                Term::Lam { nam: Some(nam.clone()), bod: Box::new(body) },
                Some(nam.clone()),
            ),
            Pattern::Succ(None) => (String::from_str("succ"), body, None),
            _ => (String::from_str("zero"), body, None),
        };
        assert(tag@ == native_tag(arm.0));
        let name = make_def_name(def_name, &tag, match_count);
        let reference = Term::Ref { nam: name.clone() };
        assert(reference@ == TermV::Ref(name@));
        let def = single_rule_def(name, def_body);
        assert(def@ == native_def(arm, def_name@, match_count as nat));
        let ghost defs_before = defs_view(new_defs@);
        new_defs.push(def);
        assert(defs_view(new_defs@) =~= defs_before.push(def@));
        assert(minted.take(i + 1) =~= minted.take(i as int).push(minted[i as int]));
        let new_body = match binder {
            Some(nam) => {
                let v = Term::Var { nam };
                assert(v@ == TermV::Var(nam@));
                Term::App { fun: Box::new(reference), arg: Box::new(v) }
            },
            None => reference,
        };
        new_arms.push((copy_pattern(&arms[i].0), new_body));
        i += 1;
    }
    assert(minted.take(arms.len() as int) =~= minted);
    assert(arms_view(new_arms@) =~= native_arms(arms_view(arms@), def_name@, match_count as nat));
    new_arms
}

/// The position of the first arm tagged `ctr`, if there is one.
pub fn find_arm(arms: &Vec<(Pattern, Term)>, ctr: &String) -> (r: Option<usize>)
    requires
        forall|i: int| 0 <= i < arms.len() ==> is_tagged(pat_view((#[trigger] arms@[i]).0)),
    ensures
        match r {
            Some(i) => i < arms.len() && i == first_index(arm_tags(arms_view(arms@)), ctr@)
                && arm_tags(arms_view(arms@)).contains(ctr@),
            None => !arm_tags(arms_view(arms@)).contains(ctr@),
        },
{
    let ghost tags = arm_tags(arms_view(arms@));
    let mut i: usize = 0;
    while i < arms.len()
        invariant
            i <= arms.len(),
            tags == arm_tags(arms_view(arms@)),
            forall|k: int| 0 <= k < arms.len() ==> is_tagged(pat_view((#[trigger] arms@[k]).0)),
            forall|k: int| 0 <= k < i ==> #[trigger] tags[k] != ctr@,
        decreases arms.len() - i,
    {
        assert(is_tagged(pat_view(arms@[i as int].0)));
        assert(tags[i as int] == arm_tag(pat_view(arms@[i as int].0)));
        let hit = match &arms[i].0 {
            Pattern::Var(Some(n)) => *n == *ctr,
            _ => false,
        };
        if hit {
            proof {
                lemma_first_index(tags, ctr@, i as int);
            }
            return Some(i);
        }
        i += 1;
    }
    None
}

/// Mints one definition per constructor of `adt` that an arm names, in
/// declared order, and returns the scrutinee applied to a reference to each.
pub fn match_adt_app(
    scrutinee: String,
    adt: &Adt,
    arms: &Vec<(Pattern, Term)>,
    def_name: &String,
    new_defs: &mut Vec<Definition>,
    match_count: usize,
) -> (r: Term)
    requires
        forall|i: int| 0 <= i < arms.len() ==> is_tagged(pat_view((#[trigger] arms@[i]).0)),
    ensures
        defs_view(final(new_defs)@) == defs_view(old(new_defs)@) + adt_defs(
            scrutinee@,
            field_entries(adt.ctrs),
            arms_view(arms@),
            def_name@,
            match_count as nat,
        ),
        r@ == adt_app(
            scrutinee@,
            adt_defs(
                scrutinee@,
                field_entries(adt.ctrs),
                arms_view(arms@),
                def_name@,
                match_count as nat,
            ),
        ),
{
    let declared = constructor_list(&adt.ctrs);
    let ghost ctrs = field_entries(adt.ctrs);
    let ghost before = defs_view(new_defs@);
    let ghost count = match_count as nat;
    let mut acc = Term::Var { nam: scrutinee.clone() };
    let mut j: usize = 0;
    assert(ctrs.take(0).len() == 0);
    assert(defs_view(new_defs@) =~= before + Seq::<DefV>::empty());
    assert(def_refs(Seq::<DefV>::empty()).len() == 0);
    while j < declared.len()
        invariant
            j <= declared.len(),
            ctrs == ctr_list_view(declared@),
            count == match_count as nat,
            forall|k: int| 0 <= k < arms.len() ==> is_tagged(pat_view((#[trigger] arms@[k]).0)),
            defs_view(new_defs@) == before + adt_defs(
                scrutinee@,
                ctrs.take(j as int),
                arms_view(arms@),
                def_name@,
                count,
            ),
            acc@ == adt_app(
                scrutinee@,
                adt_defs(scrutinee@, ctrs.take(j as int), arms_view(arms@), def_name@, count),
            ),
        decreases declared.len() - j,
    {
        let ghost so_far = adt_defs(scrutinee@, ctrs.take(j as int), arms_view(arms@), def_name@, count);
        assert(ctrs.take(j + 1).drop_last() =~= ctrs.take(j as int));
        assert(ctrs.take(j + 1).last() == (declared@[j as int].0@, names_view(declared@[j as int].1@)));
        let ctr_name = &declared[j].0;
        let fields = &declared[j].1;
        match find_arm(arms, ctr_name) {
            Some(at) => {
                assert(arms_view(arms@)[at as int].1 == term_view(arms@[at as int].1));
                let ctr_ref = Term::Ref { nam: ctr_name.clone() };
                assert(ctr_ref@ == TermV::Ref(ctr_name@));
                let rebuilt = call_on_fields(ctr_ref, &scrutinee, fields);
                let body = subst_term(&arms[at].1, &scrutinee, &rebuilt);
                let lam = lams_over_fields(body, &scrutinee, fields);
                let name = make_def_name(def_name, ctr_name, match_count);
                let reference = Term::Ref { nam: name.clone() };
                assert(reference@ == TermV::Ref(name@));
                let def = single_rule_def(name, lam);
                let ghost now = so_far.push(def@);
                assert(now == adt_defs(
                    scrutinee@,
                    ctrs.take(j + 1),
                    arms_view(arms@),
                    def_name@,
                    count,
                ));
                let ghost defs_before = defs_view(new_defs@);
                new_defs.push(def);
                assert(defs_view(new_defs@) =~= defs_before.push(def@));
                assert(before + now =~= (before + so_far).push(def@));
                assert(def_refs(now).drop_last() =~= def_refs(so_far));
                assert(def_refs(now).last() == reference@);
                acc = Term::App { fun: Box::new(acc), arg: Box::new(reference) };
            },
            None => {},
        }
        j += 1;
    }
    assert(ctrs.take(declared.len() as int) =~= ctrs);
    acc
}

} // verus!
