//! The match compiler: a bottom-up traversal that lowers every match.
use crate::lower::{
    adt_app, adt_defs, arm_tag, arm_tags, is_numeric, is_tagged, match_adt_app, match_native_arms,
    native_arms, native_defs,
};
use crate::registry::{adt_get, keys_of, owner_get, reg_view, Adt, RegV};
use crate::term::{
    arms_view, copy_opt_name, copy_pattern, copy_term, defs_view, names_view, pat_view, term_view,
    DefV, Definition, PatV, Pattern, Term, TermV,
};
use crate::validate::match_fault;
use indexmap::IndexMap;
use vstd::prelude::*;
use vstd::string::StringExecFns;

verus! {

/// What a traversal threads along: the definitions minted so far and the
/// number of matches met so far in the enclosing definition.
pub struct LowerState {
    pub defs: Seq<DefV>,
    pub count: nat,
}

/// The number of match nodes that a traversal meets: those outside scrutinees.
pub open spec fn match_nodes(t: TermV) -> nat
    decreases t, 0nat,
{
    match t {
        TermV::Match(_, arms) => 1 + match_nodes_upto(arms, arms.len()),
        TermV::Let(_, a, b) => match_nodes(*a) + match_nodes(*b),
        TermV::App(a, b) => match_nodes(*a) + match_nodes(*b),
        TermV::Tup(a, b) => match_nodes(*a) + match_nodes(*b),
        TermV::Sup(a, b) => match_nodes(*a) + match_nodes(*b),
        TermV::Opx(_, a, b) => match_nodes(*a) + match_nodes(*b),
        TermV::Dup(_, _, a, b) => match_nodes(*a) + match_nodes(*b),
        TermV::Lam(_, b) => match_nodes(*b),
        TermV::Chn(_, b) => match_nodes(*b),
        _ => 0,
    }
}

/// The match nodes in the bodies of the first `n` arms.
pub open spec fn match_nodes_upto(arms: Seq<(PatV, TermV)>, n: nat) -> nat
    decreases arms, n,
{
    if n == 0 || n > arms.len() {
        0
    } else {
        match_nodes_upto(arms, (n - 1) as nat) + match_nodes(arms[n - 1].1)
    }
}

/// The terms that lowering accepts. Every match with arms is either numeric
/// (every arm a zero or successor pattern) or algebraic: its scrutinee is a
/// variable, every arm is a named variable pattern, and the first arm's name
/// is a registered constructor of a registered type.
pub open spec fn lowerable(t: TermV, reg: RegV) -> bool
    decreases t,
{
    match t {
        TermV::Match(s, arms) => {
            &&& forall|i: int| 0 <= i < arms.len() ==> lowerable((#[trigger] arms[i]).1, reg)
            &&& arms.len() > 0 ==> if is_numeric(arms[0].0) {
                forall|i: int| 0 <= i < arms.len() ==> is_numeric((#[trigger] arms[i]).0)
            } else {
                &&& *s is Var
                &&& forall|i: int| 0 <= i < arms.len() ==> is_tagged((#[trigger] arms[i]).0)
                &&& reg.type_of(arm_tag(arms[0].0)).is_some()
            }
        },
        TermV::Let(_, a, b) => lowerable(*a, reg) && lowerable(*b, reg),
        TermV::App(a, b) => lowerable(*a, reg) && lowerable(*b, reg),
        TermV::Tup(a, b) => lowerable(*a, reg) && lowerable(*b, reg),
        TermV::Sup(a, b) => lowerable(*a, reg) && lowerable(*b, reg),
        TermV::Opx(_, a, b) => lowerable(*a, reg) && lowerable(*b, reg),
        TermV::Dup(_, _, a, b) => lowerable(*a, reg) && lowerable(*b, reg),
        TermV::Lam(_, b) => lowerable(*b, reg),
        TermV::Chn(_, b) => lowerable(*b, reg),
        _ => true,
    }
}

/// The name of a variable term.
pub open spec fn var_name(t: TermV) -> Seq<char> {
    match t {
        TermV::Var(n) => n,
        _ => Seq::empty(),
    }
}

/// A match whose arm bodies are lowered already, lowered itself as match
/// number `count` of definition `def_name`. A numeric match keeps its shape
/// and gets arms that point to fresh definitions; an algebraic match is
/// validated and becomes the scrutinee applied to its case definitions.
pub open spec fn lowered_match(
    s: TermV,
    arms: Seq<(PatV, TermV)>,
    def_name: Seq<char>,
    reg: RegV,
    defs: Seq<DefV>,
    count: nat,
) -> Result<(TermV, LowerState), Seq<char>> {
    if is_numeric(arms[0].0) {
        Ok(
            (
                TermV::Match(Box::new(s), native_arms(arms, def_name, count)),
                LowerState { defs: defs + native_defs(arms, def_name, count), count },
            ),
        )
    } else {
        let adt = reg.type_of(arm_tag(arms[0].0)).unwrap();
        match match_fault(arm_tags(arms), keys_of(adt)) {
            Some(e) => Err(e),
            None => {
                let minted = adt_defs(var_name(s), adt, arms, def_name, count);
                Ok((adt_app(var_name(s), minted), LowerState { defs: defs + minted, count }))
            },
        }
    }
}

/// The term with every match lowered, bottom-up and left to right, together
/// with the state after it; or the first diagnostic met. A match without arms
/// fails before anything else is looked at; the counter is advanced once per
/// match, after its arm bodies are lowered and before it is named.
pub open spec fn lowered(t: TermV, def_name: Seq<char>, reg: RegV, st: LowerState) -> Result<
    (TermV, LowerState),
    Seq<char>,
>
    decreases t, 0nat,
{
    match t {
        TermV::Match(s, arms) => if arms.len() == 0 {
            Err("Empty match block found"@)
        } else {
            match lowered_upto(arms, arms.len(), def_name, reg, st) {
                Err(e) => Err(e),
                Ok(r) => lowered_match(*s, r.0, def_name, reg, r.1.defs, r.1.count + 1),
            }
        },
        TermV::Let(p, a, b) => match lowered(*a, def_name, reg, st) {
            Err(e) => Err(e),
            Ok(x) => match lowered(*b, def_name, reg, x.1) {
                Err(e) => Err(e),
                Ok(y) => Ok((TermV::Let(p, Box::new(x.0), Box::new(y.0)), y.1)),
            },
        },
        TermV::App(a, b) => match lowered(*a, def_name, reg, st) {
            Err(e) => Err(e),
            Ok(x) => match lowered(*b, def_name, reg, x.1) {
                Err(e) => Err(e),
                Ok(y) => Ok((TermV::App(Box::new(x.0), Box::new(y.0)), y.1)),
            },
        },
        TermV::Tup(a, b) => match lowered(*a, def_name, reg, st) {
            Err(e) => Err(e),
            Ok(x) => match lowered(*b, def_name, reg, x.1) {
                Err(e) => Err(e),
                Ok(y) => Ok((TermV::Tup(Box::new(x.0), Box::new(y.0)), y.1)),
            },
        },
        TermV::Sup(a, b) => match lowered(*a, def_name, reg, st) {
            Err(e) => Err(e),
            Ok(x) => match lowered(*b, def_name, reg, x.1) {
                Err(e) => Err(e),
                Ok(y) => Ok((TermV::Sup(Box::new(x.0), Box::new(y.0)), y.1)),
            },
        },
        TermV::Opx(op, a, b) => match lowered(*a, def_name, reg, st) {
            Err(e) => Err(e),
            Ok(x) => match lowered(*b, def_name, reg, x.1) {
                Err(e) => Err(e),
                Ok(y) => Ok((TermV::Opx(op, Box::new(x.0), Box::new(y.0)), y.1)),
            },
        },
        TermV::Dup(n, m, a, b) => match lowered(*a, def_name, reg, st) {
            Err(e) => Err(e),
            Ok(x) => match lowered(*b, def_name, reg, x.1) {
                Err(e) => Err(e),
                Ok(y) => Ok((TermV::Dup(n, m, Box::new(x.0), Box::new(y.0)), y.1)),
            },
        },
        TermV::Lam(n, b) => match lowered(*b, def_name, reg, st) {
            Err(e) => Err(e),
            Ok(x) => Ok((TermV::Lam(n, Box::new(x.0)), x.1)),
        },
        TermV::Chn(n, b) => match lowered(*b, def_name, reg, st) {
            Err(e) => Err(e),
            Ok(x) => Ok((TermV::Chn(n, Box::new(x.0)), x.1)),
        },
        _ => Ok((t, st)),
    }
}

/// The first `n` arms with their bodies lowered in order, and the state after
/// them; or the first diagnostic met.
pub open spec fn lowered_upto(
    arms: Seq<(PatV, TermV)>,
    n: nat,
    def_name: Seq<char>,
    reg: RegV,
    st: LowerState,
) -> Result<(Seq<(PatV, TermV)>, LowerState), Seq<char>>
    decreases arms, n,
{
    if n == 0 || n > arms.len() {
        Ok((Seq::empty(), st))
    } else {
        match lowered_upto(arms, (n - 1) as nat, def_name, reg, st) {
            Err(e) => Err(e),
            Ok(r) => match lowered(arms[n - 1].1, def_name, reg, r.1) {
                Err(e) => Err(e),
                Ok(x) => Ok((r.0.push((arms[n - 1].0, x.0)), x.1)),
            },
        }
    }
}

/// A failure among the first `n` arms is the failure of any longer prefix.
pub proof fn lemma_upto_error(
    arms: Seq<(PatV, TermV)>,
    n: nat,
    m: nat,
    def_name: Seq<char>,
    reg: RegV,
    st: LowerState,
)
    requires
        n <= m <= arms.len(),
        lowered_upto(arms, n, def_name, reg, st) is Err,
    ensures
        lowered_upto(arms, m, def_name, reg, st) == lowered_upto(arms, n, def_name, reg, st),
    decreases m,
{
    if m > n {
        lemma_upto_error(arms, n, (m - 1) as nat, def_name, reg, st);
    }
}

/// A longer prefix of the arms holds at least as many match nodes.
pub proof fn lemma_nodes_upto_mono(arms: Seq<(PatV, TermV)>, n: nat, m: nat)
    requires
        n <= m <= arms.len(),
    ensures
        match_nodes_upto(arms, n) <= match_nodes_upto(arms, m),
    decreases m,
{
    if m > n {
        lemma_nodes_upto_mono(arms, n, (m - 1) as nat);
    }
}

/// The state that a definition list and a counter stand for.
pub open spec fn state_of(defs: Seq<Definition>, count: usize) -> LowerState {
    LowerState { defs: defs_view(defs), count: count as nat }
}

/// Whether `res` is the success that yields `term` and leaves `st`.
pub open spec fn yields(res: Result<(TermV, LowerState), Seq<char>>, term: TermV, st: LowerState) -> bool {
    res matches Ok(x) && x.0 == term && x.1 == st
}

/// Whether `res` is the failure with diagnostic `msg`.
pub open spec fn fails_with(res: Result<(TermV, LowerState), Seq<char>>, msg: Seq<char>) -> bool {
    res matches Err(e) && e == msg
}

/// The names that the arm patterns carry, in arm order.
pub fn collect_tags(arms: &Vec<(Pattern, Term)>) -> (r: Vec<String>)
    requires
        forall|i: int| 0 <= i < arms.len() ==> is_tagged(pat_view((#[trigger] arms@[i]).0)),
    ensures
        names_view(r@) == arm_tags(arms_view(arms@)),
{
    let mut tags: Vec<String> = Vec::new();
    let mut i: usize = 0;
    while i < arms.len()
        invariant
            i <= arms.len(),
            tags.len() == i,
            forall|k: int| 0 <= k < arms.len() ==> is_tagged(pat_view((#[trigger] arms@[k]).0)),
            forall|k: int| 0 <= k < i ==> (#[trigger] tags@[k])@ == arm_tag(pat_view(arms@[k].0)),
        decreases arms.len() - i,
    {
        assert(is_tagged(pat_view(arms@[i as int].0)));
        match &arms[i].0 {
            Pattern::Var(Some(n)) => {
                tags.push(n.clone());
            },
            _ => {
                assert(false);
            },
        }
        i += 1;
    }
    assert(names_view(tags@) =~= arm_tags(arms_view(arms@)));
    tags
}

/// Lowers a match whose arm bodies are lowered already, as match number
/// `match_count` of definition `def_name`.
fn finish_match(
    scrutinee: &Term,
    arms: &Vec<(Pattern, Term)>,
    def_name: &String,
    adts: &IndexMap<String, Adt>,
    ctrs: &IndexMap<String, String>,
    new_defs: &mut Vec<Definition>,
    match_count: usize,
) -> (r: Result<Term, String>)
    requires
        arms.len() > 0,
        if is_numeric(pat_view(arms@[0].0)) {
            forall|i: int| 0 <= i < arms.len() ==> is_numeric(pat_view((#[trigger] arms@[i]).0))
        } else {
            &&& scrutinee@ is Var
            &&& forall|i: int| 0 <= i < arms.len() ==> is_tagged(pat_view((#[trigger] arms@[i]).0))
            &&& reg_view(*ctrs, *adts).type_of(arm_tag(pat_view(arms@[0].0))).is_some()
        },
    ensures
        match r {
            Ok(term) => yields(
                lowered_match(
                    scrutinee@,
                    arms_view(arms@),
                    def_name@,
                    reg_view(*ctrs, *adts),
                    defs_view(old(new_defs)@),
                    match_count as nat,
                ),
                term@,
                state_of(final(new_defs)@, match_count),
            ),
            Err(e) => fails_with(
                lowered_match(
                    scrutinee@,
                    arms_view(arms@),
                    def_name@,
                    reg_view(*ctrs, *adts),
                    defs_view(old(new_defs)@),
                    match_count as nat,
                ),
                e@,
            ),
        },
{
    let ghost varms = arms_view(arms@);
    assert(varms[0] == (pat_view(arms@[0].0), term_view(arms@[0].1)));
    let numeric = match &arms[0].0 {
        Pattern::Zero => true,
        Pattern::Succ(_) => true,
        _ => false,
    };
    if numeric {
        let new_arms = match_native_arms(arms, def_name, new_defs, match_count);
        Ok(Term::Match { scrutinee: Box::new(copy_term(scrutinee)), arms: new_arms })
    } else {
        let nam = match scrutinee {
            Term::Var { nam } => nam.clone(),
            _ => {
                assert(false);
                String::new()
            },
        };
        let tags = collect_tags(arms);
        assert(tags@[0]@ == names_view(tags@)[0]);
        match Term::check_matches(&tags, adts, ctrs) {
            Err(e) => Err(e),
            Ok(adt) => Ok(match_adt_app(nam, adt, arms, def_name, new_defs, match_count)),
        }
    }
}

/// Copies of the arms with every body lowered, in arm order.
fn lowered_arms(
    arms: &Vec<(Pattern, Term)>,
    def_name: &String,
    adts: &IndexMap<String, Adt>,
    ctrs: &IndexMap<String, String>,
    new_defs: &mut Vec<Definition>,
    match_count: &mut usize,
) -> (r: Result<Vec<(Pattern, Term)>, String>)
    requires
        forall|k: int|
            0 <= k < arms.len() ==> lowerable(term_view((#[trigger] arms@[k]).1), reg_view(*ctrs, *adts)),
        *old(match_count) + match_nodes_upto(arms_view(arms@), arms.len() as nat) <= usize::MAX,
    ensures
        match r {
            Ok(out) => {
                &&& lowered_upto(
                    arms_view(arms@),
                    arms.len() as nat,
                    def_name@,
                    reg_view(*ctrs, *adts),
                    state_of(old(new_defs)@, *old(match_count)),
                ) matches Ok(x) && x.0 == arms_view(out@) && x.1 == state_of(
                    final(new_defs)@,
                    *final(match_count),
                )
                &&& *final(match_count) == *old(match_count) + match_nodes_upto(
                    arms_view(arms@),
                    arms.len() as nat,
                )
                &&& out.len() == arms.len()
                &&& forall|k: int|
                    0 <= k < arms.len() ==> pat_view((#[trigger] out@[k]).0) == pat_view(arms@[k].0)
            },
            Err(e) => lowered_upto(
                arms_view(arms@),
                arms.len() as nat,
                def_name@,
                reg_view(*ctrs, *adts),
                state_of(old(new_defs)@, *old(match_count)),
            ) matches Err(m) && m == e@,
        },
    decreases arms,
{
    let ghost reg = reg_view(*ctrs, *adts);
    let ghost st0 = state_of(new_defs@, *match_count);
    let ghost count0 = *match_count;
    let ghost varms = arms_view(arms@);
    let mut out: Vec<(Pattern, Term)> = Vec::new();
    let mut i: usize = 0;
    assert(arms_view(out@) =~= Seq::<(PatV, TermV)>::empty());
    while i < arms.len()
        invariant
            i <= arms.len(),
            out.len() == i,
            reg == reg_view(*ctrs, *adts),
            varms == arms_view(arms@),
            st0 == state_of(old(new_defs)@, *old(match_count)),
            forall|k: int| 0 <= k < arms.len() ==> lowerable(term_view((#[trigger] arms@[k]).1), reg),
            forall|k: int| 0 <= k < i ==> pat_view((#[trigger] out@[k]).0) == pat_view(arms@[k].0),
            lowered_upto(varms, i as nat, def_name@, reg, st0) matches Ok(x) && x.0 == arms_view(out@)
                && x.1 == state_of(new_defs@, *match_count),
            *match_count == count0 + match_nodes_upto(varms, i as nat),
            count0 + match_nodes_upto(varms, varms.len()) <= usize::MAX,
        decreases arms.len() - i,
    {
        proof {
            vstd::std_specs::vec::axiom_vec_index_decreases(*arms, i as int);
            lemma_nodes_upto_mono(varms, (i + 1) as nat, varms.len());
            assert(varms[i as int] == (pat_view(arms@[i as int].0), term_view(arms@[i as int].1)));
        }
        let ghost so_far = arms_view(out@);
        match lowered_term(&arms[i].1, def_name, adts, ctrs, new_defs, match_count) {
            Ok(b) => {
                let p = copy_pattern(&arms[i].0);
                out.push((p, b));
                assert(arms_view(out@) =~= so_far.push((varms[i as int].0, b@)));
            },
            Err(e) => {
                proof {
                    assert(lowered_upto(varms, (i + 1) as nat, def_name@, reg, st0) is Err);
                    lemma_upto_error(varms, (i + 1) as nat, varms.len(), def_name@, reg, st0);
                }
                return Err(e);
            },
        }
        i += 1;
    }
    Ok(out)
}

/// A copy of `t` with every match lowered. Fresh definitions are appended to
/// `new_defs`; `match_count` advances by one per match.
pub(crate) fn lowered_term(
    t: &Term,
    def_name: &String,
    adts: &IndexMap<String, Adt>,
    ctrs: &IndexMap<String, String>,
    new_defs: &mut Vec<Definition>,
    match_count: &mut usize,
) -> (r: Result<Term, String>)
    requires
        lowerable(t@, reg_view(*ctrs, *adts)),
        *old(match_count) + match_nodes(t@) <= usize::MAX,
    ensures
        match r {
            Ok(term) => {
                &&& yields(
                    lowered(
                        t@,
                        def_name@,
                        reg_view(*ctrs, *adts),
                        state_of(old(new_defs)@, *old(match_count)),
                    ),
                    term@,
                    state_of(final(new_defs)@, *final(match_count)),
                )
                &&& *final(match_count) == *old(match_count) + match_nodes(t@)
            },
            Err(e) => fails_with(
                lowered(
                    t@,
                    def_name@,
                    reg_view(*ctrs, *adts),
                    state_of(old(new_defs)@, *old(match_count)),
                ),
                e@,
            ),
        },
    decreases t,
{
    match t {
        Term::Match { scrutinee, arms } => {
            if arms.len() == 0 {
                assert(arms_view(arms@).len() == 0);
                return Err(String::from_str("Empty match block found"));
            }
            let ghost varms = arms_view(arms@);
            assert forall|k: int| 0 <= k < arms.len() implies lowerable(
                term_view((#[trigger] arms@[k]).1),
                reg_view(*ctrs, *adts),
            ) by {
                assert(varms[k] == (pat_view(arms@[k].0), term_view(arms@[k].1)));
            }
            let out = match lowered_arms(arms, def_name, adts, ctrs, new_defs, match_count) {
                Ok(x) => x,
                Err(e) => {
                    return Err(e);
                },
            };
            *match_count = *match_count + 1;
            proof {
                assert(varms[0] == (pat_view(arms@[0].0), term_view(arms@[0].1)));
                if is_numeric(varms[0].0) {
                    assert forall|k: int| 0 <= k < out.len() implies is_numeric(
                        pat_view((#[trigger] out@[k]).0),
                    ) by {
                        assert(varms[k] == (pat_view(arms@[k].0), term_view(arms@[k].1)));
                    }
                } else {
                    assert forall|k: int| 0 <= k < out.len() implies is_tagged(
                        pat_view((#[trigger] out@[k]).0),
                    ) by {
                        assert(varms[k] == (pat_view(arms@[k].0), term_view(arms@[k].1)));
                    }
                }
            }
            finish_match(scrutinee, &out, def_name, adts, ctrs, new_defs, *match_count)
        },
        Term::Let { pat, val, nxt } => {
            let a = match lowered_term(val, def_name, adts, ctrs, new_defs, match_count) {
                Ok(x) => x,
                Err(e) => {
                    return Err(e);
                },
            };
            let b = match lowered_term(nxt, def_name, adts, ctrs, new_defs, match_count) {
                Ok(x) => x,
                Err(e) => {
                    return Err(e);
                },
            };
            Ok(Term::Let { pat: copy_pattern(pat), val: Box::new(a), nxt: Box::new(b) })
        },
        Term::App { fun, arg } => {
            let a = match lowered_term(fun, def_name, adts, ctrs, new_defs, match_count) {
                Ok(x) => x,
                Err(e) => {
                    return Err(e);
                },
            };
            let b = match lowered_term(arg, def_name, adts, ctrs, new_defs, match_count) {
                Ok(x) => x,
                Err(e) => {
                    return Err(e);
                },
            };
            Ok(Term::App { fun: Box::new(a), arg: Box::new(b) })
        },
        Term::Tup { fst, snd } => {
            let a = match lowered_term(fst, def_name, adts, ctrs, new_defs, match_count) {
                Ok(x) => x,
                Err(e) => {
                    return Err(e);
                },
            };
            let b = match lowered_term(snd, def_name, adts, ctrs, new_defs, match_count) {
                Ok(x) => x,
                Err(e) => {
                    return Err(e);
                },
            };
            Ok(Term::Tup { fst: Box::new(a), snd: Box::new(b) })
        },
        Term::Sup { fst, snd } => {
            let a = match lowered_term(fst, def_name, adts, ctrs, new_defs, match_count) {
                Ok(x) => x,
                Err(e) => {
                    return Err(e);
                },
            };
            let b = match lowered_term(snd, def_name, adts, ctrs, new_defs, match_count) {
                Ok(x) => x,
                Err(e) => {
                    return Err(e);
                },
            };
            Ok(Term::Sup { fst: Box::new(a), snd: Box::new(b) })
        },
        Term::Opx { op, fst, snd } => {
            let a = match lowered_term(fst, def_name, adts, ctrs, new_defs, match_count) {
                Ok(x) => x,
                Err(e) => {
                    return Err(e);
                },
            };
            let b = match lowered_term(snd, def_name, adts, ctrs, new_defs, match_count) {
                Ok(x) => x,
                Err(e) => {
                    return Err(e);
                },
            };
            Ok(Term::Opx { op: *op, fst: Box::new(a), snd: Box::new(b) })
        },
        Term::Dup { fst, snd, val, nxt } => {
            let a = match lowered_term(val, def_name, adts, ctrs, new_defs, match_count) {
                Ok(x) => x,
                Err(e) => {
                    return Err(e);
                },
            };
            let b = match lowered_term(nxt, def_name, adts, ctrs, new_defs, match_count) {
                Ok(x) => x,
                Err(e) => {
                    return Err(e);
                },
            };
            Ok(Term::Dup { fst: copy_opt_name(fst), snd: copy_opt_name(snd), val: Box::new(a), nxt: Box::new(b) })
        },
        Term::Lam { nam, bod } => {
            let b = match lowered_term(bod, def_name, adts, ctrs, new_defs, match_count) {
                Ok(x) => x,
                Err(e) => {
                    return Err(e);
                },
            };
            Ok(Term::Lam { nam: copy_opt_name(nam), bod: Box::new(b) })
        },
        Term::Chn { nam, bod } => {
            let b = match lowered_term(bod, def_name, adts, ctrs, new_defs, match_count) {
                Ok(x) => x,
                Err(e) => {
                    return Err(e);
                },
            };
            Ok(Term::Chn { nam: nam.clone(), bod: Box::new(b) })
        },
        _ => Ok(copy_term(t)),
    }
}

impl Term {
    /// Lowers every match in the term, as match numbers after `match_count`
    /// of definition `def_name`. On success the term is replaced by its
    /// lowering, the fresh definitions are appended to `new_defs` and the
    /// counter has advanced by the number of matches met. On failure the
    /// diagnostic is returned and the term, the definitions and the counter
    /// are left as they were.
    pub fn simplify_matches(
        &mut self,
        def_name: &String,
        adts: &IndexMap<String, Adt>,
        ctrs: &IndexMap<String, String>,
        new_defs: &mut Vec<Definition>,
        match_count: &mut usize,
    ) -> (r: Result<(), String>)
        requires
            lowerable(old(self)@, reg_view(*ctrs, *adts)),
            *old(match_count) + match_nodes(old(self)@) <= usize::MAX,
        ensures
            match r {
                Ok(_) => {
                    &&& yields(
                        lowered(
                            old(self)@,
                            def_name@,
                            reg_view(*ctrs, *adts),
                            state_of(old(new_defs)@, *old(match_count)),
                        ),
                        final(self)@,
                        state_of(final(new_defs)@, *final(match_count)),
                    )
                    &&& *final(match_count) == *old(match_count) + match_nodes(old(self)@)
                },
                Err(e) => {
                    &&& fails_with(
                        lowered(
                            old(self)@,
                            def_name@,
                            reg_view(*ctrs, *adts),
                            state_of(old(new_defs)@, *old(match_count)),
                        ),
                        e@,
                    )
                    &&& *final(self) == *old(self)
                    &&& *final(new_defs) == *old(new_defs)
                    &&& *final(match_count) == *old(match_count)
                },
            },
    {
        let ghost before = defs_view(new_defs@);
        let ghost start = state_of(Seq::empty(), *match_count);
        let mut minted: Vec<Definition> = Vec::new();
        let mut count: usize = *match_count;
        proof {
            assert(defs_view(minted@) =~= defs_view(Seq::empty()));
            assert(before + start.defs =~= before);
            assert(after_prefix(before, start) == state_of(new_defs@, *match_count));
            lemma_lowered_prefix(self@, def_name@, reg_view(*ctrs, *adts), before, start);
        }
        match lowered_term(&*self, def_name, adts, ctrs, &mut minted, &mut count) {
            Ok(term) => {
                *self = term;
                let ghost fresh = defs_view(minted@);
                new_defs.append(&mut minted);
                assert(defs_view(new_defs@) =~= before + fresh);
                *match_count = count;
                Ok(())
            },
            Err(e) => Err(e),
        }
    }
}

/// Whether every arm has a zero or successor pattern.
pub fn all_numeric(arms: &Vec<(Pattern, Term)>) -> (b: bool)
    ensures
        b == forall|i: int| 0 <= i < arms.len() ==> is_numeric(pat_view((#[trigger] arms@[i]).0)),
{
    let mut i: usize = 0;
    while i < arms.len()
        invariant
            i <= arms.len(),
            forall|k: int| 0 <= k < i ==> is_numeric(pat_view((#[trigger] arms@[k]).0)),
        decreases arms.len() - i,
    {
        let numeric = match &arms[i].0 {
            Pattern::Zero => true,
            Pattern::Succ(_) => true,
            _ => false,
        };
        if !numeric {
            assert(!is_numeric(pat_view(arms@[i as int].0)));
            return false;
        }
        i += 1;
    }
    true
}

/// Whether every arm has a named variable pattern.
pub fn all_tagged(arms: &Vec<(Pattern, Term)>) -> (b: bool)
    ensures
        b == forall|i: int| 0 <= i < arms.len() ==> is_tagged(pat_view((#[trigger] arms@[i]).0)),
{
    let mut i: usize = 0;
    while i < arms.len()
        invariant
            i <= arms.len(),
            forall|k: int| 0 <= k < i ==> is_tagged(pat_view((#[trigger] arms@[k]).0)),
        decreases arms.len() - i,
    {
        let tagged = match &arms[i].0 {
            Pattern::Var(Some(_)) => true,
            _ => false,
        };
        if !tagged {
            assert(!is_tagged(pat_view(arms@[i as int].0)));
            return false;
        }
        i += 1;
    }
    true
}

/// Whether the arm patterns and the scrutinee of a match with arms are those
/// of a numeric match or of an algebraic match that the registries resolve.
pub fn is_match_head(
    scrutinee: &Term,
    arms: &Vec<(Pattern, Term)>,
    adts: &IndexMap<String, Adt>,
    ctrs: &IndexMap<String, String>,
) -> (b: bool)
    requires
        arms.len() > 0,
    ensures
        b == if is_numeric(pat_view(arms@[0].0)) {
            forall|i: int| 0 <= i < arms.len() ==> is_numeric(pat_view((#[trigger] arms@[i]).0))
        } else {
            &&& scrutinee@ is Var
            &&& forall|i: int| 0 <= i < arms.len() ==> is_tagged(pat_view((#[trigger] arms@[i]).0))
            &&& reg_view(*ctrs, *adts).type_of(arm_tag(pat_view(arms@[0].0))).is_some()
        },
{
    let numeric = match &arms[0].0 {
        Pattern::Zero => true,
        Pattern::Succ(_) => true,
        _ => false,
    };
    if numeric {
        all_numeric(arms)
    } else {
        let on_var = match scrutinee {
            Term::Var { .. } => true,
            _ => false,
        };
        if !on_var || !all_tagged(arms) {
            return false;
        }
        assert(is_tagged(pat_view(arms@[0].0)));
        match &arms[0].0 {
            Pattern::Var(Some(tag)) => match owner_get(ctrs, tag) {
                None => false,
                Some(owner) => adt_get(adts, owner).is_some(),
            },
            _ => false,
        }
    }
}

/// Whether lowering accepts the term.
pub fn is_lowerable(t: &Term, adts: &IndexMap<String, Adt>, ctrs: &IndexMap<String, String>) -> (b:
    bool)
    ensures
        b == lowerable(t@, reg_view(*ctrs, *adts)),
    decreases t,
{
    let ghost reg = reg_view(*ctrs, *adts);
    match t {
        Term::Match { scrutinee, arms } => {
            let ghost varms = arms_view(arms@);
            let mut i: usize = 0;
            while i < arms.len()
                invariant
                    i <= arms.len(),
                    decreases_to!(*t => *arms),
                    reg == reg_view(*ctrs, *adts),
                    varms == arms_view(arms@),
                    term_view(*t) == TermV::Match(Box::new(term_view(**scrutinee)), varms),
                    forall|k: int| 0 <= k < i ==> lowerable((#[trigger] varms[k]).1, reg),
                decreases arms.len() - i,
            {
                proof {
                    vstd::std_specs::vec::axiom_vec_index_decreases(*arms, i as int);
                    assert(varms[i as int] == (pat_view(arms@[i as int].0), term_view(arms@[i as int].1)));
                }
                if !is_lowerable(&arms[i].1, adts, ctrs) {
                    assert(!lowerable(varms[i as int].1, reg));
                    return false;
                }
                i += 1;
            }
            if arms.len() == 0 {
                return true;
            }
            let head = is_match_head(scrutinee, arms, adts, ctrs);
            proof {
                assert(varms[0] == (pat_view(arms@[0].0), term_view(arms@[0].1)));
                assert forall|k: int| 0 <= k < arms.len() implies (#[trigger] varms[k]).0 == pat_view(
                    arms@[k].0,
                ) by {
                    assert(varms[k] == (pat_view(arms@[k].0), term_view(arms@[k].1)));
                }
                if is_numeric(varms[0].0) {
                    if head {
                        assert forall|k: int| 0 <= k < varms.len() implies is_numeric(
                            (#[trigger] varms[k]).0,
                        ) by {
                            assert(is_numeric(pat_view(arms@[k].0)));
                        }
                    } else {
                        let k = choose|k: int|
                            0 <= k < arms.len() && !is_numeric(pat_view((#[trigger] arms@[k]).0));
                        assert(!is_numeric(varms[k].0));
                    }
                } else {
                    if head {
                        assert forall|k: int| 0 <= k < varms.len() implies is_tagged(
                            (#[trigger] varms[k]).0,
                        ) by {
                            assert(is_tagged(pat_view(arms@[k].0)));
                        }
                    } else if scrutinee@ is Var && reg.type_of(arm_tag(varms[0].0)).is_some() {
                        let k = choose|k: int|
                            0 <= k < arms.len() && !is_tagged(pat_view((#[trigger] arms@[k]).0));
                        assert(!is_tagged(varms[k].0));
                    }
                }
            }
            head
        },
        Term::Let { pat, val, nxt } => is_lowerable(val, adts, ctrs) && is_lowerable(nxt, adts, ctrs),
        Term::App { fun, arg } => is_lowerable(fun, adts, ctrs) && is_lowerable(arg, adts, ctrs),
        Term::Tup { fst, snd } => is_lowerable(fst, adts, ctrs) && is_lowerable(snd, adts, ctrs),
        Term::Sup { fst, snd } => is_lowerable(fst, adts, ctrs) && is_lowerable(snd, adts, ctrs),
        Term::Opx { op, fst, snd } => is_lowerable(fst, adts, ctrs) && is_lowerable(snd, adts, ctrs),
        Term::Dup { fst, snd, val, nxt } => is_lowerable(val, adts, ctrs) && is_lowerable(
            nxt,
            adts,
            ctrs,
        ),
        Term::Lam { nam, bod } => is_lowerable(bod, adts, ctrs),
        Term::Chn { nam, bod } => is_lowerable(bod, adts, ctrs),
        _ => true,
    }
}

/// The value of a match counter that stands at `start` after lowering `t`;
/// `None` where it would not fit the machine word.
pub fn count_after(t: &Term, start: usize) -> (r: Option<usize>)
    ensures
        match r {
            Some(n) => n == start + match_nodes(t@),
            None => start + match_nodes(t@) > usize::MAX,
        },
    decreases t,
{
    match t {
        Term::Match { scrutinee, arms } => {
            let ghost varms = arms_view(arms@);
            let mut acc: usize = start;
            let mut i: usize = 0;
            while i < arms.len()
                invariant
                    i <= arms.len(),
                    decreases_to!(*t => *arms),
                    varms == arms_view(arms@),
                    term_view(*t) == TermV::Match(Box::new(term_view(**scrutinee)), varms),
                    acc == start + match_nodes_upto(varms, i as nat),
                decreases arms.len() - i,
            {
                proof {
                    vstd::std_specs::vec::axiom_vec_index_decreases(*arms, i as int);
                    lemma_nodes_upto_mono(varms, (i + 1) as nat, varms.len());
                    assert(varms[i as int] == (pat_view(arms@[i as int].0), term_view(arms@[i as int].1)));
                }
                match count_after(&arms[i].1, acc) {
                    Some(n) => {
                        acc = n;
                    },
                    None => {
                        return None;
                    },
                }
                i += 1;
            }
            if acc == usize::MAX {
                None
            } else {
                Some(acc + 1)
            }
        },
        Term::Let { pat, val, nxt } => match count_after(val, start) {
            None => None,
            Some(n) => count_after(nxt, n),
        },
        Term::App { fun, arg } => match count_after(fun, start) {
            None => None,
            Some(n) => count_after(arg, n),
        },
        Term::Tup { fst, snd } => match count_after(fst, start) {
            None => None,
            Some(n) => count_after(snd, n),
        },
        Term::Sup { fst, snd } => match count_after(fst, start) {
            None => None,
            Some(n) => count_after(snd, n),
        },
        Term::Opx { op, fst, snd } => match count_after(fst, start) {
            None => None,
            Some(n) => count_after(snd, n),
        },
        Term::Dup { fst, snd, val, nxt } => match count_after(val, start) {
            None => None,
            Some(n) => count_after(nxt, n),
        },
        Term::Lam { nam, bod } => count_after(bod, start),
        Term::Chn { nam, bod } => count_after(bod, start),
        _ => Some(start),
    }
}

impl Term {
    /// Lowers every match in the term where lowering accepts the term and the
    /// counter cannot overflow, and says what `simplify_matches` said. Returns
    /// `None`, with nothing changed, on any other term.
    pub fn try_simplify_matches(
        &mut self,
        def_name: &String,
        adts: &IndexMap<String, Adt>,
        ctrs: &IndexMap<String, String>,
        new_defs: &mut Vec<Definition>,
        match_count: &mut usize,
    ) -> (r: Option<Result<(), String>>)
        ensures
            r.is_some() == (lowerable(old(self)@, reg_view(*ctrs, *adts)) && *old(match_count)
                + match_nodes(old(self)@) <= usize::MAX),
            match r {
                Some(Ok(_)) => {
                    &&& yields(
                        lowered(
                            old(self)@,
                            def_name@,
                            reg_view(*ctrs, *adts),
                            state_of(old(new_defs)@, *old(match_count)),
                        ),
                        final(self)@,
                        state_of(final(new_defs)@, *final(match_count)),
                    )
                    &&& *final(match_count) == *old(match_count) + match_nodes(old(self)@)
                },
                Some(Err(e)) => {
                    &&& fails_with(
                        lowered(
                            old(self)@,
                            def_name@,
                            reg_view(*ctrs, *adts),
                            state_of(old(new_defs)@, *old(match_count)),
                        ),
                        e@,
                    )
                    &&& *final(self) == *old(self)
                    &&& *final(new_defs) == *old(new_defs)
                    &&& *final(match_count) == *old(match_count)
                },
                None => {
                    &&& *final(self) == *old(self)
                    &&& *final(new_defs) == *old(new_defs)
                    &&& *final(match_count) == *old(match_count)
                },
            },
    {
        if !is_lowerable(&*self, adts, ctrs) {
            return None;
        }
        if count_after(&*self, *match_count).is_none() {
            return None;
        }
        Some(self.simplify_matches(def_name, adts, ctrs, new_defs, match_count))
    }
}

/// The state with `prefix` put before its definitions.
pub open spec fn after_prefix(prefix: Seq<DefV>, st: LowerState) -> LowerState {
    LowerState { defs: prefix + st.defs, count: st.count }
}

/// Lowering does not look at the definitions minted before it: with more
/// definitions in front, it yields the same term, mints the same definitions
/// behind them, and fails with the same diagnostic.
pub proof fn lemma_lowered_prefix(
    t: TermV,
    def_name: Seq<char>,
    reg: RegV,
    prefix: Seq<DefV>,
    st: LowerState,
)
    ensures
        match lowered(t, def_name, reg, st) {
            Ok(r) => lowered(t, def_name, reg, after_prefix(prefix, st)) == Ok::<
                (TermV, LowerState),
                Seq<char>,
            >((r.0, after_prefix(prefix, r.1))),
            Err(e) => lowered(t, def_name, reg, after_prefix(prefix, st)) == Err::<
                (TermV, LowerState),
                Seq<char>,
            >(e),
        },
    decreases t, 0nat,
{
    match t {
        TermV::Match(s, arms) => {
            if arms.len() > 0 {
                lemma_lowered_upto_prefix(arms, arms.len(), def_name, reg, prefix, st);
                match lowered_upto(arms, arms.len(), def_name, reg, st) {
                    Ok(r) => {
                        let count = r.1.count + 1;
                        let plain = lowered_match(*s, r.0, def_name, reg, r.1.defs, count);
                        let shifted = lowered_match(*s, r.0, def_name, reg, prefix + r.1.defs, count);
                        if plain is Ok {
                            assert(shifted->Ok_0.1.defs =~= prefix + plain->Ok_0.1.defs);
                        }
                    },
                    Err(_) => {},
                }
            }
        },
        TermV::Let(_, a, b) => {
            lemma_lowered_prefix(*a, def_name, reg, prefix, st);
            if lowered(*a, def_name, reg, st) is Ok {
                lemma_lowered_prefix(*b, def_name, reg, prefix, lowered(*a, def_name, reg, st)->Ok_0.1);
            }
        },
        TermV::App(a, b) => {
            lemma_lowered_prefix(*a, def_name, reg, prefix, st);
            if lowered(*a, def_name, reg, st) is Ok {
                lemma_lowered_prefix(*b, def_name, reg, prefix, lowered(*a, def_name, reg, st)->Ok_0.1);
            }
        },
        TermV::Tup(a, b) => {
            lemma_lowered_prefix(*a, def_name, reg, prefix, st);
            if lowered(*a, def_name, reg, st) is Ok {
                lemma_lowered_prefix(*b, def_name, reg, prefix, lowered(*a, def_name, reg, st)->Ok_0.1);
            }
        },
        TermV::Sup(a, b) => {
            lemma_lowered_prefix(*a, def_name, reg, prefix, st);
            if lowered(*a, def_name, reg, st) is Ok {
                lemma_lowered_prefix(*b, def_name, reg, prefix, lowered(*a, def_name, reg, st)->Ok_0.1);
            }
        },
        TermV::Opx(_, a, b) => {
            lemma_lowered_prefix(*a, def_name, reg, prefix, st);
            if lowered(*a, def_name, reg, st) is Ok {
                lemma_lowered_prefix(*b, def_name, reg, prefix, lowered(*a, def_name, reg, st)->Ok_0.1);
            }
        },
        TermV::Dup(_, _, a, b) => {
            lemma_lowered_prefix(*a, def_name, reg, prefix, st);
            if lowered(*a, def_name, reg, st) is Ok {
                lemma_lowered_prefix(*b, def_name, reg, prefix, lowered(*a, def_name, reg, st)->Ok_0.1);
            }
        },
        TermV::Lam(_, b) => {
            lemma_lowered_prefix(*b, def_name, reg, prefix, st);
        },
        TermV::Chn(_, b) => {
            lemma_lowered_prefix(*b, def_name, reg, prefix, st);
        },
        _ => {},
    }
}

/// The same for the first `n` arm bodies of a match.
pub proof fn lemma_lowered_upto_prefix(
    arms: Seq<(PatV, TermV)>,
    n: nat,
    def_name: Seq<char>,
    reg: RegV,
    prefix: Seq<DefV>,
    st: LowerState,
)
    requires
        n <= arms.len(),
    ensures
        match lowered_upto(arms, n, def_name, reg, st) {
            Ok(r) => lowered_upto(arms, n, def_name, reg, after_prefix(prefix, st)) == Ok::<
                (Seq<(PatV, TermV)>, LowerState),
                Seq<char>,
            >((r.0, after_prefix(prefix, r.1))),
            Err(e) => lowered_upto(arms, n, def_name, reg, after_prefix(prefix, st)) == Err::<
                (Seq<(PatV, TermV)>, LowerState),
                Seq<char>,
            >(e),
        },
    decreases arms, n,
{
    if n > 0 {
        lemma_lowered_upto_prefix(arms, (n - 1) as nat, def_name, reg, prefix, st);
        match lowered_upto(arms, (n - 1) as nat, def_name, reg, st) {
            Ok(r) => {
                lemma_lowered_prefix(arms[n - 1].1, def_name, reg, prefix, r.1);
            },
            Err(_) => {},
        }
    }
}

} // verus!
