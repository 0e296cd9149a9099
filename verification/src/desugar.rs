//! Making implicit match binders explicit.
use crate::names::{binded, binded_name, pred_binder, pred_name, temp_name};
use crate::registry::{adt_get, fields_get, owner_get, reg_view, Adt, RegV};
use crate::term::{
    arms_view, copy_opt_name, copy_pattern, copy_term, names_view, pat_view, pats_view, term_view,
    PatV, Pattern, Term, TermV,
};
use indexmap::IndexMap;
use vstd::prelude::*;
use vstd::string::StringExecFns;

verus! {

/// One variable binder per declared field, named after the scrutinee.
pub open spec fn implicit_fields(scrutinee: Seq<char>, fields: Seq<Seq<char>>) -> Seq<PatV> {
    Seq::new(fields.len(), |i: int| PatV::Var(Some(binded_name(scrutinee, fields[i]))))
}

/// An arm pattern with its binders made explicit. A constructor without
/// sub-patterns whose declaration has fields gets one binder per field; a
/// successor without a binder gets the predecessor binder; every other
/// pattern stays as it is.
pub open spec fn explicit_pat(p: PatV, scrutinee: Seq<char>, reg: RegV) -> PatV {
    match p {
        PatV::Ctr(nam, args) => match reg.fields_of(nam) {
            Some(fields) => if args.len() == 0 && fields.len() > 0 {
                PatV::Ctr(nam, implicit_fields(scrutinee, fields))
            } else {
                p
            },
            None => p,
        },
        PatV::Succ(None) => PatV::Succ(Some(pred_name(scrutinee))),
        _ => p,
    }
}

/// The name under which a match sees its scrutinee: the variable's own name,
/// or the reserved temporary for any other expression.
pub open spec fn scrutinee_name(s: TermV) -> Seq<char> {
    match s {
        TermV::Var(n) => n,
        _ => temp_name(),
    }
}

/// The term with every match desugared: the scrutinee is a variable (any
/// other scrutinee is bound to the reserved temporary by a `let` around the
/// match, and is itself left as it was), and every arm pattern is explicit.
pub open spec fn desugared(t: TermV, reg: RegV) -> TermV
    decreases t,
{
    match t {
        TermV::Match(s, arms) => {
            let name = scrutinee_name(*s);
            let m = TermV::Match(Box::new(TermV::Var(name)), desugared_arms(arms, name, reg));
            if *s is Var {
                m
            } else {
                TermV::Let(PatV::Var(Some(name)), s, Box::new(m))
            }
        },
        TermV::Let(pat, val, nxt) => if pat is Var {
            TermV::Let(pat, Box::new(desugared(*val, reg)), Box::new(desugared(*nxt, reg)))
        } else {
            t
        },
        TermV::App(a, b) => TermV::App(Box::new(desugared(*a, reg)), Box::new(desugared(*b, reg))),
        TermV::Tup(a, b) => TermV::Tup(Box::new(desugared(*a, reg)), Box::new(desugared(*b, reg))),
        TermV::Sup(a, b) => TermV::Sup(Box::new(desugared(*a, reg)), Box::new(desugared(*b, reg))),
        TermV::Opx(op, a, b) => TermV::Opx(
            op,
            Box::new(desugared(*a, reg)),
            Box::new(desugared(*b, reg)),
        ),
        TermV::Dup(x, y, a, b) => TermV::Dup(
            x,
            y,
            Box::new(desugared(*a, reg)),
            Box::new(desugared(*b, reg)),
        ),
        TermV::Lam(n, b) => TermV::Lam(n, Box::new(desugared(*b, reg))),
        TermV::Chn(n, b) => TermV::Chn(n, Box::new(desugared(*b, reg))),
        _ => t,
    }
}

/// The arms of a match on `name`, each with an explicit pattern and a
/// desugared body.
pub open spec fn desugared_arms(arms: Seq<(PatV, TermV)>, name: Seq<char>, reg: RegV) -> Seq<
    (PatV, TermV),
>
    decreases arms,
{
    Seq::new(
        arms.len(),
        |i: int|
            if 0 <= i < arms.len() {
                (explicit_pat(arms[i].0, name, reg), desugared(arms[i].1, reg))
            } else {
                (PatV::Zero, TermV::Era)
            },
    )
}

/// An arm pattern that the registries can resolve: a constructor pattern
/// names a registered constructor of a registered type.
pub open spec fn arm_resolved(p: PatV, reg: RegV) -> bool {
    p matches PatV::Ctr(nam, _) ==> reg.fields_of(nam).is_some()
}

/// Whether the term is a `let` that binds a plain variable.
pub open spec fn binds_variable(t: TermV) -> bool {
    match t {
        TermV::Let(PatV::Var(_), _, _) => true,
        _ => false,
    }
}

/// The terms that desugaring accepts: every `let` binds a plain variable and
/// every arm pattern of every match outside a scrutinee is resolved.
pub open spec fn desugarable(t: TermV, reg: RegV) -> bool
    decreases t,
{
    match t {
        TermV::Match(_, arms) => desugarable_arms(arms, reg),
        TermV::Let(_, a, b) => binds_variable(t) && desugarable(*a, reg) && desugarable(*b, reg),
        TermV::App(a, b) => desugarable(*a, reg) && desugarable(*b, reg),
        TermV::Tup(a, b) => desugarable(*a, reg) && desugarable(*b, reg),
        TermV::Sup(a, b) => desugarable(*a, reg) && desugarable(*b, reg),
        TermV::Opx(_, a, b) => desugarable(*a, reg) && desugarable(*b, reg),
        TermV::Dup(_, _, a, b) => desugarable(*a, reg) && desugarable(*b, reg),
        TermV::Lam(_, b) => desugarable(*b, reg),
        TermV::Chn(_, b) => desugarable(*b, reg),
        _ => true,
    }
}

/// The arms that desugaring accepts: every pattern is resolved and every
/// body is accepted.
pub open spec fn desugarable_arms(arms: Seq<(PatV, TermV)>, reg: RegV) -> bool
    decreases arms,
{
    forall|i: int|
        0 <= i < arms.len() ==> arm_resolved((#[trigger] arms[i]).0, reg) && desugarable(
            arms[i].1,
            reg,
        )
}

/// The arm pattern `p` of a match on `scrutinee`, with explicit binders.
pub fn explicit_pattern(
    p: &Pattern,
    scrutinee: &String,
    ctrs: &IndexMap<String, String>,
    adts: &IndexMap<String, Adt>,
) -> (r: Pattern)
    requires
        arm_resolved(p@, reg_view(*ctrs, *adts)),
    ensures
        r@ == explicit_pat(p@, scrutinee@, reg_view(*ctrs, *adts)),
{
    match p {
        Pattern::Ctr(nam, args) => {
            let owner = owner_get(ctrs, nam).unwrap();
            let adt = adt_get(adts, owner).unwrap();
            let fields = fields_get(&adt.ctrs, nam).unwrap();
            assert(p@ == PatV::Ctr(nam@, pats_view(args@)));
            assert(reg_view(*ctrs, *adts).fields_of(nam@) == Some(names_view(fields@)));
            if args.len() == 0 && fields.len() > 0 {
                let mut out: Vec<Pattern> = Vec::new();
                let mut k: usize = 0;
                while k < fields.len()
                    invariant
                        k <= fields.len(),
                        out.len() == k,
                        forall|j: int|
                            0 <= j < k ==> pat_view(#[trigger] out@[j]) == PatV::Var(
                                Some(binded_name(scrutinee@, fields@[j]@)),
                            ),
                    decreases fields.len() - k,
                {
                    out.push(Pattern::Var(Some(binded(scrutinee, &fields[k]))));
                    k += 1;
                }
                assert(pats_view(out@) =~= implicit_fields(scrutinee@, names_view(fields@)));
                Pattern::Ctr(nam.clone(), out)
            } else {
                copy_pattern(p)
            }
        },
        Pattern::Succ(None) => Pattern::Succ(Some(pred_binder(scrutinee))),
        _ => copy_pattern(p),
    }
}

/// A desugared copy of `t`.
pub fn desugared_term(t: &Term, ctrs: &IndexMap<String, String>, adts: &IndexMap<String, Adt>) -> (r:
    Term)
    requires
        desugarable(t@, reg_view(*ctrs, *adts)),
    ensures
        r@ == desugared(t@, reg_view(*ctrs, *adts)),
    decreases t,
{
    let ghost reg = reg_view(*ctrs, *adts);
    match t {
        Term::Match { scrutinee, arms } => {
            let (name, hoist) = match &**scrutinee {
                Term::Var { nam } => (nam.clone(), false),
                _ => (String::from_str("%temp%scrutinee"), true),
            };
            assert(name@ == scrutinee_name(term_view(**scrutinee)));
            let mut out: Vec<(Pattern, Term)> = Vec::new();
            let mut i: usize = 0;
            assert(desugarable_arms(arms_view(arms@), reg));
            assert forall|k: int| 0 <= k < arms.len() implies arm_resolved(
                pat_view((#[trigger] arms@[k]).0),
                reg,
            ) && desugarable(term_view(arms@[k].1), reg) by {
                assert(arms_view(arms@)[k] == (pat_view(arms@[k].0), term_view(arms@[k].1)));
            }
            while i < arms.len()
                invariant
                    i <= arms.len(),
                    out.len() == i,
                    decreases_to!(*t => *arms),
                    term_view(*t) == TermV::Match(Box::new(term_view(**scrutinee)), arms_view(arms@)),
                    name@ == scrutinee_name(term_view(**scrutinee)),
                    hoist == !(term_view(**scrutinee) is Var),
                    reg == reg_view(*ctrs, *adts),
                    forall|k: int|
                        0 <= k < arms.len() ==> arm_resolved(pat_view((#[trigger] arms@[k]).0), reg)
                            && desugarable(term_view(arms@[k].1), reg),
                    forall|k: int|
                        0 <= k < i ==> pat_view((#[trigger] out@[k]).0) == explicit_pat(
                            pat_view(arms@[k].0),
                            name@,
                            reg,
                        ) && term_view(out@[k].1) == desugared(term_view(arms@[k].1), reg),
                decreases arms.len() - i,
            {
                proof {
                    vstd::std_specs::vec::axiom_vec_index_decreases(*arms, i as int);
                }
                let p = explicit_pattern(&arms[i].0, &name, ctrs, adts);
                let b = desugared_term(&arms[i].1, ctrs, adts);
                out.push((p, b));
                i += 1;
            }
            assert(arms_view(out@) =~= desugared_arms(arms_view(arms@), name@, reg));
            let var = Term::Var { nam: name.clone() };
            assert(var@ == TermV::Var(name@));
            let m = Term::Match { scrutinee: Box::new(var), arms: out };
            assert(m@ == TermV::Match(
                Box::new(TermV::Var(name@)),
                desugared_arms(arms_view(arms@), name@, reg),
            ));
            if hoist {
                Term::Let { pat: Pattern::Var(Some(name)), val: Box::new(copy_term(scrutinee)), nxt: Box::new(m) }
            } else {
                m
            }
        },
        Term::Let { pat, val, nxt } => Term::Let {
            pat: copy_pattern(pat),
            val: Box::new(desugared_term(val, ctrs, adts)),
            nxt: Box::new(desugared_term(nxt, ctrs, adts)),
        },
        Term::App { fun, arg } => Term::App {
            fun: Box::new(desugared_term(fun, ctrs, adts)),
            arg: Box::new(desugared_term(arg, ctrs, adts)),
        },
        Term::Tup { fst, snd } => Term::Tup {
            fst: Box::new(desugared_term(fst, ctrs, adts)),
            snd: Box::new(desugared_term(snd, ctrs, adts)),
        },
        Term::Sup { fst, snd } => Term::Sup {
            fst: Box::new(desugared_term(fst, ctrs, adts)),
            snd: Box::new(desugared_term(snd, ctrs, adts)),
        },
        Term::Opx { op, fst, snd } => Term::Opx {
            op: *op,
            fst: Box::new(desugared_term(fst, ctrs, adts)),
            snd: Box::new(desugared_term(snd, ctrs, adts)),
        },
        Term::Dup { fst, snd, val, nxt } => Term::Dup {
            fst: copy_opt_name(fst),
            snd: copy_opt_name(snd),
            val: Box::new(desugared_term(val, ctrs, adts)),
            nxt: Box::new(desugared_term(nxt, ctrs, adts)),
        },
        Term::Lam { nam, bod } => Term::Lam {
            nam: copy_opt_name(nam),
            bod: Box::new(desugared_term(bod, ctrs, adts)),
        },
        Term::Chn { nam, bod } => Term::Chn {
            nam: nam.clone(),
            bod: Box::new(desugared_term(bod, ctrs, adts)),
        },
        _ => copy_term(t),
    }
}

impl Term {
    /// Rewrites the term so that every match has a variable scrutinee and
    /// explicit binders in every arm pattern.
    pub fn desugar_implicit_match_binds(
        &mut self,
        ctrs: &IndexMap<String, String>,
        adts: &IndexMap<String, Adt>,
    )
        requires
            desugarable(old(self)@, reg_view(*ctrs, *adts)),
        ensures
            final(self)@ == desugared(old(self)@, reg_view(*ctrs, *adts)),
    {
        let r = desugared_term(&*self, ctrs, adts);
        *self = r;
    }
}

/// The terms in which every match scrutinee that is not a variable is its
/// own desugaring. Desugaring leaves a hoisted scrutinee as it was, so only
/// on these terms does a second pass find nothing to do.
pub open spec fn scrutinees_settled(t: TermV, reg: RegV) -> bool
    decreases t,
{
    match t {
        TermV::Match(s, arms) => (*s is Var || desugared(*s, reg) == *s) && forall|i: int|
            0 <= i < arms.len() ==> scrutinees_settled((#[trigger] arms[i]).1, reg),
        TermV::Let(pat, val, nxt) => pat is Var ==> scrutinees_settled(*val, reg)
            && scrutinees_settled(*nxt, reg),
        TermV::App(a, b) => scrutinees_settled(*a, reg) && scrutinees_settled(*b, reg),
        TermV::Tup(a, b) => scrutinees_settled(*a, reg) && scrutinees_settled(*b, reg),
        TermV::Sup(a, b) => scrutinees_settled(*a, reg) && scrutinees_settled(*b, reg),
        TermV::Opx(_, a, b) => scrutinees_settled(*a, reg) && scrutinees_settled(*b, reg),
        TermV::Dup(_, _, a, b) => scrutinees_settled(*a, reg) && scrutinees_settled(*b, reg),
        TermV::Lam(_, b) => scrutinees_settled(*b, reg),
        TermV::Chn(_, b) => scrutinees_settled(*b, reg),
        _ => true,
    }
}

/// Making a pattern explicit twice is the same as making it explicit once.
pub proof fn lemma_explicit_pat_idempotent(p: PatV, scrutinee: Seq<char>, reg: RegV)
    ensures
        explicit_pat(explicit_pat(p, scrutinee, reg), scrutinee, reg) == explicit_pat(
            p,
            scrutinee,
            reg,
        ),
{
}

/// Desugaring is idempotent: on a term whose hoistable scrutinees are
/// settled, a second pass returns what the first pass returned.
pub proof fn lemma_desugar_idempotent(t: TermV, reg: RegV)
    requires
        scrutinees_settled(t, reg),
    ensures
        desugared(desugared(t, reg), reg) == desugared(t, reg),
    decreases t,
{
    match t {
        TermV::Match(s, arms) => {
            let name = scrutinee_name(*s);
            let arms1 = desugared_arms(arms, name, reg);
            let arms2 = desugared_arms(arms1, name, reg);
            assert forall|i: int| 0 <= i < arms.len() implies arms2[i] == arms1[i] by {
                lemma_desugar_idempotent(arms[i].1, reg);
                lemma_explicit_pat_idempotent(arms[i].0, name, reg);
            }
            assert(arms2 =~= arms1);
            let m = TermV::Match(Box::new(TermV::Var(name)), arms1);
            assert(desugared(m, reg) == m);
            if !(*s is Var) {
                let hoisted = TermV::Let(PatV::Var(Some(name)), s, Box::new(m));
                assert(desugared(t, reg) == hoisted);
                assert(desugared(hoisted, reg) == hoisted);
            }
        },
        TermV::Let(pat, val, nxt) => {
            if pat is Var {
                lemma_desugar_idempotent(*val, reg);
                lemma_desugar_idempotent(*nxt, reg);
            }
        },
        TermV::App(a, b) => {
            lemma_desugar_idempotent(*a, reg);
            lemma_desugar_idempotent(*b, reg);
        },
        TermV::Tup(a, b) => {
            lemma_desugar_idempotent(*a, reg);
            lemma_desugar_idempotent(*b, reg);
        },
        TermV::Sup(a, b) => {
            lemma_desugar_idempotent(*a, reg);
            lemma_desugar_idempotent(*b, reg);
        },
        TermV::Opx(_, a, b) => {
            lemma_desugar_idempotent(*a, reg);
            lemma_desugar_idempotent(*b, reg);
        },
        TermV::Dup(_, _, a, b) => {
            lemma_desugar_idempotent(*a, reg);
            lemma_desugar_idempotent(*b, reg);
        },
        TermV::Lam(_, b) => {
            lemma_desugar_idempotent(*b, reg);
        },
        TermV::Chn(_, b) => {
            lemma_desugar_idempotent(*b, reg);
        },
        _ => {},
    }
}

/// Whether the registries resolve constructor `nam` down to its field list.
pub fn is_registered(nam: &String, ctrs: &IndexMap<String, String>, adts: &IndexMap<String, Adt>) -> (b:
    bool)
    ensures
        b == reg_view(*ctrs, *adts).fields_of(nam@).is_some(),
{
    match owner_get(ctrs, nam) {
        None => false,
        Some(owner) => match adt_get(adts, owner) {
            None => false,
            Some(adt) => fields_get(&adt.ctrs, nam).is_some(),
        },
    }
}

/// Whether desugaring accepts the term.
pub fn is_desugarable(t: &Term, ctrs: &IndexMap<String, String>, adts: &IndexMap<String, Adt>) -> (b:
    bool)
    ensures
        b == desugarable(t@, reg_view(*ctrs, *adts)),
    decreases t,
{
    let ghost reg = reg_view(*ctrs, *adts);
    match t {
        Term::Match { scrutinee, arms } => {
            let ghost varms = arms_view(arms@);
            let mut i: usize = 0;
            while i < arms.len()
                invariant
                    i <= arms.len(),
                    decreases_to!(*t => *arms),
                    reg == reg_view(*ctrs, *adts),
                    varms == arms_view(arms@),
                    term_view(*t) == TermV::Match(Box::new(term_view(**scrutinee)), varms),
                    forall|k: int|
                        0 <= k < i ==> arm_resolved((#[trigger] varms[k]).0, reg) && desugarable(
                            varms[k].1,
                            reg,
                        ),
                decreases arms.len() - i,
            {
                proof {
                    vstd::std_specs::vec::axiom_vec_index_decreases(*arms, i as int);
                    assert(varms[i as int] == (pat_view(arms@[i as int].0), term_view(arms@[i as int].1)));
                }
                let resolved = match &arms[i].0 {
                    Pattern::Ctr(nam, _) => is_registered(nam, ctrs, adts),
                    _ => true,
                };
                if !resolved || !is_desugarable(&arms[i].1, ctrs, adts) {
                    assert(!(arm_resolved(varms[i as int].0, reg) && desugarable(varms[i as int].1, reg)));
                    assert(!desugarable_arms(varms, reg));
                    return false;
                }
                i += 1;
            }
            assert(desugarable_arms(varms, reg));
            true
        },
        Term::Let { pat, val, nxt } => {
            let plain = match pat {
                Pattern::Var(_) => true,
                _ => false,
            };
            plain && is_desugarable(val, ctrs, adts) && is_desugarable(nxt, ctrs, adts)
        },
        Term::App { fun, arg } => is_desugarable(fun, ctrs, adts) && is_desugarable(arg, ctrs, adts),
        Term::Tup { fst, snd } => is_desugarable(fst, ctrs, adts) && is_desugarable(snd, ctrs, adts),
        Term::Sup { fst, snd } => is_desugarable(fst, ctrs, adts) && is_desugarable(snd, ctrs, adts),
        Term::Opx { op, fst, snd } => is_desugarable(fst, ctrs, adts) && is_desugarable(snd, ctrs, adts),
        Term::Dup { fst, snd, val, nxt } => is_desugarable(val, ctrs, adts) && is_desugarable(
            nxt,
            ctrs,
            adts,
        ),
        Term::Lam { nam, bod } => is_desugarable(bod, ctrs, adts),
        Term::Chn { nam, bod } => is_desugarable(bod, ctrs, adts),
        _ => true,
    }
}

impl Term {
    /// Desugars the term where desugaring accepts it; returns `false`, with
    /// the term unchanged, where it does not.
    pub fn try_desugar_implicit_match_binds(
        &mut self,
        ctrs: &IndexMap<String, String>,
        adts: &IndexMap<String, Adt>,
    ) -> (done: bool)
        ensures
            done == desugarable(old(self)@, reg_view(*ctrs, *adts)),
            done ==> final(self)@ == desugared(old(self)@, reg_view(*ctrs, *adts)),
            !done ==> *final(self) == *old(self),
    {
        if is_desugarable(&*self, ctrs, adts) {
            self.desugar_implicit_match_binds(ctrs, adts);
            true
        } else {
            false
        }
    }
}

} // verus!
