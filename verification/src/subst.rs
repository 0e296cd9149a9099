//! Substitution and the builders for applications and binders.
use crate::names::{binded, binded_name};
use crate::term::{
    arms_view, copy_opt_name, copy_pattern, copy_term, names_view, pat_view, term_view, PatV,
    Pattern, Term, TermV,
};
use vstd::prelude::*;

verus! {

/// The term with every variable occurrence named `from` replaced by `to`.
/// Match scrutinees and arm bodies are entered; patterns and binders are kept.
pub open spec fn substituted(t: TermV, from: Seq<char>, to: TermV) -> TermV
    decreases t,
{
    match t {
        TermV::Var(n) => if n == from {
            to
        } else {
            t
        },
        TermV::Match(s, arms) => TermV::Match(
            Box::new(substituted(*s, from, to)),
            substituted_arms(arms, from, to),
        ),
        TermV::Let(pat, val, nxt) => TermV::Let(
            pat,
            Box::new(substituted(*val, from, to)),
            Box::new(substituted(*nxt, from, to)),
        ),
        TermV::App(a, b) => TermV::App(
            Box::new(substituted(*a, from, to)),
            Box::new(substituted(*b, from, to)),
        ),
        TermV::Tup(a, b) => TermV::Tup(
            Box::new(substituted(*a, from, to)),
            Box::new(substituted(*b, from, to)),
        ),
        TermV::Sup(a, b) => TermV::Sup(
            Box::new(substituted(*a, from, to)),
            Box::new(substituted(*b, from, to)),
        ),
        TermV::Opx(op, a, b) => TermV::Opx(
            op,
            Box::new(substituted(*a, from, to)),
            Box::new(substituted(*b, from, to)),
        ),
        TermV::Dup(x, y, a, b) => TermV::Dup(
            x,
            y,
            Box::new(substituted(*a, from, to)),
            Box::new(substituted(*b, from, to)),
        ),
        TermV::Lam(n, b) => TermV::Lam(n, Box::new(substituted(*b, from, to))),
        TermV::Chn(n, b) => TermV::Chn(n, Box::new(substituted(*b, from, to))),
        _ => t,
    }
}

/// The arms with `from` replaced by `to` in every body.
pub open spec fn substituted_arms(arms: Seq<(PatV, TermV)>, from: Seq<char>, to: TermV) -> Seq<
    (PatV, TermV),
>
    decreases arms,
{
    Seq::new(
        arms.len(),
        |i: int|
            if 0 <= i < arms.len() {
                (arms[i].0, substituted(arms[i].1, from, to))
            } else {
                (PatV::Zero, TermV::Era)
            },
    )
}

/// `f` applied to the arguments in turn, left to right.
pub open spec fn call(f: TermV, args: Seq<TermV>) -> TermV
    decreases args.len(),
{
    if args.len() == 0 {
        f
    } else {
        TermV::App(Box::new(call(f, args.drop_last())), Box::new(args.last()))
    }
}

/// `body` under one binder per name, the first name outermost.
pub open spec fn lams(names: Seq<Seq<char>>, body: TermV) -> TermV
    decreases names.len(),
{
    if names.len() == 0 {
        body
    } else {
        lams(names.drop_last(), TermV::Lam(Some(names.last()), Box::new(body)))
    }
}

/// The implicit binder names of a scrutinee's fields, in field order.
pub open spec fn binder_names(scrutinee: Seq<char>, fields: Seq<Seq<char>>) -> Seq<Seq<char>> {
    Seq::new(fields.len(), |i: int| binded_name(scrutinee, fields[i]))
}

/// One variable per implicit binder name, in field order.
pub open spec fn field_vars(scrutinee: Seq<char>, fields: Seq<Seq<char>>) -> Seq<TermV> {
    Seq::new(fields.len(), |i: int| TermV::Var(binded_name(scrutinee, fields[i])))
}

/// A copy of `t` with every variable named `from` replaced by a copy of `to`.
pub fn subst_term(t: &Term, from: &String, to: &Term) -> (r: Term)
    ensures
        r@ == substituted(t@, from@, to@),
    decreases t,
{
    match t {
        Term::Var { nam } => if *nam == *from {
            copy_term(to)
        } else {
            copy_term(t)
        },
        Term::Match { scrutinee, arms } => {
            let mut out: Vec<(Pattern, Term)> = Vec::new();
            let mut i: usize = 0;
            while i < arms.len()
                invariant
                    i <= arms.len(),
                    out.len() == i,
                    decreases_to!(*t => *arms),
                    forall|k: int|
                        0 <= k < i ==> pat_view((#[trigger] out@[k]).0) == pat_view(arms@[k].0)
                            && term_view(out@[k].1) == substituted(
                            term_view(arms@[k].1),
                            from@,
                            to@,
                        ),
                decreases arms.len() - i,
            {
                proof {
                    vstd::std_specs::vec::axiom_vec_index_decreases(*arms, i as int);
                }
                let p = copy_pattern(&arms[i].0);
                let b = subst_term(&arms[i].1, from, to);
                out.push((p, b));
                i += 1;
            }
            assert(arms_view(out@) =~= substituted_arms(arms_view(arms@), from@, to@));
            Term::Match { scrutinee: Box::new(subst_term(scrutinee, from, to)), arms: out }
        },
        Term::Let { pat, val, nxt } => Term::Let {
            pat: copy_pattern(pat),
            val: Box::new(subst_term(val, from, to)),
            nxt: Box::new(subst_term(nxt, from, to)),
        },
        Term::App { fun, arg } => Term::App {
            fun: Box::new(subst_term(fun, from, to)),
            arg: Box::new(subst_term(arg, from, to)),
        },
        Term::Tup { fst, snd } => Term::Tup {
            fst: Box::new(subst_term(fst, from, to)),
            snd: Box::new(subst_term(snd, from, to)),
        },
        Term::Sup { fst, snd } => Term::Sup {
            fst: Box::new(subst_term(fst, from, to)),
            snd: Box::new(subst_term(snd, from, to)),
        },
        Term::Opx { op, fst, snd } => Term::Opx {
            op: *op,
            fst: Box::new(subst_term(fst, from, to)),
            snd: Box::new(subst_term(snd, from, to)),
        },
        Term::Dup { fst, snd, val, nxt } => Term::Dup {
            fst: copy_opt_name(fst),
            snd: copy_opt_name(snd),
            val: Box::new(subst_term(val, from, to)),
            nxt: Box::new(subst_term(nxt, from, to)),
        },
        Term::Lam { nam, bod } => Term::Lam {
            nam: copy_opt_name(nam),
            bod: Box::new(subst_term(bod, from, to)),
        },
        Term::Chn { nam, bod } => Term::Chn { nam: nam.clone(), bod: Box::new(subst_term(bod, from, to)) },
        _ => copy_term(t),
    }
}

/// `f` applied to one variable per field of the scrutinee.
pub fn call_on_fields(f: Term, scrutinee: &String, fields: &Vec<String>) -> (r: Term)
    ensures
        r@ == call(f@, field_vars(scrutinee@, names_view(fields@))),
{
    let ghost args = field_vars(scrutinee@, names_view(fields@));
    let ghost f0 = f@;
    let mut acc = f;
    let mut k: usize = 0;
    assert(args.take(0).len() == 0);
    while k < fields.len()
        invariant
            k <= fields.len(),
            args == field_vars(scrutinee@, names_view(fields@)),
            acc@ == call(f0, args.take(k as int)),
        decreases fields.len() - k,
    {
        let v = Term::Var { nam: binded(scrutinee, &fields[k]) };
        assert(v@ == args[k as int]);
        assert(args.take(k + 1).drop_last() =~= args.take(k as int));
        acc = Term::App { fun: Box::new(acc), arg: Box::new(v) };
        k += 1;
    }
    assert(args.take(fields.len() as int) =~= args);
    acc
}

/// `body` under one binder per field of the scrutinee, first field outermost.
pub fn lams_over_fields(body: Term, scrutinee: &String, fields: &Vec<String>) -> (r: Term)
    ensures
        r@ == lams(binder_names(scrutinee@, names_view(fields@)), body@),
{
    let ghost names = binder_names(scrutinee@, names_view(fields@));
    let ghost b0 = body@;
    let mut acc = body;
    let mut k: usize = fields.len();
    assert(names.take(k as int) =~= names);
    while k > 0
        invariant
            k <= fields.len(),
            names == binder_names(scrutinee@, names_view(fields@)),
            lams(names.take(k as int), acc@) == lams(names, b0),
        decreases k,
    {
        assert(names.take(k as int).drop_last() =~= names.take(k - 1));
        assert(names.take(k as int).last() == binded_name(scrutinee@, fields@[k - 1]@));
        acc = Term::Lam { nam: Some(binded(scrutinee, &fields[k - 1])), bod: Box::new(acc) };
        k -= 1;
    }
    assert(names.take(0).len() == 0);
    acc
}

} // verus!
