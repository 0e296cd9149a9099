//! The term tree, its patterns, and their mathematical views.
use vstd::prelude::*;

verus! {

/// Binary operators of the core language.
#[derive(Clone, Copy, Debug, PartialEq, Eq, Structural)]
pub enum Op {
    Add,
    Sub,
    Mul,
    Div,
    Eq,
    Lt,
}

/// A pattern of one match arm or of a binder.
#[derive(Debug, PartialEq, Eq)]
pub enum Pattern {
    /// A variable binder; `None` binds nothing.
    Var(Option<String>),
    /// A constructor with its field patterns; an empty list on a constructor
    /// that declares fields means the fields are bound implicitly.
    Ctr(String, Vec<Pattern>),
    /// The number zero.
    Zero,
    /// A successor; `None` means the predecessor is bound implicitly.
    Succ(Option<String>),
    /// A pair.
    Tup(Box<Pattern>, Box<Pattern>),
}

/// A term of the language.
#[allow(inconsistent_fields)]
#[derive(Debug, PartialEq, Eq)]
pub enum Term {
    Lam { nam: Option<String>, bod: Box<Term> },
    Var { nam: String },
    Chn { nam: String, bod: Box<Term> },
    Lnk { nam: String },
    Let { pat: Pattern, val: Box<Term>, nxt: Box<Term> },
    App { fun: Box<Term>, arg: Box<Term> },
    Tup { fst: Box<Term>, snd: Box<Term> },
    Dup { fst: Option<String>, snd: Option<String>, val: Box<Term>, nxt: Box<Term> },
    Sup { fst: Box<Term>, snd: Box<Term> },
    Num { val: u64 },
    Str { val: String },
    Opx { op: Op, fst: Box<Term>, snd: Box<Term> },
    Match { scrutinee: Box<Term>, arms: Vec<(Pattern, Term)> },
    Ref { nam: String },
    Era,
    Invalid,
}

/// One rule of a definition: argument patterns and a body.
#[derive(Debug, PartialEq, Eq)]
pub struct Rule {
    pub pats: Vec<Pattern>,
    pub body: Term,
}

/// A named top-level definition.
#[derive(Debug, PartialEq, Eq)]
pub struct Definition {
    pub name: String,
    pub rules: Vec<Rule>,
}

/// The mathematical value of a pattern: names are character sequences.
pub enum PatV {
    Var(Option<Seq<char>>),
    Ctr(Seq<char>, Seq<PatV>),
    Zero,
    Succ(Option<Seq<char>>),
    Tup(Box<PatV>, Box<PatV>),
}

/// The mathematical value of a term.
pub enum TermV {
    Lam(Option<Seq<char>>, Box<TermV>),
    Var(Seq<char>),
    Chn(Seq<char>, Box<TermV>),
    Lnk(Seq<char>),
    Let(PatV, Box<TermV>, Box<TermV>),
    App(Box<TermV>, Box<TermV>),
    Tup(Box<TermV>, Box<TermV>),
    Dup(Option<Seq<char>>, Option<Seq<char>>, Box<TermV>, Box<TermV>),
    Sup(Box<TermV>, Box<TermV>),
    Num(u64),
    Str(Seq<char>),
    Opx(Op, Box<TermV>, Box<TermV>),
    Match(Box<TermV>, Seq<(PatV, TermV)>),
    Ref(Seq<char>),
    Era,
    Invalid,
}

/// The mathematical value of a rule.
pub struct RuleV {
    pub pats: Seq<PatV>,
    pub body: TermV,
}

/// The mathematical value of a definition.
pub struct DefV {
    pub name: Seq<char>,
    pub rules: Seq<RuleV>,
}

pub open spec fn opt_name(o: Option<String>) -> Option<Seq<char>> {
    match o {
        Some(s) => Some(s@),
        None => None,
    }
}

/// The views of a list of names.
pub open spec fn names_view(v: Seq<String>) -> Seq<Seq<char>> {
    Seq::new(v.len(), |i: int| v[i]@)
}

pub open spec fn pat_view(p: Pattern) -> PatV
    decreases p,
{
    match p {
        Pattern::Var(n) => PatV::Var(opt_name(n)),
        Pattern::Ctr(n, args) => PatV::Ctr(n@, pats_view(args@)),
        Pattern::Zero => PatV::Zero,
        Pattern::Succ(n) => PatV::Succ(opt_name(n)),
        Pattern::Tup(a, b) => PatV::Tup(Box::new(pat_view(*a)), Box::new(pat_view(*b))),
    }
}

pub open spec fn pats_view(ps: Seq<Pattern>) -> Seq<PatV>
    decreases ps,
{
    Seq::new(ps.len(), |i: int| if 0 <= i < ps.len() { pat_view(ps[i]) } else { PatV::Zero })
}

pub open spec fn term_view(t: Term) -> TermV
    decreases t,
{
    match t {
        Term::Lam { nam, bod } => TermV::Lam(opt_name(nam), Box::new(term_view(*bod))),
        Term::Var { nam } => TermV::Var(nam@),
        Term::Chn { nam, bod } => TermV::Chn(nam@, Box::new(term_view(*bod))),
        Term::Lnk { nam } => TermV::Lnk(nam@),
        Term::Let { pat, val, nxt } => TermV::Let(
            pat_view(pat),
            Box::new(term_view(*val)),
            Box::new(term_view(*nxt)),
        ),
        Term::App { fun, arg } => TermV::App(Box::new(term_view(*fun)), Box::new(term_view(*arg))),
        Term::Tup { fst, snd } => TermV::Tup(Box::new(term_view(*fst)), Box::new(term_view(*snd))),
        Term::Dup { fst, snd, val, nxt } => TermV::Dup(
            opt_name(fst),
            opt_name(snd),
            Box::new(term_view(*val)),
            Box::new(term_view(*nxt)),
        ),
        Term::Sup { fst, snd } => TermV::Sup(Box::new(term_view(*fst)), Box::new(term_view(*snd))),
        Term::Num { val } => TermV::Num(val),
        Term::Str { val } => TermV::Str(val@),
        Term::Opx { op, fst, snd } => TermV::Opx(
            op,
            Box::new(term_view(*fst)),
            Box::new(term_view(*snd)),
        ),
        Term::Match { scrutinee, arms } => TermV::Match(
            Box::new(term_view(*scrutinee)),
            arms_view(arms@),
        ),
        Term::Ref { nam } => TermV::Ref(nam@),
        Term::Era => TermV::Era,
        Term::Invalid => TermV::Invalid,
    }
}

pub open spec fn arms_view(arms: Seq<(Pattern, Term)>) -> Seq<(PatV, TermV)>
    decreases arms,
{
    Seq::new(
        arms.len(),
        |i: int|
            if 0 <= i < arms.len() {
                (pat_view(arms[i].0), term_view(arms[i].1))
            } else {
                (PatV::Zero, TermV::Era)
            },
    )
}

pub open spec fn rule_view(r: Rule) -> RuleV {
    RuleV { pats: pats_view(r.pats@), body: term_view(r.body) }
}

pub open spec fn rules_view(rs: Seq<Rule>) -> Seq<RuleV> {
    Seq::new(rs.len(), |i: int| rule_view(rs[i]))
}

pub open spec fn def_view(d: Definition) -> DefV {
    DefV { name: d.name@, rules: rules_view(d.rules@) }
}

pub open spec fn defs_view(ds: Seq<Definition>) -> Seq<DefV> {
    Seq::new(ds.len(), |i: int| def_view(ds[i]))
}

impl View for Pattern {
    type V = PatV;

    open spec fn view(&self) -> PatV {
        pat_view(*self)
    }
}

impl View for Term {
    type V = TermV;

    open spec fn view(&self) -> TermV {
        term_view(*self)
    }
}

impl View for Definition {
    type V = DefV;

    open spec fn view(&self) -> DefV {
        def_view(*self)
    }
}

/// A copy of an optional name.
pub fn copy_opt_name(o: &Option<String>) -> (r: Option<String>)
    ensures
        opt_name(r) == opt_name(*o),
{
    match o {
        Some(s) => Some(s.clone()),
        None => None,
    }
}

/// A copy of a pattern.
pub fn copy_pattern(p: &Pattern) -> (r: Pattern)
    ensures
        r@ == p@,
    decreases p,
{
    match p {
        Pattern::Var(n) => Pattern::Var(copy_opt_name(n)),
        Pattern::Ctr(n, args) => {
            let mut out: Vec<Pattern> = Vec::new();
            let mut i: usize = 0;
            while i < args.len()
                invariant
                    i <= args.len(),
                    out.len() == i,
                    decreases_to!(*p => *args),
                    forall|k: int| 0 <= k < i ==> pat_view(#[trigger] out@[k]) == pat_view(args@[k]),
                decreases args.len() - i,
            {
                proof {
                    vstd::std_specs::vec::axiom_vec_index_decreases(*args, i as int);
                }
                let c = copy_pattern(&args[i]);
                out.push(c);
                i += 1;
            }
            assert(pats_view(out@) =~= pats_view(args@));
            Pattern::Ctr(n.clone(), out)
        },
        Pattern::Zero => Pattern::Zero,
        Pattern::Succ(n) => Pattern::Succ(copy_opt_name(n)),
        Pattern::Tup(a, b) => Pattern::Tup(Box::new(copy_pattern(a)), Box::new(copy_pattern(b))),
    }
}

/// A copy of a term.
pub fn copy_term(t: &Term) -> (r: Term)
    ensures
        r@ == t@,
    decreases t,
{
    match t {
        Term::Lam { nam, bod } => Term::Lam { nam: copy_opt_name(nam), bod: Box::new(copy_term(bod)) },
        Term::Var { nam } => Term::Var { nam: nam.clone() },
        Term::Chn { nam, bod } => Term::Chn { nam: nam.clone(), bod: Box::new(copy_term(bod)) },
        Term::Lnk { nam } => Term::Lnk { nam: nam.clone() },
        Term::Let { pat, val, nxt } => Term::Let {
            pat: copy_pattern(pat),
            val: Box::new(copy_term(val)),
            nxt: Box::new(copy_term(nxt)),
        },
        Term::App { fun, arg } => Term::App { fun: Box::new(copy_term(fun)), arg: Box::new(copy_term(arg)) },
        Term::Tup { fst, snd } => Term::Tup { fst: Box::new(copy_term(fst)), snd: Box::new(copy_term(snd)) },
        Term::Dup { fst, snd, val, nxt } => Term::Dup {
            fst: copy_opt_name(fst),
            snd: copy_opt_name(snd),
            val: Box::new(copy_term(val)),
            nxt: Box::new(copy_term(nxt)),
        },
        Term::Sup { fst, snd } => Term::Sup { fst: Box::new(copy_term(fst)), snd: Box::new(copy_term(snd)) },
        Term::Num { val } => Term::Num { val: *val },
        Term::Str { val } => Term::Str { val: val.clone() },
        Term::Opx { op, fst, snd } => Term::Opx {
            op: *op,
            fst: Box::new(copy_term(fst)),
            snd: Box::new(copy_term(snd)),
        },
        Term::Match { scrutinee, arms } => {
            let mut out: Vec<(Pattern, Term)> = Vec::new();
            let mut i: usize = 0;
            while i < arms.len()
                invariant
                    i <= arms.len(),
                    out.len() == i,
                    decreases_to!(*t => *arms),
                    forall|k: int|
                        0 <= k < i ==> pat_view((#[trigger] out@[k]).0) == pat_view(arms@[k].0)
                            && term_view(out@[k].1) == term_view(arms@[k].1),
                decreases arms.len() - i,
            {
                proof {
                    vstd::std_specs::vec::axiom_vec_index_decreases(*arms, i as int);
                }
                let p = copy_pattern(&arms[i].0);
                let b = copy_term(&arms[i].1);
                out.push((p, b));
                i += 1;
            }
            assert(arms_view(out@) =~= arms_view(arms@));
            Term::Match { scrutinee: Box::new(copy_term(scrutinee)), arms: out }
        },
        Term::Ref { nam } => Term::Ref { nam: nam.clone() },
        Term::Era => Term::Era,
        Term::Invalid => Term::Invalid,
    }
}

} // verus!
