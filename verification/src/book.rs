//! The program container and its two passes.
use crate::desugar::{desugarable, desugared, desugared_term};
use crate::registry::{reg_view, Adt, RegV};
use crate::simplify::{lowerable, lowered, lowered_term, match_nodes, state_of, LowerState};
use crate::term::{
    copy_pattern, def_view, defs_view, pat_view, pats_view, rule_view, rules_view, term_view, DefV,
    Definition, Pattern, Rule, RuleV,
};
use indexmap::IndexMap;
use vstd::prelude::*;

verus! {

/// A program: its top-level definitions in order, the type registry and the
/// constructor registry.
pub struct Book {
    pub defs: Vec<Definition>,
    pub adts: IndexMap<String, Adt>,
    pub ctrs: IndexMap<String, String>,
}

impl Book {
    /// The registries of the book as plain values.
    pub open spec fn reg(&self) -> RegV {
        reg_view(self.ctrs, self.adts)
    }
}

pub open spec fn desugared_def(d: DefV, reg: RegV) -> DefV {
    DefV {
        name: d.name,
        rules: Seq::new(
            d.rules.len(),
            |j: int| RuleV { pats: d.rules[j].pats, body: desugared(d.rules[j].body, reg) },
        ),
    }
}

/// Every rule body of every definition, desugared.
pub open spec fn desugared_defs(ds: Seq<DefV>, reg: RegV) -> Seq<DefV> {
    Seq::new(ds.len(), |i: int| desugared_def(ds[i], reg))
}

/// Whether `pred` holds of every rule body of every definition.
pub open spec fn all_bodies(ds: Seq<DefV>, pred: spec_fn(crate::term::TermV) -> bool) -> bool {
    forall|i: int, j: int|
        0 <= i < ds.len() && 0 <= j < ds[i].rules.len() ==> pred(#[trigger] ds[i].rules[j].body)
}

/// The match nodes in the first `n` rule bodies.
pub open spec fn rules_nodes(rules: Seq<RuleV>, n: nat) -> nat
    decreases n,
{
    if n == 0 || n > rules.len() {
        0
    } else {
        rules_nodes(rules, (n - 1) as nat) + match_nodes(rules[n - 1].body)
    }
}

/// The first `n` rules of definition `def_name` with their bodies lowered in
/// order, the match counter running on from rule to rule.
pub open spec fn lowered_rules(
    rules: Seq<RuleV>,
    n: nat,
    def_name: Seq<char>,
    reg: RegV,
    st: LowerState,
) -> Result<(Seq<RuleV>, LowerState), Seq<char>>
    decreases n,
{
    if n == 0 || n > rules.len() {
        Ok((Seq::empty(), st))
    } else {
        match lowered_rules(rules, (n - 1) as nat, def_name, reg, st) {
            Err(e) => Err(e),
            Ok(r) => match lowered(rules[n - 1].body, def_name, reg, r.1) {
                Err(e) => Err(e),
                Ok(x) => Ok((r.0.push(RuleV { pats: rules[n - 1].pats, body: x.0 }), x.1)),
            },
        }
    }
}

/// The first `n` definitions lowered in order, with the definitions minted
/// along the way. The match counter starts at zero in every definition.
pub open spec fn lowered_defs(defs: Seq<DefV>, n: nat, reg: RegV) -> Result<
    (Seq<DefV>, Seq<DefV>),
    Seq<char>,
>
    decreases n,
{
    if n == 0 || n > defs.len() {
        Ok((Seq::empty(), Seq::empty()))
    } else {
        match lowered_defs(defs, (n - 1) as nat, reg) {
            Err(e) => Err(e),
            Ok(r) => match lowered_rules(
                defs[n - 1].rules,
                defs[n - 1].rules.len(),
                defs[n - 1].name,
                reg,
                LowerState { defs: r.1, count: 0 },
            ) {
                Err(e) => Err(e),
                Ok(x) => Ok((r.0.push(DefV { name: defs[n - 1].name, rules: x.0 }), x.1.defs)),
            },
        }
    }
}

/// The definitions of a lowered book: the given ones, lowered, followed by
/// the minted ones; or the first diagnostic met.
pub open spec fn lowered_book(defs: Seq<DefV>, reg: RegV) -> Result<Seq<DefV>, Seq<char>> {
    match lowered_defs(defs, defs.len(), reg) {
        Err(e) => Err(e),
        Ok(r) => Ok(r.0 + r.1),
    }
}

pub proof fn lemma_rules_error(
    rules: Seq<RuleV>,
    n: nat,
    m: nat,
    def_name: Seq<char>,
    reg: RegV,
    st: LowerState,
)
    requires
        n <= m <= rules.len(),
        lowered_rules(rules, n, def_name, reg, st) is Err,
    ensures
        lowered_rules(rules, m, def_name, reg, st) == lowered_rules(rules, n, def_name, reg, st),
    decreases m,
{
    if m > n {
        lemma_rules_error(rules, n, (m - 1) as nat, def_name, reg, st);
    }
}

pub proof fn lemma_defs_error(defs: Seq<DefV>, n: nat, m: nat, reg: RegV)
    requires
        n <= m <= defs.len(),
        lowered_defs(defs, n, reg) is Err,
    ensures
        lowered_defs(defs, m, reg) == lowered_defs(defs, n, reg),
    decreases m,
{
    if m > n {
        lemma_defs_error(defs, n, (m - 1) as nat, reg);
    }
}

pub proof fn lemma_rules_nodes_mono(rules: Seq<RuleV>, n: nat, m: nat)
    requires
        n <= m <= rules.len(),
    ensures
        rules_nodes(rules, n) <= rules_nodes(rules, m),
    decreases m,
{
    if m > n {
        lemma_rules_nodes_mono(rules, n, (m - 1) as nat);
    }
}

/// A copy of a list of patterns.
pub fn copy_patterns(ps: &Vec<Pattern>) -> (r: Vec<Pattern>)
    ensures
        pats_view(r@) == pats_view(ps@),
{
    let mut out: Vec<Pattern> = Vec::new();
    let mut i: usize = 0;
    while i < ps.len()
        invariant
            i <= ps.len(),
            out.len() == i,
            forall|k: int| 0 <= k < i ==> pat_view(#[trigger] out@[k]) == pat_view(ps@[k]),
        decreases ps.len() - i,
    {
        out.push(copy_pattern(&ps[i]));
        i += 1;
    }
    assert(pats_view(out@) =~= pats_view(ps@));
    out
}

/// A copy of `def` with every rule body desugared.
pub fn desugared_definition(
    def: &Definition,
    ctrs: &IndexMap<String, String>,
    adts: &IndexMap<String, Adt>,
) -> (r: Definition)
    requires
        forall|j: int|
            0 <= j < def.rules.len() ==> desugarable(
                term_view((#[trigger] def.rules@[j]).body),
                reg_view(*ctrs, *adts),
            ),
    ensures
        r@ == desugared_def(def@, reg_view(*ctrs, *adts)),
{
    let mut rules: Vec<Rule> = Vec::new();
    let mut j: usize = 0;
    while j < def.rules.len()
        invariant
            j <= def.rules.len(),
            rules.len() == j,
            forall|k: int|
                0 <= k < def.rules.len() ==> desugarable(
                    term_view((#[trigger] def.rules@[k]).body),
                    reg_view(*ctrs, *adts),
                ),
            forall|k: int|
                0 <= k < j ==> rule_view(#[trigger] rules@[k]) == (RuleV {
                    pats: pats_view(def.rules@[k].pats@),
                    body: desugared(term_view(def.rules@[k].body), reg_view(*ctrs, *adts)),
                }),
        decreases def.rules.len() - j,
    {
        let pats = copy_patterns(&def.rules[j].pats);
        let body = desugared_term(&def.rules[j].body, ctrs, adts);
        rules.push(Rule { pats, body });
        j += 1;
    }
    let r = Definition { name: def.name.clone(), rules };
    assert(rules_view(r.rules@) =~= desugared_def(def@, reg_view(*ctrs, *adts)).rules);
    r
}

/// A copy of `def` with every rule body lowered; the match counter starts at
/// zero and runs through all rules of the definition.
fn lowered_definition(
    def: &Definition,
    adts: &IndexMap<String, Adt>,
    ctrs: &IndexMap<String, String>,
    new_defs: &mut Vec<Definition>,
) -> (r: Result<Definition, String>)
    requires
        forall|j: int|
            0 <= j < def.rules.len() ==> lowerable(
                term_view((#[trigger] def.rules@[j]).body),
                reg_view(*ctrs, *adts),
            ),
        rules_nodes(def@.rules, def@.rules.len()) <= usize::MAX,
    ensures
        match r {
            Ok(d) => lowered_rules(
                def@.rules,
                def@.rules.len(),
                def@.name,
                reg_view(*ctrs, *adts),
                state_of(old(new_defs)@, 0),
            ) matches Ok(x) && d@ == (DefV { name: def@.name, rules: x.0 }) && x.1.defs == defs_view(
                final(new_defs)@,
            ),
            Err(e) => lowered_rules(
                def@.rules,
                def@.rules.len(),
                def@.name,
                reg_view(*ctrs, *adts),
                state_of(old(new_defs)@, 0),
            ) matches Err(m) && m == e@,
        },
{
    let ghost reg = reg_view(*ctrs, *adts);
    let ghost st0 = state_of(new_defs@, 0);
    let ghost vrules = def@.rules;
    let mut count: usize = 0;
    let mut rules: Vec<Rule> = Vec::new();
    let mut j: usize = 0;
    assert(rules_view(rules@) =~= Seq::<RuleV>::empty());
    while j < def.rules.len()
        invariant
            j <= def.rules.len(),
            rules.len() == j,
            reg == reg_view(*ctrs, *adts),
            vrules == def@.rules,
            vrules.len() == def.rules.len(),
            st0 == state_of(old(new_defs)@, 0),
            forall|k: int|
                0 <= k < def.rules.len() ==> lowerable(term_view((#[trigger] def.rules@[k]).body), reg),
            lowered_rules(vrules, j as nat, def@.name, reg, st0) matches Ok(x) && x.0 == rules_view(
                rules@,
            ) && x.1 == state_of(new_defs@, count),
            count == rules_nodes(vrules, j as nat),
            rules_nodes(vrules, vrules.len()) <= usize::MAX,
        decreases def.rules.len() - j,
    {
        proof {
            lemma_rules_nodes_mono(vrules, (j + 1) as nat, vrules.len());
            assert(vrules[j as int] == rule_view(def.rules@[j as int]));
        }
        let ghost so_far = rules_view(rules@);
        match lowered_term(&def.rules[j].body, &def.name, adts, ctrs, new_defs, &mut count) {
            Ok(body) => {
                let pats = copy_patterns(&def.rules[j].pats);
                rules.push(Rule { pats, body });
                assert(rules_view(rules@) =~= so_far.push(
                    RuleV { pats: vrules[j as int].pats, body: body@ },
                ));
            },
            Err(e) => {
                proof {
                    assert(lowered_rules(vrules, (j + 1) as nat, def@.name, reg, st0) is Err);
                    lemma_rules_error(vrules, (j + 1) as nat, vrules.len(), def@.name, reg, st0);
                }
                return Err(e);
            },
        }
        j += 1;
    }
    Ok(Definition { name: def.name.clone(), rules })
}

impl Book {
    /// Desugars every rule body of every definition.
    pub fn desugar_implicit_match_binds(&mut self)
        requires
            all_bodies(
                defs_view(old(self).defs@),
                |t: crate::term::TermV| desugarable(t, old(self).reg()),
            ),
        ensures
            final(self).adts == old(self).adts,
            final(self).ctrs == old(self).ctrs,
            defs_view(final(self).defs@) == desugared_defs(defs_view(old(self).defs@), old(self).reg()),
    {
        let ghost reg = self.reg();
        let ghost before = defs_view(self.defs@);
        let mut out: Vec<Definition> = Vec::new();
        let mut i: usize = 0;
        while i < self.defs.len()
            invariant
                i <= self.defs.len(),
                out.len() == i,
                *self == *old(self),
                reg == self.reg(),
                before == defs_view(self.defs@),
                all_bodies(before, |t: crate::term::TermV| desugarable(t, reg)),
                forall|k: int|
                    0 <= k < i ==> def_view(#[trigger] out@[k]) == desugared_def(before[k], reg),
            decreases self.defs.len() - i,
        {
            assert forall|j: int| 0 <= j < self.defs@[i as int].rules.len() implies desugarable(
                term_view((#[trigger] self.defs@[i as int].rules@[j]).body),
                reg,
            ) by {
                assert(before[i as int].rules[j].body == term_view(self.defs@[i as int].rules@[j].body));
            }
            let d = desugared_definition(&self.defs[i], &self.ctrs, &self.adts);
            out.push(d);
            i += 1;
        }
        assert(defs_view(out@) =~= desugared_defs(before, reg));
        self.defs = out;
    }

    /// Lowers every match in every rule body of the definitions present at
    /// the call and appends the minted definitions, which are not scanned
    /// themselves. On failure the book is left as it was.
    pub fn simplify_matches(&mut self) -> (r: Result<(), String>)
        requires
            all_bodies(
                defs_view(old(self).defs@),
                |t: crate::term::TermV| lowerable(t, old(self).reg()),
            ),
            forall|i: int|
                0 <= i < old(self).defs.len() ==> rules_nodes(
                    (#[trigger] defs_view(old(self).defs@)[i]).rules,
                    defs_view(old(self).defs@)[i].rules.len(),
                ) <= usize::MAX,
        ensures
            final(self).adts == old(self).adts,
            final(self).ctrs == old(self).ctrs,
            match r {
                Ok(_) => lowered_book(defs_view(old(self).defs@), old(self).reg()) == Ok::<
                    Seq<DefV>,
                    Seq<char>,
                >(defs_view(final(self).defs@)),
                Err(e) => lowered_book(defs_view(old(self).defs@), old(self).reg()) == Err::<
                    Seq<DefV>,
                    Seq<char>,
                >(e@) && final(self).defs == old(self).defs,
            },
    {
        let ghost reg = self.reg();
        let ghost before = defs_view(self.defs@);
        let mut out: Vec<Definition> = Vec::new();
        let mut new_defs: Vec<Definition> = Vec::new();
        let mut i: usize = 0;
        assert(defs_view(out@) =~= Seq::<DefV>::empty());
        assert(defs_view(new_defs@) =~= Seq::<DefV>::empty());
        while i < self.defs.len()
            invariant
                i <= self.defs.len(),
                out.len() == i,
                *self == *old(self),
                reg == self.reg(),
                before == defs_view(self.defs@),
                before.len() == self.defs.len(),
                all_bodies(before, |t: crate::term::TermV| lowerable(t, reg)),
                forall|k: int|
                    0 <= k < before.len() ==> rules_nodes(
                        (#[trigger] before[k]).rules,
                        before[k].rules.len(),
                    ) <= usize::MAX,
                lowered_defs(before, i as nat, reg) matches Ok(x) && x.0 == defs_view(out@) && x.1
                    == defs_view(new_defs@),
            decreases self.defs.len() - i,
        {
            assert forall|j: int| 0 <= j < self.defs@[i as int].rules.len() implies lowerable(
                term_view((#[trigger] self.defs@[i as int].rules@[j]).body),
                reg,
            ) by {
                assert(before[i as int].rules[j].body == term_view(self.defs@[i as int].rules@[j].body));
            }
            assert(before[i as int] == def_view(self.defs@[i as int]));
            let ghost so_far = defs_view(out@);
            match lowered_definition(&self.defs[i], &self.adts, &self.ctrs, &mut new_defs) {
                Ok(d) => {
                    out.push(d);
                    assert(defs_view(out@) =~= so_far.push(d@));
                },
                Err(e) => {
                    proof {
                        assert(lowered_defs(before, (i + 1) as nat, reg) is Err);
                        lemma_defs_error(before, (i + 1) as nat, before.len(), reg);
                    }
                    return Err(e);
                },
            }
            i += 1;
        }
        let ghost lowered_part = defs_view(out@);
        let ghost minted_part = defs_view(new_defs@);
        out.append(&mut new_defs);
        assert(defs_view(out@) =~= lowered_part + minted_part);
        self.defs = out;
        Ok(())
    }
}

} // verus!
