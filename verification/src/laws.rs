//! What holds of lowering whatever the term: exhaustive matches lower, each
//! constructor gets its one definition, and each match its own number.
use crate::lower::{adt_defs, arm_tag, arm_tags, case_def, first_index, is_numeric};
use crate::names::def_name_of;
use crate::registry::{keys_of, CtrsV, RegV};
use crate::simplify::{
    lowered, lowered_match, lowered_upto, match_nodes, match_nodes_upto, LowerState,
};
use crate::term::{DefV, PatV, TermV};
use crate::validate::{match_fault, missing_ctrs, repeated_tags};
use vstd::prelude::*;

verus! {

/// Tags without duplicates have no repeated tag.
pub proof fn lemma_no_duplicates_no_repeats(tags: Seq<Seq<char>>)
    requires
        tags.no_duplicates(),
    ensures
        repeated_tags(tags).len() == 0,
    decreases tags.len(),
{
    if tags.len() > 0 {
        let front = tags.drop_last();
        assert forall|i: int, j: int| 0 <= i < front.len() && 0 <= j < front.len() && i != j implies front[i]
            != front[j] by {
            assert(front[i] == tags[i] && front[j] == tags[j]);
        }
        lemma_no_duplicates_no_repeats(front);
        if front.contains(tags.last()) {
            let i = choose|i: int| 0 <= i < front.len() && front[i] == tags.last();
            assert(tags[i] == tags[tags.len() - 1]);
        }
    }
}

/// Where every declared constructor is among the tags, none is missing.
pub proof fn lemma_all_named_none_missing(declared: Seq<Seq<char>>, tags: Seq<Seq<char>>)
    requires
        forall|j: int| 0 <= j < declared.len() ==> tags.contains(#[trigger] declared[j]),
    ensures
        missing_ctrs(declared, tags).len() == 0,
    decreases declared.len(),
{
    if declared.len() > 0 {
        let front = declared.drop_last();
        assert forall|j: int| 0 <= j < front.len() implies tags.contains(#[trigger] front[j]) by {
            assert(front[j] == declared[j]);
        }
        lemma_all_named_none_missing(front, tags);
        assert(declared.last() == declared[declared.len() - 1]);
    }
}

/// Where every declared constructor is among the arm tags, the minted
/// definitions are one per constructor, in declared order, each the case
/// definition of the first arm that names its constructor.
pub proof fn lemma_one_definition_per_constructor(
    scrutinee: Seq<char>,
    adt: CtrsV,
    arms: Seq<(PatV, TermV)>,
    def_name: Seq<char>,
    count: nat,
)
    requires
        forall|j: int| 0 <= j < adt.len() ==> arm_tags(arms).contains((#[trigger] adt[j]).0),
    ensures
        adt_defs(scrutinee, adt, arms, def_name, count).len() == adt.len(),
        forall|j: int|
            0 <= j < adt.len() ==> (#[trigger] adt_defs(scrutinee, adt, arms, def_name, count)[j])
                == case_def(
                scrutinee,
                adt[j],
                arms[first_index(arm_tags(arms), adt[j].0)].1,
                def_name,
                count,
            ),
        forall|j: int|
            0 <= j < adt.len() ==> (#[trigger] adt_defs(scrutinee, adt, arms, def_name, count)[j]).name
                == def_name_of(def_name, adt[j].0, count),
    decreases adt.len(),
{
    if adt.len() > 0 {
        let front = adt.drop_last();
        assert forall|j: int| 0 <= j < front.len() implies arm_tags(arms).contains(
            (#[trigger] front[j]).0,
        ) by {
            assert(front[j] == adt[j]);
        }
        lemma_one_definition_per_constructor(scrutinee, front, arms, def_name, count);
        assert(adt.last() == adt[adt.len() - 1]);
        let all = adt_defs(scrutinee, adt, arms, def_name, count);
        let before = adt_defs(scrutinee, front, arms, def_name, count);
        assert forall|j: int| 0 <= j < adt.len() implies (#[trigger] all[j]) == case_def(
            scrutinee,
            adt[j],
            arms[first_index(arm_tags(arms), adt[j].0)].1,
            def_name,
            count,
        ) by {
            if j < front.len() {
                assert(all[j] == before[j]);
                assert(front[j] == adt[j]);
            }
        }
    }
}

/// Exhaustiveness: an algebraic match whose arm tags are the declared
/// constructors of the scrutinee's type, each exactly once, lowers without a
/// diagnostic and mints exactly one definition per constructor, named after
/// the enclosing definition, the constructor and the match number.
pub proof fn lemma_exhaustive_match_lowers(
    s: TermV,
    arms: Seq<(PatV, TermV)>,
    def_name: Seq<char>,
    reg: RegV,
    defs: Seq<DefV>,
    count: nat,
)
    requires
        arms.len() > 0,
        !is_numeric(arms[0].0),
        reg.type_of(arm_tag(arms[0].0)).is_some(),
        arm_tags(arms).no_duplicates(),
        forall|c: Seq<char>|
            arm_tags(arms).contains(c) <==> keys_of(reg.type_of(arm_tag(arms[0].0)).unwrap()).contains(c),
    ensures
        match_fault(arm_tags(arms), keys_of(reg.type_of(arm_tag(arms[0].0)).unwrap())).is_none(),
        lowered_match(s, arms, def_name, reg, defs, count) matches Ok(r) && r.1.count == count
            && r.1.defs.len() == defs.len() + reg.type_of(arm_tag(arms[0].0)).unwrap().len()
            && forall|j: int|
            0 <= j < reg.type_of(arm_tag(arms[0].0)).unwrap().len() ==> (#[trigger] r.1.defs[defs.len()
                + j]).name == def_name_of(
                def_name,
                reg.type_of(arm_tag(arms[0].0)).unwrap()[j].0,
                count,
            ),
{
    let adt = reg.type_of(arm_tag(arms[0].0)).unwrap();
    let tags = arm_tags(arms);
    let declared = keys_of(adt);
    lemma_no_duplicates_no_repeats(tags);
    assert forall|j: int| 0 <= j < declared.len() implies tags.contains(#[trigger] declared[j]) by {
        assert(declared.contains(declared[j]));
    }
    lemma_all_named_none_missing(declared, tags);
    assert forall|j: int| 0 <= j < adt.len() implies tags.contains((#[trigger] adt[j]).0) by {
        assert(declared[j] == adt[j].0);
    }
    let scrutinee = crate::simplify::var_name(s);
    lemma_one_definition_per_constructor(scrutinee, adt, arms, def_name, count);
    let minted = adt_defs(scrutinee, adt, arms, def_name, count);
    assert forall|j: int| 0 <= j < adt.len() implies (#[trigger] (defs + minted)[defs.len() + j]).name
        == def_name_of(def_name, adt[j].0, count) by {
        assert((defs + minted)[defs.len() + j] == minted[j]);
    }
}

/// Every match gets a number of its own: a lowering that succeeds advances
/// the counter by exactly the number of matches it met, one per match, so the
/// matches of one definition carry the numbers after the starting count in
/// the order in which they are lowered.
pub proof fn lemma_lowering_numbers_matches(t: TermV, def_name: Seq<char>, reg: RegV, st: LowerState)
    requires
        lowered(t, def_name, reg, st) is Ok,
    ensures
        lowered(t, def_name, reg, st) matches Ok(r) && r.1.count == st.count + match_nodes(t),
    decreases t, 0nat,
{
    match t {
        TermV::Match(s, arms) => {
            lemma_arms_number_matches(arms, arms.len(), def_name, reg, st);
        },
        TermV::Let(_, a, b) => {
            lemma_lowering_numbers_matches(*a, def_name, reg, st);
            lemma_lowering_numbers_matches(*b, def_name, reg, lowered(*a, def_name, reg, st)->Ok_0.1);
        },
        TermV::App(a, b) => {
            lemma_lowering_numbers_matches(*a, def_name, reg, st);
            lemma_lowering_numbers_matches(*b, def_name, reg, lowered(*a, def_name, reg, st)->Ok_0.1);
        },
        TermV::Tup(a, b) => {
            lemma_lowering_numbers_matches(*a, def_name, reg, st);
            lemma_lowering_numbers_matches(*b, def_name, reg, lowered(*a, def_name, reg, st)->Ok_0.1);
        },
        TermV::Sup(a, b) => {
            lemma_lowering_numbers_matches(*a, def_name, reg, st);
            lemma_lowering_numbers_matches(*b, def_name, reg, lowered(*a, def_name, reg, st)->Ok_0.1);
        },
        TermV::Opx(_, a, b) => {
            lemma_lowering_numbers_matches(*a, def_name, reg, st);
            lemma_lowering_numbers_matches(*b, def_name, reg, lowered(*a, def_name, reg, st)->Ok_0.1);
        },
        TermV::Dup(_, _, a, b) => {
            lemma_lowering_numbers_matches(*a, def_name, reg, st);
            lemma_lowering_numbers_matches(*b, def_name, reg, lowered(*a, def_name, reg, st)->Ok_0.1);
        },
        TermV::Lam(_, b) => {
            lemma_lowering_numbers_matches(*b, def_name, reg, st);
        },
        TermV::Chn(_, b) => {
            lemma_lowering_numbers_matches(*b, def_name, reg, st);
        },
        _ => {},
    }
}

/// The counter after the first `n` arm bodies has advanced by the number of
/// matches in them.
pub proof fn lemma_arms_number_matches(
    arms: Seq<(PatV, TermV)>,
    n: nat,
    def_name: Seq<char>,
    reg: RegV,
    st: LowerState,
)
    requires
        n <= arms.len(),
        lowered_upto(arms, n, def_name, reg, st) is Ok,
    ensures
        lowered_upto(arms, n, def_name, reg, st) matches Ok(r) && r.1.count == st.count
            + match_nodes_upto(arms, n),
    decreases arms, n,
{
    if n > 0 {
        lemma_arms_number_matches(arms, (n - 1) as nat, def_name, reg, st);
        let before = lowered_upto(arms, (n - 1) as nat, def_name, reg, st)->Ok_0;
        lemma_lowering_numbers_matches(arms[n - 1].1, def_name, reg, before.1);
    }
}

} // verus!
