//! Validation of an algebraic match against the registries.
use crate::registry::{
    adt_get, constructor_list, ctr_list_view, field_entries, keys_of, owner_get, reg_view, Adt,
};
use crate::term::{names_view, Term};
use indexmap::IndexMap;
use itertools::Itertools;
use vstd::prelude::*;
use vstd::string::StringExecFns;

verus! {

/// The names joined into one text, `sep` between neighbours.
pub open spec fn joined(names: Seq<Seq<char>>, sep: Seq<char>) -> Seq<char>
    decreases names.len(),
{
    if names.len() == 0 {
        Seq::empty()
    } else if names.len() == 1 {
        names[0]
    } else {
        joined(names.drop_last(), sep) + sep + names.last()
    }
}

/// The tags that occur more than once, each listed once, in the order in
/// which a scan of the arms first meets a second occurrence.
pub open spec fn repeated_tags(tags: Seq<Seq<char>>) -> Seq<Seq<char>>
    decreases tags.len(),
{
    if tags.len() == 0 {
        Seq::empty()
    } else {
        let before = repeated_tags(tags.drop_last());
        if tags.drop_last().contains(tags.last()) && !before.contains(tags.last()) {
            before.push(tags.last())
        } else {
            before
        }
    }
}

/// The declared constructors that no tag names, in declared order.
pub open spec fn missing_ctrs(declared: Seq<Seq<char>>, tags: Seq<Seq<char>>) -> Seq<Seq<char>>
    decreases declared.len(),
{
    if declared.len() == 0 {
        Seq::empty()
    } else {
        let before = missing_ctrs(declared.drop_last(), tags);
        if tags.contains(declared.last()) {
            before
        } else {
            before.push(declared.last())
        }
    }
}

/// The diagnostic for repeated constructors.
pub open spec fn repeated_message(names: Seq<Seq<char>>) -> Seq<char> {
    if names.len() > 1 {
        "Repeated constructors in a match block: "@ + joined(names, ", "@)
    } else {
        "Repeated a constructor in a match block: "@ + joined(names, ", "@)
    }
}

/// The diagnostic for uncovered constructors.
pub open spec fn missing_message(names: Seq<Seq<char>>) -> Seq<char> {
    if names.len() > 1 {
        "Missing constructors in a match block: "@ + joined(names, ", "@)
    } else {
        "Missing a constructor in a match block: "@ + joined(names, ", "@)
    }
}

/// The verdict on a list of arm tags against a type's declared
/// constructors: `None` where every constructor is covered exactly once,
/// else the diagnostic. Repetition is reported before omission.
pub open spec fn match_fault(tags: Seq<Seq<char>>, declared: Seq<Seq<char>>) -> Option<Seq<char>> {
    if repeated_tags(tags).len() > 0 {
        Some(repeated_message(repeated_tags(tags)))
    } else if missing_ctrs(declared, tags).len() > 0 {
        Some(missing_message(missing_ctrs(declared, tags)))
    } else {
        None
    }
}

/// `Itertools::join` over a list of names: the names in order, with `sep`
/// between neighbours and nothing before the first or after the last.
#[verifier::external_body]
pub(crate) fn join_names(names: &Vec<String>, sep: &str) -> (r: String)
    ensures
        r@ == joined(names_view(names@), sep@),
{
    names.iter().join(sep)
}

/// Whether `name` occurs among the first `upto` names of `v`.
pub fn has_name(v: &Vec<String>, upto: usize, name: &String) -> (b: bool)
    requires
        upto <= v.len(),
    ensures
        b == names_view(v@).take(upto as int).contains(name@),
{
    let mut i: usize = 0;
    let ghost all = names_view(v@);
    while i < upto
        invariant
            i <= upto <= v.len(),
            all == names_view(v@),
            forall|k: int| 0 <= k < i ==> #[trigger] all[k] != name@,
        decreases upto - i,
    {
        if v[i] == *name {
            assert(all.take(upto as int)[i as int] == name@);
            return true;
        }
        i += 1;
    }
    let ghost front = all.take(upto as int);
    assert forall|k: int| 0 <= k < front.len() implies #[trigger] front[k] != name@ by {
        assert(front[k] == all[k]);
    }
    false
}

/// The tags of `tags` that repeat, in scan order.
pub fn find_repeated(tags: &Vec<String>) -> (r: Vec<String>)
    ensures
        names_view(r@) == repeated_tags(names_view(tags@)),
{
    let mut repeated: Vec<String> = Vec::new();
    let mut i: usize = 0;
    assert(names_view(repeated@) =~= Seq::<Seq<char>>::empty());
    while i < tags.len()
        invariant
            i <= tags.len(),
            names_view(repeated@) == repeated_tags(names_view(tags@).take(i as int)),
        decreases tags.len() - i,
    {
        let ghost all = names_view(tags@);
        assert(all.take(i + 1).drop_last() =~= all.take(i as int));
        assert(all.take(i + 1).last() == tags[i as int]@);
        let seen = has_name(tags, i, &tags[i]);
        let n: usize = repeated.len();
        assert(names_view(repeated@).take(n as int) =~= names_view(repeated@));
        let listed = has_name(&repeated, n, &tags[i]);
        if seen && !listed {
            let ghost before = names_view(repeated@);
            repeated.push(tags[i].clone());
            assert(names_view(repeated@) =~= before.push(tags[i as int]@));
        }
        i += 1;
    }
    assert(names_view(tags@).take(tags.len() as int) =~= names_view(tags@));
    repeated
}

/// The constructors of `declared` that `tags` does not name, in declared order.
pub fn find_missing(declared: &Vec<(String, Vec<String>)>, tags: &Vec<String>) -> (r: Vec<String>)
    ensures
        names_view(r@) == missing_ctrs(keys_of(ctr_list_view(declared@)), names_view(tags@)),
{
    let mut missing: Vec<String> = Vec::new();
    let mut j: usize = 0;
    let ghost keys = keys_of(ctr_list_view(declared@));
    assert(names_view(missing@) =~= Seq::<Seq<char>>::empty());
    assert(names_view(tags@).take(tags.len() as int) =~= names_view(tags@));
    while j < declared.len()
        invariant
            j <= declared.len(),
            keys == keys_of(ctr_list_view(declared@)),
            names_view(missing@) == missing_ctrs(keys.take(j as int), names_view(tags@)),
            names_view(tags@).take(tags.len() as int) == names_view(tags@),
        decreases declared.len() - j,
    {
        assert(keys.take(j + 1).drop_last() =~= keys.take(j as int));
        assert(keys.take(j + 1).last() == declared[j as int].0@);
        if !has_name(tags, tags.len(), &declared[j].0) {
            let ghost before = names_view(missing@);
            missing.push(declared[j].0.clone());
            assert(names_view(missing@) =~= before.push(declared[j as int].0@));
        }
        j += 1;
    }
    assert(keys.take(declared.len() as int) =~= keys);
    missing
}

impl Term {
    /// Validates the arm tags of an algebraic match. The scrutinee's type is the
    /// one that owns the first tag. Returns that type where its constructors are
    /// covered exactly once each, else the diagnostic of `match_fault`.
    pub fn check_matches<'a>(
        tags: &Vec<String>,
        adts: &'a IndexMap<String, Adt>,
        ctrs: &IndexMap<String, String>,
    ) -> (r: Result<&'a Adt, String>)
        requires
            tags.len() > 0,
            reg_view(*ctrs, *adts).type_of(tags[0]@).is_some(),
        ensures
            match r {
                Ok(adt) => {
                    &&& Some(field_entries(adt.ctrs)) == reg_view(*ctrs, *adts).type_of(tags[0]@)
                    &&& match_fault(names_view(tags@), keys_of(field_entries(adt.ctrs))).is_none()
                },
                Err(e) => Some(e@) == match_fault(
                    names_view(tags@),
                    keys_of(reg_view(*ctrs, *adts).type_of(tags[0]@).unwrap()),
                ),
            },
    {
        let owner = owner_get(ctrs, &tags[0]).unwrap();
        let adt = adt_get(adts, owner).unwrap();
        let declared = constructor_list(&adt.ctrs);
        let repeated = find_repeated(tags);
        if repeated.len() > 0 {
            let mut msg = if repeated.len() > 1 {
                String::from_str("Repeated constructors in a match block: ")
            } else {
                String::from_str("Repeated a constructor in a match block: ")
            };
            let list = join_names(&repeated, ", ");
            msg.append(list.as_str());
            return Err(msg);
        }
        let missing = find_missing(&declared, tags);
        if missing.len() > 0 {
            let mut msg = if missing.len() > 1 {
                String::from_str("Missing constructors in a match block: ")
            } else {
                String::from_str("Missing a constructor in a match block: ")
            };
            let list = join_names(&missing, ", ");
            msg.append(list.as_str());
            return Err(msg);
        }
        Ok(adt)
    }
}

} // verus!
