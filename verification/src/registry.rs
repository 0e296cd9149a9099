//! The constructor and type registries, kept in insertion-ordered maps.
use indexmap::IndexMap;
use std::collections::hash_map::RandomState;
use vstd::prelude::*;

verus! {

/// The insertion-ordered hash map of the `indexmap` crate. Its contents are
/// opaque to the verifier and are read through the functions below.
#[verifier::external_type_specification]
#[verifier::external_body]
#[verifier::reject_recursive_types(K)]
#[verifier::reject_recursive_types(V)]
#[verifier::reject_recursive_types(S)]
pub struct ExIndexMap<K, V, S>(IndexMap<K, V, S>);

/// An algebraic type: its constructors in declared order, each with its
/// field names in declared order.
pub struct Adt {
    pub ctrs: IndexMap<String, Vec<String>>,
}

/// The declared constructors of a type as plain values.
pub type CtrsV = Seq<(Seq<char>, Seq<Seq<char>>)>;

/// The entries of a constructor-to-owning-type map, in the map's order.
pub uninterp spec fn owner_entries(m: IndexMap<String, String, RandomState>) -> Seq<(Seq<char>, Seq<char>)>;

/// The entries of a constructor-to-fields map, in the map's order.
pub uninterp spec fn field_entries(m: IndexMap<String, Vec<String>, RandomState>) -> Seq<(Seq<char>, Seq<Seq<char>>)>;

/// The entries of a type registry, in the map's order; each type is given by
/// the entries of its constructor map.
pub uninterp spec fn adt_entries(m: IndexMap<String, Adt, RandomState>) -> Seq<(Seq<char>, Seq<(Seq<char>, Seq<Seq<char>>)>)>;

/// The two registries as plain values.
pub struct RegV {
    pub owners: Seq<(Seq<char>, Seq<char>)>,
    pub adts: Seq<(Seq<char>, CtrsV)>,
}

/// The registries held by two maps.
pub open spec fn reg_view(
    ctrs: IndexMap<String, String, RandomState>,
    adts: IndexMap<String, Adt, RandomState>,
) -> RegV {
    RegV { owners: owner_entries(ctrs), adts: adt_entries(adts) }
}

/// The value stored under `key`: that of the first entry with this key.
pub open spec fn lookup<V>(entries: Seq<(Seq<char>, V)>, key: Seq<char>) -> Option<V>
    decreases entries.len(),
{
    if entries.len() == 0 {
        None
    } else if entries[0].0 == key {
        Some(entries[0].1)
    } else {
        lookup(entries.drop_first(), key)
    }
}

/// The keys of a list of entries, in order.
pub open spec fn keys_of<V>(entries: Seq<(Seq<char>, V)>) -> Seq<Seq<char>> {
    Seq::new(entries.len(), |i: int| entries[i].0)
}

impl RegV {
    /// The declared constructors of the type that owns constructor `ctr`.
    pub open spec fn type_of(self, ctr: Seq<char>) -> Option<CtrsV> {
        match lookup(self.owners, ctr) {
            Some(ty) => lookup(self.adts, ty),
            None => None,
        }
    }

    /// The declared field names of constructor `ctr`.
    pub open spec fn fields_of(self, ctr: Seq<char>) -> Option<Seq<Seq<char>>> {
        match self.type_of(ctr) {
            Some(adt) => lookup(adt, ctr),
            None => None,
        }
    }
}

/// The plain value of a list of constructors with their fields.
pub open spec fn ctr_list_view(v: Seq<(String, Vec<String>)>) -> CtrsV {
    Seq::new(v.len(), |i: int| (v[i].0@, crate::term::names_view(v[i].1@)))
}

/// `IndexMap::get` on the constructor registry: the owning type stored for
/// `key`, or `None` where the map has no such key.
#[verifier::external_body]
pub(crate) fn owner_get<'a>(m: &'a IndexMap<String, String>, key: &String) -> (r: Option<&'a String>)
    ensures
        match r {
            Some(v) => lookup(owner_entries(*m), key@) == Some(v@),
            None => lookup(owner_entries(*m), key@).is_none(),
        },
{
    m.get(key)
}

/// `IndexMap::get` on the type registry: the type stored for `key`, or
/// `None` where the map has no such key.
#[verifier::external_body]
pub(crate) fn adt_get<'a>(m: &'a IndexMap<String, Adt>, key: &String) -> (r: Option<&'a Adt>)
    ensures
        match r {
            Some(a) => lookup(adt_entries(*m), key@) == Some(field_entries(a.ctrs)),
            None => lookup(adt_entries(*m), key@).is_none(),
        },
{
    m.get(key)
}

/// `IndexMap::get` on a type's constructors: the field names stored for
/// `key`, or `None` where the type has no such constructor.
#[verifier::external_body]
pub(crate) fn fields_get<'a>(m: &'a IndexMap<String, Vec<String>>, key: &String) -> (r: Option<&'a Vec<String>>)
    ensures
        match r {
            Some(v) => lookup(field_entries(*m), key@) == Some(crate::term::names_view(v@)),
            None => lookup(field_entries(*m), key@).is_none(),
        },
{
    m.get(key)
}

/// `IndexMap::iter` on a type's constructors: every entry, in the map's
/// order, copied out as a constructor name with its field names.
#[verifier::external_body]
pub(crate) fn constructor_list(m: &IndexMap<String, Vec<String>>) -> (r: Vec<(String, Vec<String>)>)
    ensures
        ctr_list_view(r@) == field_entries(*m),
{
    m.iter().map(|(k, v)| (k.clone(), v.clone())).collect()
}

} // verus!
