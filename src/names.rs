//! Lookups by name over the manifest's ordered collections.
use vstd::prelude::*;
use crate::manifest::{Column, Manifest, Model, Relationship};

verus! {

/// No two entries of `names` are equal.
pub open spec fn distinct(names: Seq<Seq<char>>) -> bool {
    forall|i: int, j: int| 0 <= i < j < names.len() ==> names[i] != names[j]
}

pub open spec fn model_names(m: Manifest) -> Seq<Seq<char>> {
    m.models@.map_values(|x: Model| x.name@)
}

pub open spec fn relationship_names(m: Manifest) -> Seq<Seq<char>> {
    m.relationships@.map_values(|x: Relationship| x.name@)
}

pub open spec fn column_names(md: Model) -> Seq<Seq<char>> {
    md.columns@.map_values(|x: Column| x.name@)
}

/// The first index at or after `from` where `name` occurs in `names`.
pub open spec fn position(names: Seq<Seq<char>>, name: Seq<char>, from: int) -> Option<int>
    decreases names.len() - from,
{
    if from < 0 || from >= names.len() {
        None
    } else if names[from] == name {
        Some(from)
    } else {
        position(names, name, from + 1)
    }
}

/// Whether some name occurs twice.
pub fn has_duplicate(names: &Vec<String>) -> (r: bool)
    ensures
        r == !distinct(names@.map_values(|x: String| x@)),
{
    let ghost v = names@.map_values(|x: String| x@);
    let mut i: usize = 0;
    while i < names.len()
        invariant
            v == names@.map_values(|x: String| x@),
            i <= names.len(),
            forall|a: int, b: int| 0 <= a < i && a < b < v.len() ==> v[a] != v[b],
        decreases names.len() - i,
    {
        let mut j: usize = i + 1;
        while j < names.len()
            invariant
                v == names@.map_values(|x: String| x@),
                i < names.len(),
                i + 1 <= j <= names.len(),
                forall|a: int, b: int| 0 <= a < i && a < b < v.len() ==> v[a] != v[b],
                forall|b: int| i < b < j ==> v[i as int] != v[b],
            decreases names.len() - j,
        {
            if names[i] == names[j] {
                assert(v[i as int] == v[j as int]);
                return true;
            }
            j = j + 1;
        }
        i = i + 1;
    }
    false
}

/// Index of the first model named `name`.
pub fn find_model(m: &Manifest, name: &String) -> (r: Option<usize>)
    ensures
        match r {
            Some(i) => i < m.models.len() && m.models[i as int].name@ == name@,
            None => forall|i: int| 0 <= i < m.models.len() ==> m.models[i].name@ != name@,
        },
        match r {
            Some(i) => position(model_names(*m), name@, 0) == Some(i as int),
            None => position(model_names(*m), name@, 0) is None,
        },
{
    let mut i: usize = 0;
    while i < m.models.len()
        invariant
            i <= m.models.len(),
            forall|k: int| 0 <= k < i ==> m.models[k].name@ != name@,
            position(model_names(*m), name@, 0) == position(model_names(*m), name@, i as int),
        decreases m.models.len() - i,
    {
        if m.models[i].name == *name {
            assert(model_names(*m)[i as int] == m.models[i as int].name@);
            return Some(i);
        }
        assert(model_names(*m)[i as int] == m.models[i as int].name@);
        i = i + 1;
    }
    None
}

/// Index of the first relationship named `name`.
pub fn find_relationship(m: &Manifest, name: &String) -> (r: Option<usize>)
    ensures
        match r {
            Some(i) => i < m.relationships.len() && m.relationships[i as int].name@ == name@,
            None => forall|i: int|
                0 <= i < m.relationships.len() ==> m.relationships[i].name@ != name@,
        },
        match r {
            Some(i) => position(relationship_names(*m), name@, 0) == Some(i as int),
            None => position(relationship_names(*m), name@, 0) is None,
        },
{
    let mut i: usize = 0;
    while i < m.relationships.len()
        invariant
            i <= m.relationships.len(),
            forall|k: int| 0 <= k < i ==> m.relationships[k].name@ != name@,
            position(relationship_names(*m), name@, 0) == position(relationship_names(*m), name@, i as int),
        decreases m.relationships.len() - i,
    {
        if m.relationships[i].name == *name {
            assert(relationship_names(*m)[i as int] == m.relationships[i as int].name@);
            return Some(i);
        }
        assert(relationship_names(*m)[i as int] == m.relationships[i as int].name@);
        i = i + 1;
    }
    None
}

/// Index of the first column of `md` named `name`.
pub fn find_column(md: &Model, name: &String) -> (r: Option<usize>)
    ensures
        match r {
            Some(i) => i < md.columns.len() && md.columns[i as int].name@ == name@,
            None => forall|i: int| 0 <= i < md.columns.len() ==> md.columns[i].name@ != name@,
        },
        match r {
            Some(i) => position(column_names(*md), name@, 0) == Some(i as int),
            None => position(column_names(*md), name@, 0) is None,
        },
{
    let mut i: usize = 0;
    while i < md.columns.len()
        invariant
            i <= md.columns.len(),
            forall|k: int| 0 <= k < i ==> md.columns[k].name@ != name@,
            position(column_names(*md), name@, 0) == position(column_names(*md), name@, i as int),
        decreases md.columns.len() - i,
    {
        if md.columns[i].name == *name {
            assert(column_names(*md)[i as int] == md.columns[i as int].name@);
            return Some(i);
        }
        assert(column_names(*md)[i as int] == md.columns[i as int].name@);
        i = i + 1;
    }
    None
}

} // verus!
