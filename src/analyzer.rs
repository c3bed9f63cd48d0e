//! Binds a manifest to physical schemas, checks every cross-reference, and
//! resolves each calculated column to a chain of relationship hops ending in
//! a physical column.
use vstd::prelude::*;
use crate::expression::{segments, split_segments, string_views};
use crate::manifest::{Column, Manifest, Model, Relationship};
use crate::names::{
    column_names, distinct, find_column, find_model, find_relationship, has_duplicate,
    model_names, position, relationship_names,
};

verus! {

/// The most relationship hops, and the most calculated columns, that one
/// resolution may pass through.
pub const MAX_DEPTH: usize = 32;

/// A column of a physical table.
#[derive(Clone, Debug)]
pub struct PhysicalField {
    pub name: String,
    pub data_type: String,
}

/// The schema of the physical table that `table_reference` names.
#[derive(Clone, Debug)]
pub struct PhysicalTable {
    pub table_reference: String,
    pub fields: Vec<PhysicalField>,
}

/// Why a manifest could not be analysed.
#[derive(Clone, Copy, Debug, PartialEq, Eq, Structural)]
pub enum AnalysisError {
    DuplicateModel,
    DuplicateColumn,
    DuplicateRelationship,
    UnresolvedTable,
    SchemaMismatch,
    DanglingRelationshipReference,
    MalformedExpression,
    CyclicCalculatedColumn,
    ExpressionTooDeep,
    InvalidPrimaryKey,
}

// ---- names ----

/// The first duplicate-name error among models, then the columns of each
/// model.
pub open spec fn names_error(m: Manifest) -> Option<AnalysisError> {
    if !distinct(model_names(m)) {
        Some(AnalysisError::DuplicateModel)
    } else if !(forall|i: int|
        0 <= i < m.models.len() ==> distinct(column_names(#[trigger] m.models[i]))) {
        Some(AnalysisError::DuplicateColumn)
    } else {
        None
    }
}

fn collect_model_names(m: &Manifest) -> (r: Vec<String>)
    ensures
        string_views(r@) == model_names(*m),
{
    let mut r: Vec<String> = Vec::new();
    let mut i: usize = 0;
    while i < m.models.len()
        invariant
            i <= m.models.len(),
            string_views(r@) == model_names(*m).subrange(0, i as int),
        decreases m.models.len() - i,
    {
        let ghost before = r@;
        let name = m.models[i].name.clone();
        assert(name@ == m.models[i as int].name@);
        r.push(name);
        assert(r@ == before.push(name));
        assert(string_views(r@) =~= string_views(before).push(name@));
        i = i + 1;
        assert(string_views(r@) =~= model_names(*m).subrange(0, i as int));
    }
    assert(model_names(*m).subrange(0, i as int) =~= model_names(*m));
    r
}

fn collect_relationship_names(m: &Manifest) -> (r: Vec<String>)
    ensures
        string_views(r@) == relationship_names(*m),
{
    let mut r: Vec<String> = Vec::new();
    let mut i: usize = 0;
    while i < m.relationships.len()
        invariant
            i <= m.relationships.len(),
            string_views(r@) == relationship_names(*m).subrange(0, i as int),
        decreases m.relationships.len() - i,
    {
        let ghost before = r@;
        let name = m.relationships[i].name.clone();
        assert(name@ == m.relationships[i as int].name@);
        r.push(name);
        assert(r@ == before.push(name));
        assert(string_views(r@) =~= string_views(before).push(name@));
        i = i + 1;
        assert(string_views(r@) =~= relationship_names(*m).subrange(0, i as int));
    }
    assert(relationship_names(*m).subrange(0, i as int) =~= relationship_names(*m));
    r
}

fn collect_column_names(md: &Model) -> (r: Vec<String>)
    ensures
        string_views(r@) == column_names(*md),
{
    let mut r: Vec<String> = Vec::new();
    let mut i: usize = 0;
    while i < md.columns.len()
        invariant
            i <= md.columns.len(),
            string_views(r@) == column_names(*md).subrange(0, i as int),
        decreases md.columns.len() - i,
    {
        let ghost before = r@;
        let name = md.columns[i].name.clone();
        assert(name@ == md.columns[i as int].name@);
        r.push(name);
        assert(r@ == before.push(name));
        assert(string_views(r@) =~= string_views(before).push(name@));
        i = i + 1;
        assert(string_views(r@) =~= column_names(*md).subrange(0, i as int));
    }
    assert(column_names(*md).subrange(0, i as int) =~= column_names(*md));
    r
}

/// The first duplicate-name error of the manifest, if any.
fn check_names(m: &Manifest) -> (r: Option<AnalysisError>)
    ensures
        r == names_error(*m),
{
    let names = collect_model_names(m);
    assert(string_views(names@) =~= names@.map_values(|x: String| x@));
    if has_duplicate(&names) {
        return Some(AnalysisError::DuplicateModel);
    }
    let mut i: usize = 0;
    while i < m.models.len()
        invariant
            i <= m.models.len(),
            distinct(model_names(*m)),
            forall|k: int| 0 <= k < i ==> distinct(column_names(#[trigger] m.models[k])),
        decreases m.models.len() - i,
    {
        let names = collect_column_names(&m.models[i]);
        if has_duplicate(&names) {
            assert(string_views(names@) =~= names@.map_values(|x: String| x@));
            assert(!distinct(column_names(m.models[i as int])));
            return Some(AnalysisError::DuplicateColumn);
        }
        i = i + 1;
    }
    None
}


// ---- physical binding ----

/// `t` has a field with the column's name and type.
pub open spec fn has_field(t: PhysicalTable, c: Column) -> bool {
    exists|f: int|
        0 <= f < t.fields.len() && #[trigger] t.fields[f].name@ == c.name@ && t.fields[f].data_type@
            == c.data_type@
}

/// Some table is bound to the model's reference, and every table bound to it
/// holds each physically backed column of the model.
pub open spec fn model_bound(md: Model, tables: Seq<PhysicalTable>) -> bool {
    &&& exists|t: int| 0 <= t < tables.len() && #[trigger] tables[t].table_reference@ == md.table_reference@
    &&& forall|t: int, c: int|
        0 <= t < tables.len() && tables[t].table_reference@ == md.table_reference@ && 0 <= c
            < md.columns.len() && md.columns[c].is_physical() ==> has_field(
            #[trigger] tables[t],
            #[trigger] md.columns[c],
        )
}

pub open spec fn all_bound(m: Manifest, tables: Seq<PhysicalTable>) -> bool {
    forall|i: int| 0 <= i < m.models.len() ==> model_bound(#[trigger] m.models[i], tables)
}

fn table_has_field(t: &PhysicalTable, c: &Column) -> (r: bool)
    ensures
        r == has_field(*t, *c),
{
    let mut f: usize = 0;
    while f < t.fields.len()
        invariant
            f <= t.fields.len(),
            forall|k: int|
                0 <= k < f ==> !(#[trigger] t.fields[k].name@ == c.name@ && t.fields[k].data_type@
                    == c.data_type@),
        decreases t.fields.len() - f,
    {
        if t.fields[f].name == c.name && t.fields[f].data_type == c.data_type {
            return true;
        }
        f = f + 1;
    }
    false
}

/// The binding error of one model, if any.
fn check_model_binding(md: &Model, tables: &Vec<PhysicalTable>) -> (r: Option<AnalysisError>)
    ensures
        r is None <==> model_bound(*md, tables@),
        r is Some ==> r == Some(AnalysisError::UnresolvedTable) || r == Some(
            AnalysisError::SchemaMismatch,
        ),
        r == Some(AnalysisError::UnresolvedTable) ==> forall|t: int|
            0 <= t < tables.len() ==> #[trigger] tables[t].table_reference@ != md.table_reference@,
{
    let mut found = false;
    let mut t: usize = 0;
    while t < tables.len()
        invariant
            t <= tables.len(),
            found == exists|k: int|
                0 <= k < t && #[trigger] tables@[k].table_reference@ == md.table_reference@,
            forall|k: int, c: int|
                0 <= k < t && tables@[k].table_reference@ == md.table_reference@ && 0 <= c
                    < md.columns.len() && md.columns[c].is_physical() ==> has_field(
                    #[trigger] tables@[k],
                    #[trigger] md.columns[c],
                ),
        decreases tables.len() - t,
    {
        if tables[t].table_reference == md.table_reference {
            let mut c: usize = 0;
            while c < md.columns.len()
                invariant
                    t < tables.len(),
                    tables@[t as int].table_reference@ == md.table_reference@,
                    c <= md.columns.len(),
                    forall|k: int|
                        0 <= k < c && md.columns[k].is_physical() ==> has_field(
                            tables@[t as int],
                            #[trigger] md.columns[k],
                        ),
                decreases md.columns.len() - c,
            {
                let col = &md.columns[c];
                if !col.is_calculated && col.relationship.is_none() {
                    if !table_has_field(&tables[t], col) {
                        assert(tables@[t as int].table_reference@ == md.table_reference@);
                        assert(!has_field(tables@[t as int], md.columns[c as int]));
                        return Some(AnalysisError::SchemaMismatch);
                    }
                }
                c = c + 1;
            }
            found = true;
        }
        t = t + 1;
    }
    if found {
        None
    } else {
        Some(AnalysisError::UnresolvedTable)
    }
}

/// Some table is bound to the model's reference.
pub open spec fn model_resolved(md: Model, tables: Seq<PhysicalTable>) -> bool {
    exists|t: int| 0 <= t < tables.len() && #[trigger] tables[t].table_reference@ == md.table_reference@
}

/// Unresolved tables are reported before mismatched schemas.
pub open spec fn binding_error(m: Manifest, tables: Seq<PhysicalTable>) -> Option<AnalysisError> {
    if !(forall|i: int| 0 <= i < m.models.len() ==> model_resolved(#[trigger] m.models[i], tables)) {
        Some(AnalysisError::UnresolvedTable)
    } else if !all_bound(m, tables) {
        Some(AnalysisError::SchemaMismatch)
    } else {
        None
    }
}

fn check_binding(m: &Manifest, tables: &Vec<PhysicalTable>) -> (r: Option<AnalysisError>)
    ensures
        r == binding_error(*m, tables@),
{
    let mut i: usize = 0;
    while i < m.models.len()
        invariant
            i <= m.models.len(),
            forall|k: int| 0 <= k < i ==> model_resolved(#[trigger] m.models[k], tables@),
        decreases m.models.len() - i,
    {
        let md = &m.models[i];
        let mut t: usize = 0;
        let mut found = false;
        while t < tables.len() && !found
            invariant
                t <= tables.len(),
                found ==> model_resolved(*md, tables@),
                !found ==> forall|k: int|
                    0 <= k < t ==> #[trigger] tables@[k].table_reference@ != md.table_reference@,
            decreases tables.len() - t,
        {
            if tables[t].table_reference == md.table_reference {
                found = true;
            }
            t = t + 1;
        }
        if !found {
            assert(!model_resolved(m.models[i as int], tables@));
            return Some(AnalysisError::UnresolvedTable);
        }
        i = i + 1;
    }
    let mut i: usize = 0;
    while i < m.models.len()
        invariant
            i <= m.models.len(),
            forall|k: int| 0 <= k < m.models.len() ==> model_resolved(#[trigger] m.models[k], tables@),
            forall|k: int| 0 <= k < i ==> model_bound(#[trigger] m.models[k], tables@),
        decreases m.models.len() - i,
    {
        let e = check_model_binding(&m.models[i], tables);
        if e.is_some() {
            assert(model_resolved(m.models[i as int], tables@));
            assert(!all_bound(*m, tables@));
            return Some(AnalysisError::SchemaMismatch);
        }
        i = i + 1;
    }
    None
}

// ---- relationships ----

pub open spec fn model_exists(m: Manifest, name: Seq<char>) -> bool {
    exists|i: int| 0 <= i < m.models.len() && #[trigger] m.models[i].name@ == name
}

/// Both endpoints of every relationship are models of the manifest.
pub open spec fn endpoints_exist(m: Manifest) -> bool {
    forall|k: int|
        0 <= k < m.relationships.len() ==> model_exists(m, (#[trigger] m.relationships[k]).first_model@)
            && model_exists(m, m.relationships[k].second_model@)
}

/// A relationship column names a relationship whose endpoints include the
/// column's target model.
pub open spec fn relationship_column_valid(m: Manifest, c: Column) -> bool {
    match c.relationship {
        Some(n) => exists|k: int|
            0 <= k < m.relationships.len() && #[trigger] m.relationships[k].name@ == n@ && (
            c.data_type@ == m.relationships[k].first_model@ || c.data_type@
                == m.relationships[k].second_model@),
        None => true,
    }
}

pub open spec fn relationship_columns_valid(m: Manifest) -> bool {
    forall|i: int, c: int|
        0 <= i < m.models.len() && 0 <= c < m.models[i].columns.len() ==> relationship_column_valid(
            m,
            #[trigger] m.models[i].columns[c],
        )
}

fn check_endpoints(m: &Manifest) -> (r: bool)
    ensures
        r == endpoints_exist(*m),
{
    let mut k: usize = 0;
    while k < m.relationships.len()
        invariant
            k <= m.relationships.len(),
            forall|j: int|
                0 <= j < k ==> model_exists(*m, (#[trigger] m.relationships[j]).first_model@)
                    && model_exists(*m, m.relationships[j].second_model@),
        decreases m.relationships.len() - k,
    {
        let rel = &m.relationships[k];
        match find_model(m, &rel.first_model) {
            Some(_) => {},
            None => {
                assert(!model_exists(*m, m.relationships[k as int].first_model@));
                return false;
            },
        }
        match find_model(m, &rel.second_model) {
            Some(_) => {},
            None => {
                assert(!model_exists(*m, m.relationships[k as int].second_model@));
                return false;
            },
        }
        k = k + 1;
    }
    true
}

fn check_relationship_column(m: &Manifest, c: &Column) -> (r: bool)
    ensures
        r == relationship_column_valid(*m, *c),
{
    match &c.relationship {
        None => true,
        Some(n) => {
            let mut k: usize = 0;
            while k < m.relationships.len()
                invariant
                    k <= m.relationships.len(),
                    c.relationship == Some(*n),
                    forall|j: int|
                        0 <= j < k ==> !(#[trigger] m.relationships[j].name@ == n@ && (c.data_type@
                            == m.relationships[j].first_model@ || c.data_type@
                            == m.relationships[j].second_model@)),
                decreases m.relationships.len() - k,
            {
                let rel = &m.relationships[k];
                if rel.name == *n && (c.data_type == rel.first_model || c.data_type
                    == rel.second_model) {
                    return true;
                }
                k = k + 1;
            }
            false
        },
    }
}

fn check_relationship_columns(m: &Manifest) -> (r: bool)
    ensures
        r == relationship_columns_valid(*m),
{
    let mut i: usize = 0;
    while i < m.models.len()
        invariant
            i <= m.models.len(),
            forall|a: int, c: int|
                0 <= a < i && 0 <= c < m.models[a].columns.len() ==> relationship_column_valid(
                    *m,
                    #[trigger] m.models[a].columns[c],
                ),
        decreases m.models.len() - i,
    {
        let md = &m.models[i];
        let mut c: usize = 0;
        while c < md.columns.len()
            invariant
                i < m.models.len(),
                md == m.models[i as int],
                c <= md.columns.len(),
                forall|a: int, b: int|
                    0 <= a < i && 0 <= b < m.models[a].columns.len() ==> relationship_column_valid(
                        *m,
                        #[trigger] m.models[a].columns[b],
                    ),
                forall|b: int| 0 <= b < c ==> relationship_column_valid(*m, #[trigger] md.columns[b]),
            decreases md.columns.len() - c,
        {
            if !check_relationship_column(m, &md.columns[c]) {
                return false;
            }
            c = c + 1;
        }
        i = i + 1;
    }
    true
}


// ---- calculated columns ----

/// One step along a relationship: from a model, through one of its
/// relationship columns, to the relationship's other model.
#[derive(Clone, Copy, Debug, PartialEq, Eq, Structural)]
pub struct Hop {
    pub from_model: usize,
    pub column: usize,
    pub relationship: usize,
    pub to_model: usize,
}

/// Where a calculated column's value comes from: the hops walked from its own
/// model, and the physical column reached at the end.
#[derive(Clone, Debug)]
pub struct ResolvedPath {
    pub model: usize,
    pub column: usize,
    pub hops: Vec<Hop>,
    pub terminal_model: usize,
    pub terminal_column: usize,
}

/// `r` joins the model named `from` to the model named `to`.
pub open spec fn joins(r: Relationship, from: Seq<char>, to: Seq<char>) -> bool {
    (r.first_model@ == from && r.second_model@ == to) || (r.second_model@ == from
        && r.first_model@ == to)
}

pub open spec fn valid_hop(m: Manifest, h: Hop) -> bool {
    &&& h.from_model < m.models.len()
    &&& h.to_model < m.models.len()
    &&& h.relationship < m.relationships.len()
    &&& h.column < m.models[h.from_model as int].columns.len()
    &&& match m.models[h.from_model as int].columns[h.column as int].relationship {
        Some(n) => n@ == m.relationships[h.relationship as int].name@,
        None => false,
    }
    &&& joins(
        m.relationships[h.relationship as int],
        m.models[h.from_model as int].name@,
        m.models[h.to_model as int].name@,
    )
}

/// Each hop is valid and starts where the previous one ended.
pub open spec fn chain_from(m: Manifest, start: int, hops: Seq<Hop>) -> bool {
    forall|k: int|
        0 <= k < hops.len() ==> valid_hop(m, #[trigger] hops[k]) && hops[k].from_model == (if k
            == 0 {
            start
        } else {
            hops[k - 1].to_model as int
        })
}

pub open spec fn chain_end(start: int, hops: Seq<Hop>) -> int {
    if hops.len() == 0 {
        start
    } else {
        hops.last().to_model as int
    }
}

pub open spec fn is_calculated_at(m: Manifest, i: int, c: int) -> bool {
    0 <= i < m.models.len() && 0 <= c < m.models[i].columns.len()
        && m.models[i].columns[c].is_calculated
}

/// A path that starts at a calculated column, walks valid hops, and ends at a
/// physically backed column of the model it reaches.
pub open spec fn valid_path(m: Manifest, p: ResolvedPath) -> bool {
    &&& is_calculated_at(m, p.model as int, p.column as int)
    &&& p.hops.len() <= MAX_DEPTH
    &&& chain_from(m, p.model as int, p.hops@)
    &&& p.terminal_model == chain_end(p.model as int, p.hops@)
    &&& p.terminal_model < m.models.len()
    &&& p.terminal_column < m.models[p.terminal_model as int].columns.len()
    &&& m.models[p.terminal_model as int].columns[p.terminal_column as int].is_physical()
}

proof fn lemma_segments_nonempty(s: Seq<char>)
    ensures
        segments(s).len() >= 1,
    decreases s.len(),
{
    if s.len() > 0 {
        lemma_segments_nonempty(s.drop_last());
    }
}

fn seen(visited: &Vec<(usize, usize)>, i: usize, c: usize) -> (r: bool)
    ensures
        r == exists|k: int| 0 <= k < visited.len() && #[trigger] visited@[k] == (i, c),
{
    let mut k: usize = 0;
    while k < visited.len()
        invariant
            k <= visited.len(),
            forall|j: int| 0 <= j < k ==> #[trigger] visited@[j] != (i, c),
        decreases visited.len() - k,
    {
        if visited[k].0 == i && visited[k].1 == c {
            return true;
        }
        k = k + 1;
    }
    false
}

/// The model that relationship `r` reaches from the model named `here`.
pub open spec fn target_of(r: Relationship, here: Seq<char>) -> Option<Seq<char>> {
    if r.first_model@ == here {
        Some(r.second_model@)
    } else if r.second_model@ == here {
        Some(r.first_model@)
    } else {
        None
    }
}

/// The hop out of model `cur` through its relationship column named `name`.
/// Each name is looked up at its first occurrence.
pub open spec fn step(m: Manifest, cur: int, name: Seq<char>) -> Result<Hop, AnalysisError> {
    match position(column_names(m.models[cur]), name, 0) {
        None => Err(AnalysisError::MalformedExpression),
        Some(ci) => match m.models[cur].columns[ci].relationship {
            None => Err(AnalysisError::MalformedExpression),
            Some(rn) => match position(relationship_names(m), rn@, 0) {
                None => Err(AnalysisError::DanglingRelationshipReference),
                Some(ri) => match target_of(m.relationships[ri], m.models[cur].name@) {
                    None => Err(AnalysisError::DanglingRelationshipReference),
                    Some(t) => match position(model_names(m), t, 0) {
                        None => Err(AnalysisError::DanglingRelationshipReference),
                        Some(to) => Ok(
                            Hop {
                                from_model: cur as usize,
                                column: ci as usize,
                                relationship: ri as usize,
                                to_model: to as usize,
                            },
                        ),
                    },
                },
            },
        },
    }
}

/// Walks the non-final segments `segs[k..]` from model `cur`, appending one
/// hop per segment to `hops`; gives the model reached and all hops so far.
pub open spec fn walk(m: Manifest, cur: int, segs: Seq<Seq<char>>, k: int, hops: Seq<Hop>) -> Result<
    (int, Seq<Hop>),
    AnalysisError,
>
    decreases segs.len() - k,
{
    if k < 0 || k + 1 >= segs.len() {
        Ok((cur, hops))
    } else {
        match step(m, cur, segs[k]) {
            Err(e) => Err(e),
            Ok(h) => if hops.len() >= MAX_DEPTH {
                Err(AnalysisError::ExpressionTooDeep)
            } else {
                walk(m, h.to_model as int, segs, k + 1, hops.push(h))
            },
        }
    }
}

/// Resolves the expression of calculated column `cur_c` of model `cur_m`,
/// after `hops`, having passed through the calculated columns `visited`;
/// continues through each calculated column it ends at. Gives all hops and
/// the physical column reached.
pub open spec fn expand(
    m: Manifest,
    cur_m: int,
    cur_c: int,
    hops: Seq<Hop>,
    visited: Seq<(usize, usize)>,
) -> Result<(Seq<Hop>, int, int), AnalysisError>
    decreases MAX_DEPTH - visited.len(),
{
    if visited.len() > MAX_DEPTH {
        Err(AnalysisError::ExpressionTooDeep)
    } else {
        match m.models[cur_m].columns[cur_c].expression {
            None => Err(AnalysisError::MalformedExpression),
            Some(e) => {
                let segs = segments(e@);
                match walk(m, cur_m, segs, 0, hops) {
                    Err(x) => Err(x),
                    Ok(w) => {
                        let tm = w.0;
                        match position(column_names(m.models[tm]), segs.last(), 0) {
                            None => Err(AnalysisError::MalformedExpression),
                            Some(tc) => if m.models[tm].columns[tc].is_calculated {
                                if visited.contains((tm as usize, tc as usize)) {
                                    Err(AnalysisError::CyclicCalculatedColumn)
                                } else if visited.len() >= MAX_DEPTH {
                                    Err(AnalysisError::ExpressionTooDeep)
                                } else {
                                    expand(m, tm, tc, w.1, visited.push((tm as usize, tc as usize)))
                                }
                            } else if m.models[tm].columns[tc].relationship is Some {
                                Err(AnalysisError::MalformedExpression)
                            } else {
                                Ok((w.1, tm, tc))
                            },
                        }
                    },
                }
            },
        }
    }
}

/// What calculated column `c` of model `i` resolves to: its hops and the
/// physical column at their end, or the first error met on the way.
pub open spec fn resolution(m: Manifest, i: int, c: int) -> Result<(Seq<Hop>, int, int), AnalysisError> {
    expand(m, i, c, Seq::empty(), seq![(i as usize, c as usize)])
}

/// Follows the expression of calculated column `c` of model `i`, and of each
/// calculated column it reaches, until a physically backed column.
#[verifier::rlimit(100)]
pub fn resolve_column(m: &Manifest, i: usize, c: usize) -> (r: Result<ResolvedPath, AnalysisError>)
    requires
        is_calculated_at(*m, i as int, c as int),
    ensures
        match r {
            Ok(p) => p.model == i && p.column == c && valid_path(*m, p) && resolution(
                *m,
                i as int,
                c as int,
            ) == Ok::<(Seq<Hop>, int, int), AnalysisError>(
                (p.hops@, p.terminal_model as int, p.terminal_column as int),
            ),
            Err(e) => resolution(*m, i as int, c as int) == Err::<(Seq<Hop>, int, int), AnalysisError>(e),
        },
{
    let mut hops: Vec<Hop> = Vec::new();
    let mut visited: Vec<(usize, usize)> = Vec::new();
    visited.push((i, c));
    let mut cur_m: usize = i;
    let mut cur_c: usize = c;
    proof {
        assert(visited@ =~= seq![(i, c)]);
        assert(hops@ =~= Seq::<Hop>::empty());
    }
    loop
        invariant
            is_calculated_at(*m, i as int, c as int),
            is_calculated_at(*m, cur_m as int, cur_c as int),
            chain_from(*m, i as int, hops@),
            chain_end(i as int, hops@) == cur_m,
            hops.len() <= MAX_DEPTH,
            1 <= visited.len() <= MAX_DEPTH,
            resolution(*m, i as int, c as int) == expand(*m, cur_m as int, cur_c as int, hops@, visited@),
        decreases MAX_DEPTH - visited.len(),
    {
        let ghost cm0 = cur_m as int;
        let ghost cc0 = cur_c as int;
        let ghost hops0 = hops@;
        let expr = match &m.models[cur_m].columns[cur_c].expression {
            Some(e) => e,
            None => return Err(AnalysisError::MalformedExpression),
        };
        let segs = split_segments(expr.as_str());
        let ghost sv = segments(expr@);
        proof {
            lemma_segments_nonempty(expr@);
        }
        let mut k: usize = 0;
        while k + 1 < segs.len()
            invariant
                segs.len() >= 1,
                string_views(segs@) == sv,
                k < segs.len(),
                is_calculated_at(*m, i as int, c as int),
                cur_m < m.models.len(),
                chain_from(*m, i as int, hops@),
                chain_end(i as int, hops@) == cur_m,
                hops.len() <= MAX_DEPTH,
                walk(*m, cm0, sv, 0, hops0) == walk(*m, cur_m as int, sv, k as int, hops@),
                m.models[cm0].columns[cc0].expression == Some(*expr),
                sv == segments(expr@),
                1 <= visited.len() <= MAX_DEPTH,
                resolution(*m, i as int, c as int) == expand(*m, cm0, cc0, hops0, visited@),
            decreases segs.len() - k,
        {
            assert(segs@[k as int]@ == sv[k as int]);
            let ci = match find_column(&m.models[cur_m], &segs[k]) {
                Some(x) => x,
                None => {
                    assert(step(*m, cur_m as int, sv[k as int]) is Err);
                    assert(walk(*m, cur_m as int, sv, k as int, hops@) == Err::<(int, Seq<Hop>), AnalysisError>(AnalysisError::MalformedExpression));
                    return Err(AnalysisError::MalformedExpression);
                },
            };
            let rn = match &m.models[cur_m].columns[ci].relationship {
                Some(n) => n,
                None => {
                    assert(step(*m, cur_m as int, sv[k as int]) == Err::<Hop, AnalysisError>(AnalysisError::MalformedExpression));
                    return Err(AnalysisError::MalformedExpression);
                },
            };
            let ri = match find_relationship(m, rn) {
                Some(x) => x,
                None => {
                    assert(step(*m, cur_m as int, sv[k as int]) == Err::<Hop, AnalysisError>(AnalysisError::DanglingRelationshipReference));
                    return Err(AnalysisError::DanglingRelationshipReference);
                },
            };
            let rel = &m.relationships[ri];
            let here = &m.models[cur_m].name;
            let target = if rel.first_model == *here {
                &rel.second_model
            } else if rel.second_model == *here {
                &rel.first_model
            } else {
                assert(target_of(m.relationships[ri as int], m.models[cur_m as int].name@) is None);
                assert(step(*m, cur_m as int, sv[k as int]) == Err::<Hop, AnalysisError>(AnalysisError::DanglingRelationshipReference));
                return Err(AnalysisError::DanglingRelationshipReference);
            };
            let to = match find_model(m, target) {
                Some(x) => x,
                None => {
                    assert(step(*m, cur_m as int, sv[k as int]) == Err::<Hop, AnalysisError>(AnalysisError::DanglingRelationshipReference));
                    return Err(AnalysisError::DanglingRelationshipReference);
                },
            };
            let h = Hop { from_model: cur_m, column: ci, relationship: ri, to_model: to };
            assert(step(*m, cur_m as int, sv[k as int]) == Ok::<Hop, AnalysisError>(h));
            if hops.len() >= MAX_DEPTH {
                return Err(AnalysisError::ExpressionTooDeep);
            }
            assert(valid_hop(*m, h));
            let ghost before = hops@;
            hops.push(h);
            assert(hops@ == before.push(h));
            assert forall|j: int| 0 <= j < hops@.len() implies valid_hop(*m, #[trigger] hops@[j])
                && hops@[j].from_model == (if j == 0 {
                i as int
            } else {
                hops@[j - 1].to_model as int
            }) by {
                if j < before.len() {
                    assert(hops@[j] == before[j]);
                }
            }
            cur_m = to;
            k = k + 1;
        }
        assert(walk(*m, cm0, sv, 0, hops0) == Ok::<(int, Seq<Hop>), AnalysisError>((cur_m as int, hops@)));
        assert(segs@[segs.len() - 1]@ == sv.last());
        let tc = match find_column(&m.models[cur_m], &segs[segs.len() - 1]) {
            Some(x) => x,
            None => return Err(AnalysisError::MalformedExpression),
        };
        if m.models[cur_m].columns[tc].is_calculated {
            if seen(&visited, cur_m, tc) {
                assert(visited@.contains((cur_m, tc)));
                return Err(AnalysisError::CyclicCalculatedColumn);
            }
            if visited.len() >= MAX_DEPTH {
                return Err(AnalysisError::ExpressionTooDeep);
            }
            visited.push((cur_m, tc));
            cur_c = tc;
        } else if m.models[cur_m].columns[tc].relationship.is_some() {
            return Err(AnalysisError::MalformedExpression);
        } else {
            return Ok(
                ResolvedPath { model: i, column: c, hops, terminal_model: cur_m, terminal_column: tc },
            );
        }
    }
}

// ---- the analysed manifest ----

/// A primary key, where one is declared, names a column of the model that is
/// not calculated.
pub open spec fn primary_key_valid(md: Model) -> bool {
    match md.primary_key {
        None => true,
        Some(k) => match position(column_names(md), k@, 0) {
            Some(c) => !md.columns[c].is_calculated,
            None => false,
        },
    }
}

pub open spec fn primary_keys_valid(m: Manifest) -> bool {
    forall|i: int| 0 <= i < m.models.len() ==> primary_key_valid(#[trigger] m.models[i])
}

fn check_primary_keys(m: &Manifest) -> (r: bool)
    ensures
        r == primary_keys_valid(*m),
{
    let mut i: usize = 0;
    while i < m.models.len()
        invariant
            i <= m.models.len(),
            forall|k: int| 0 <= k < i ==> primary_key_valid(#[trigger] m.models[k]),
        decreases m.models.len() - i,
    {
        let md = &m.models[i];
        match &md.primary_key {
            None => {},
            Some(k) => match find_column(md, k) {
                Some(c) => {
                    if md.columns[c].is_calculated {
                        assert(!primary_key_valid(m.models[i as int]));
                        return false;
                    }
                },
                None => {
                    assert(!primary_key_valid(m.models[i as int]));
                    return false;
                },
            },
        }
        i = i + 1;
    }
    true
}

/// The first error that the manifest's relationships, names, bindings and
/// keys give, before any expression is read: relationship names, then
/// relationship endpoints, then model and column names, then the physical
/// bindings, then relationship columns, then primary keys.
pub open spec fn structural_error(m: Manifest, tables: Seq<PhysicalTable>) -> Option<AnalysisError> {
    if !distinct(relationship_names(m)) {
        Some(AnalysisError::DuplicateRelationship)
    } else if !endpoints_exist(m) {
        Some(AnalysisError::DanglingRelationshipReference)
    } else if names_error(m) is Some {
        names_error(m)
    } else if binding_error(m, tables) is Some {
        binding_error(m, tables)
    } else if !relationship_columns_valid(m) {
        Some(AnalysisError::DanglingRelationshipReference)
    } else if !primary_keys_valid(m) {
        Some(AnalysisError::InvalidPrimaryKey)
    } else {
        None
    }
}

pub open spec fn has_calculated_column(m: Manifest) -> bool {
    exists|i: int, c: int| is_calculated_at(m, i, c)
}

/// `p` is a valid path and is what its column's expression resolves to.
pub open spec fn path_resolved(m: Manifest, p: ResolvedPath) -> bool {
    &&& valid_path(m, p)
    &&& resolution(m, p.model as int, p.column as int) == Ok::<(Seq<Hop>, int, int), AnalysisError>(
        (p.hops@, p.terminal_model as int, p.terminal_column as int),
    )
}

/// Every calculated column before column `c` of model `i` resolves.
pub open spec fn resolved_before(m: Manifest, i: int, c: int) -> bool {
    forall|a: int, b: int|
        (a < i || (a == i && b < c)) && is_calculated_at(m, a, b) ==> (#[trigger] resolution(m, a, b)) is Ok
}

/// Every calculated column of the manifest resolves.
pub open spec fn all_resolve(m: Manifest) -> bool {
    forall|a: int, b: int| is_calculated_at(m, a, b) ==> (#[trigger] resolution(m, a, b)) is Ok
}

/// A manifest bound to physical schemas, checked, with a resolved path for
/// each calculated column.
#[derive(Clone, Debug)]
pub struct AnalyzedManifest {
    pub manifest: Manifest,
    pub physical_tables: Vec<PhysicalTable>,
    pub paths: Vec<ResolvedPath>,
}

impl AnalyzedManifest {
    pub open spec fn wf(&self) -> bool {
        &&& structural_error(self.manifest, self.physical_tables@) is None
        &&& forall|p: int| 0 <= p < self.paths.len() ==> path_resolved(self.manifest, #[trigger] self.paths[p])
        &&& forall|i: int, c: int|
            is_calculated_at(self.manifest, i, c) ==> exists|p: int|
                0 <= p < self.paths.len() && (#[trigger] self.paths[p]).model == i && self.paths[p].column
                    == c
    }

    /// Checks `manifest` against the physical schemas in `tables` and resolves
    /// every calculated column. All or nothing: either every check passes, or
    /// no analysed manifest exists.
    pub fn analyze(manifest: Manifest, tables: Vec<PhysicalTable>) -> (r: Result<
        AnalyzedManifest,
        AnalysisError,
    >)
        ensures
            match structural_error(manifest, tables@) {
                Some(e) => r == Err::<AnalyzedManifest, AnalysisError>(e),
                None => match r {
                    Ok(a) => all_resolve(manifest) && a.manifest == manifest && a.physical_tables
                        == tables && a.wf(),
                    Err(e) => exists|i: int, c: int|
                        is_calculated_at(manifest, i, c) && #[trigger] resolution(manifest, i, c)
                            == Err::<(Seq<Hop>, int, int), AnalysisError>(e) && resolved_before(
                            manifest,
                            i,
                            c,
                        ),
                },
            },
    {
        let names = collect_relationship_names(&manifest);
        assert(string_views(names@) =~= names@.map_values(|x: String| x@));
        if has_duplicate(&names) {
            return Err(AnalysisError::DuplicateRelationship);
        }
        if !check_endpoints(&manifest) {
            return Err(AnalysisError::DanglingRelationshipReference);
        }
        match check_names(&manifest) {
            Some(e) => return Err(e),
            None => {},
        }
        match check_binding(&manifest, &tables) {
            Some(e) => return Err(e),
            None => {},
        }
        if !check_relationship_columns(&manifest) {
            return Err(AnalysisError::DanglingRelationshipReference);
        }
        if !check_primary_keys(&manifest) {
            return Err(AnalysisError::InvalidPrimaryKey);
        }
        let mut paths: Vec<ResolvedPath> = Vec::new();
        let mut i: usize = 0;
        while i < manifest.models.len()
            invariant
                i <= manifest.models.len(),
                structural_error(manifest, tables@) is None,
                forall|p: int| 0 <= p < paths.len() ==> path_resolved(manifest, #[trigger] paths[p]),
                resolved_before(manifest, i as int, 0),
                forall|a: int, c: int|
                    a < i && is_calculated_at(manifest, a, c) ==> exists|p: int|
                        0 <= p < paths.len() && (#[trigger] paths[p]).model == a && paths[p].column
                            == c,
            decreases manifest.models.len() - i,
        {
            let mut c: usize = 0;
            while c < manifest.models[i].columns.len()
                invariant
                    i < manifest.models.len(),
                    structural_error(manifest, tables@) is None,
                    c <= manifest.models[i as int].columns.len(),
                    forall|p: int| 0 <= p < paths.len() ==> path_resolved(manifest, #[trigger] paths[p]),
                    resolved_before(manifest, i as int, c as int),
                    forall|a: int, b: int|
                        (a < i || (a == i && b < c)) && is_calculated_at(manifest, a, b) ==> exists|
                            p: int,
                        |
                            0 <= p < paths.len() && (#[trigger] paths[p]).model == a && paths[p].column
                                == b,
                decreases manifest.models[i as int].columns.len() - c,
            {
                if manifest.models[i].columns[c].is_calculated {
                    match resolve_column(&manifest, i, c) {
                        Ok(p) => {
                            let ghost before = paths@;
                            paths.push(p);
                            assert forall|a: int, b: int|
                                (a < i || (a == i && b < c + 1)) && is_calculated_at(
                                    manifest,
                                    a,
                                    b,
                                ) implies exists|q: int|
                                0 <= q < paths.len() && (#[trigger] paths[q]).model == a
                                    && paths[q].column == b by {
                                if a == i && b == c {
                                    assert(paths[before.len() as int] == p);
                                } else {
                                    let q = choose|q: int|
                                        0 <= q < before.len() && (#[trigger] before[q]).model == a
                                            && before[q].column == b;
                                    assert(paths[q] == before[q]);
                                }
                            }
                            assert forall|q: int| 0 <= q < paths.len() implies path_resolved(
                                manifest,
                                #[trigger] paths[q],
                            ) by {
                                if q < before.len() {
                                    assert(paths[q] == before[q]);
                                }
                            }
                        },
                        Err(e) => {
                            assert(is_calculated_at(manifest, i as int, c as int));
                            assert(resolution(manifest, i as int, c as int) == Err::<(Seq<Hop>, int, int), AnalysisError>(e));
                            return Err(e);
                        },
                    }
                }
                c = c + 1;
            }
            i = i + 1;
        }
        let ghost paths_view = paths@;
        let a = AnalyzedManifest { manifest, physical_tables: tables, paths };
        assert(structural_error(a.manifest, a.physical_tables@) is None);
        assert(forall|p: int| 0 <= p < a.paths.len() ==> path_resolved(a.manifest, #[trigger] a.paths[p]));
        assert(resolved_before(a.manifest, i as int, 0));
        assert forall|x: int, y: int| is_calculated_at(a.manifest, x, y) implies (#[trigger] resolution(a.manifest, x, y)) is Ok by {
            assert(x < i);
        }
        assert forall|x: int, y: int| is_calculated_at(a.manifest, x, y) implies exists|p: int|
            0 <= p < a.paths.len() && (#[trigger] a.paths[p]).model == x && a.paths[p].column
                == y by {
            assert(a.manifest == manifest);
            assert(is_calculated_at(manifest, x, y));
            assert(x < i);
            let q = choose|q: int|
                0 <= q < paths_view.len() && (#[trigger] paths_view[q]).model == x
                    && paths_view[q].column == y;
            assert(a.paths@[q] == paths_view[q]);
        }
        assert(a.wf());
        Ok(a)
    }
}

} // verus!
