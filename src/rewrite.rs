//! The two query-time passes. The analyze pass turns a scan of a model into an
//! annotated scan naming the columns and resolved paths it needs; the generate
//! pass turns that into physical scans, joins and projections.
use vstd::prelude::*;
use crate::analyzer::{AnalyzedManifest, Hop, ResolvedPath};
use crate::manifest::{Manifest, Model};
use crate::names::{column_names, find_column, find_model, model_names, position};

verus! {

/// Why one query could not be rewritten.
#[derive(Clone, Copy, Debug, PartialEq, Eq, Structural)]
pub enum RewriteError {
    UnsupportedFanOutRelationship,
    MissingRelationshipPath,
    AmbiguousColumnReference,
    UnknownColumn,
    NotAScalarColumn,
    UnanalyzedModelScan,
}

/// A scan of a model, with the columns the query reads from it, in order.
/// `path_of[k]` is the index of the resolved path of `columns[k]` when that
/// column is calculated.
#[derive(Clone, Debug)]
pub struct Annotation {
    pub model: usize,
    pub columns: Vec<usize>,
    pub path_of: Vec<Option<usize>>,
}

/// The scan nodes a query plan may hold before generation.
#[derive(Clone, Debug)]
pub enum LogicalPlan {
    /// A scan of a table by name, with the columns referenced above it.
    TableScan { table: String, columns: Vec<String> },
    /// A scan of a model that the analyze pass has annotated.
    ModelScan(Annotation),
}

/// One join of the generated plan: model `model`, reached across
/// relationship `relationship`.
#[derive(Clone, Debug)]
pub struct JoinNode {
    pub relationship: usize,
    pub model: usize,
    pub table: String,
    pub alias: String,
    pub condition: String,
}

/// One output column: `qualifier.column AS alias`.
#[derive(Clone, Debug)]
pub struct ProjectedColumn {
    pub qualifier: String,
    pub column: String,
    pub alias: String,
}

/// A plan over physical tables only: a scan, inner joins, a projection.
#[derive(Clone, Debug)]
pub struct PhysicalPlan {
    pub table: String,
    pub alias: String,
    pub joins: Vec<JoinNode>,
    pub projection: Vec<ProjectedColumn>,
}

pub open spec fn annotation_valid(am: AnalyzedManifest, a: Annotation) -> bool {
    let m = am.manifest;
    &&& a.model < m.models.len()
    &&& a.columns.len() == a.path_of.len()
    &&& forall|k: int|
        0 <= k < a.columns.len() ==> {
            let c = #[trigger] a.columns[k];
            let col = m.models[a.model as int].columns[c as int];
            &&& c < m.models[a.model as int].columns.len()
            &&& col.relationship is None
            &&& if col.is_calculated {
                match a.path_of[k] {
                    Some(p) => p < am.paths.len() && am.paths[p as int].model == a.model
                        && am.paths[p as int].column == c,
                    None => false,
                }
            } else {
                a.path_of[k] is None
            }
        }
}

/// The resolved path of the `k`-th column of `a`.
pub open spec fn path_at(am: AnalyzedManifest, a: Annotation, k: int) -> ResolvedPath {
    am.paths[a.path_of[k]->Some_0 as int]
}

/// The hops of the paths of the first `k` columns of `a`, in order.
pub open spec fn hops_upto(am: AnalyzedManifest, a: Annotation, k: int) -> Seq<Hop>
    decreases k,
{
    if k <= 0 {
        Seq::<Hop>::empty()
    } else {
        hops_upto(am, a, k - 1) + if a.path_of[k - 1] is Some {
            path_at(am, a, k - 1).hops@
        } else {
            Seq::<Hop>::empty()
        }
    }
}

/// Every hop that the requested columns need, column by column.
pub open spec fn required_hops(am: AnalyzedManifest, a: Annotation) -> Seq<Hop> {
    hops_upto(am, a, a.columns.len() as int)
}

/// Hop `h` goes from its relationship's first model to its second.
pub open spec fn hop_forward(m: Manifest, h: Hop) -> bool {
    m.relationships[h.relationship as int].first_model@ == m.models[h.from_model as int].name@
}

pub open spec fn hop_fans_out(m: Manifest, h: Hop) -> bool {
    m.relationships[h.relationship as int].join_type.spec_fans_out(hop_forward(m, h))
}

/// Some hop on a path of the query crosses a relationship that fans out.
pub open spec fn needs_fan_out(am: AnalyzedManifest, a: Annotation) -> bool {
    exists|i: int|
        0 <= i < required_hops(am, a).len() && hop_fans_out(am.manifest, #[trigger] required_hops(am, a)[i])
}

/// `j` joins in model `to`, across relationship `rel`, on its condition.
pub open spec fn join_for(m: Manifest, rel: int, to: int, j: JoinNode) -> bool {
    &&& j.table@ == m.models[to].table_reference@
    &&& j.alias@ == m.models[to].name@
    &&& j.condition@ == m.relationships[rel].condition@
}

/// What the `k`-th output column of the scan annotated by `a` is.
pub open spec fn projected_as(am: AnalyzedManifest, a: Annotation, k: int, pc: ProjectedColumn) -> bool {
    let m = am.manifest;
    let col = m.models[a.model as int].columns[a.columns[k] as int];
    &&& pc.alias@ == col.name@
    &&& if col.is_calculated {
        let p = path_at(am, a, k);
        &&& pc.qualifier@ == m.models[p.terminal_model as int].name@
        &&& pc.column@ == m.models[p.terminal_model as int].columns[p.terminal_column as int].name@
    } else {
        &&& pc.qualifier@ == m.models[a.model as int].name@
        &&& pc.column@ == col.name@
    }
}


pub open spec fn hop_key(h: Hop) -> (usize, usize) {
    (h.relationship, h.to_model)
}

pub open spec fn join_key(j: JoinNode) -> (usize, usize) {
    (j.relationship, j.model)
}

fn joined_before(joins: &Vec<JoinNode>, rel: usize, to: usize) -> (r: bool)
    ensures
        r == exists|j: int| 0 <= j < joins.len() && #[trigger] join_key(joins@[j]) == (rel, to),
{
    let mut j: usize = 0;
    while j < joins.len()
        invariant
            j <= joins.len(),
            forall|i: int| 0 <= i < j ==> #[trigger] join_key(joins@[i]) != (rel, to),
        decreases joins.len() - j,
    {
        if joins[j].relationship == rel && joins[j].model == to {
            assert(join_key(joins@[j as int]) == (rel, to));
            return true;
        }
        j = j + 1;
    }
    false
}

/// The (relationship, target model) pairs of `seen`, each kept at its first
/// occurrence, in order.
pub open spec fn distinct_keys(seen: Seq<Hop>) -> Seq<(usize, usize)>
    decreases seen.len(),
{
    if seen.len() == 0 {
        Seq::<(usize, usize)>::empty()
    } else {
        let d = distinct_keys(seen.drop_last());
        if d.contains(hop_key(seen.last())) {
            d
        } else {
            d.push(hop_key(seen.last()))
        }
    }
}

pub open spec fn join_keys(joins: Seq<JoinNode>) -> Seq<(usize, usize)> {
    joins.map_values(|j: JoinNode| join_key(j))
}

/// Each join reaches its model across its relationship, on that
/// relationship's condition.
pub open spec fn joins_well_formed(m: Manifest, joins: Seq<JoinNode>) -> bool {
    forall|j: int|
        0 <= j < joins.len() ==> join_for(
            m,
            joins[j].relationship as int,
            joins[j].model as int,
            #[trigger] joins[j],
        )
}

/// The joins are one per distinct (relationship, target model) pair of the
/// hops `seen`: none without a hop, no hop without a join.
pub open spec fn joins_cover(seen: Seq<Hop>, joins: Seq<JoinNode>) -> bool {
    &&& joins.len() <= seen.len()
    &&& forall|j: int|
        0 <= j < joins.len() ==> exists|i: int|
            0 <= i < seen.len() && hop_key(#[trigger] seen[i]) == join_key(#[trigger] joins[j])
    &&& forall|i: int|
        0 <= i < seen.len() ==> exists|j: int|
            0 <= j < joins.len() && hop_key(#[trigger] seen[i]) == join_key(#[trigger] joins[j])
    &&& forall|a: int, b: int|
        0 <= a < b < joins.len() ==> join_key(#[trigger] joins[a]) != join_key(#[trigger] joins[b])
}

/// `pp` is the plan of the scan annotated by `a`: the root model's table, one
/// output column per requested column in order, and one well-formed join per
/// distinct hop that the requested columns need.
pub open spec fn generated(am: AnalyzedManifest, a: Annotation, pp: PhysicalPlan) -> bool {
    let m = am.manifest;
    &&& pp.table@ == m.models[a.model as int].table_reference@
    &&& pp.alias@ == m.models[a.model as int].name@
    &&& pp.projection.len() == a.columns.len()
    &&& forall|k: int| 0 <= k < a.columns.len() ==> projected_as(am, a, k, #[trigger] pp.projection[k])
    &&& joins_well_formed(m, pp.joins@)
    &&& joins_cover(required_hops(am, a), pp.joins@)
    &&& join_keys(pp.joins@) == distinct_keys(required_hops(am, a))
}

/// Among the joins keyed by `keys`, one reaches model `root` again, or two
/// reach one model: each join is named after its model, so the names clash.
pub open spec fn keys_clash(root: usize, keys: Seq<(usize, usize)>) -> bool {
    ||| exists|i: int| 0 <= i < keys.len() && (#[trigger] keys[i]).1 == root
    ||| exists|i: int, j: int| 0 <= i < j < keys.len() && (#[trigger] keys[i]).1 == (#[trigger] keys[j]).1
}

/// The joins that the scan needs would not all have distinct names.
pub open spec fn aliases_clash(am: AnalyzedManifest, a: Annotation) -> bool {
    keys_clash(a.model, distinct_keys(required_hops(am, a)))
}

fn keys_clash_exec(root: usize, joins: &Vec<JoinNode>) -> (r: bool)
    ensures
        r == keys_clash(root, join_keys(joins@)),
{
    let ghost keys = join_keys(joins@);
    let mut i: usize = 0;
    while i < joins.len()
        invariant
            keys == join_keys(joins@),
            i <= joins.len(),
            forall|x: int| 0 <= x < i ==> (#[trigger] keys[x]).1 != root,
            forall|x: int, y: int| 0 <= x < i && x < y < keys.len() ==> (#[trigger] keys[x]).1 != (#[trigger] keys[y]).1,
        decreases joins.len() - i,
    {
        assert(keys[i as int] == join_key(joins@[i as int]));
        if joins[i].model == root {
            return true;
        }
        let mut j: usize = i + 1;
        while j < joins.len()
            invariant
                keys == join_keys(joins@),
                i < joins.len(),
                i + 1 <= j <= joins.len(),
                keys[i as int] == join_key(joins@[i as int]),
                forall|y: int| i < y < j ==> keys[i as int].1 != (#[trigger] keys[y]).1,
            decreases joins.len() - j,
        {
            assert(keys[j as int] == join_key(joins@[j as int]));
            if joins[i].model == joins[j].model {
                return true;
            }
            j = j + 1;
        }
        i = i + 1;
    }
    false
}

/// Builds the physical plan of one annotated scan: the root model's table,
/// one inner join per distinct hop on the paths of its calculated columns,
/// and one output column per requested column, in order. Joins come in the
/// order in which their hops are first needed. Each join is named after the
/// model it reaches, so a plan whose joins would share a name, or take the
/// root's, is refused as ambiguous.
#[verifier::rlimit(100)]
pub fn generate_scan(am: &AnalyzedManifest, a: &Annotation) -> (r: Result<PhysicalPlan, RewriteError>)
    requires
        am.wf(),
        annotation_valid(*am, *a),
    ensures
        r is Err <==> needs_fan_out(*am, *a) || aliases_clash(*am, *a),
        needs_fan_out(*am, *a) ==> r == Err::<PhysicalPlan, RewriteError>(
            RewriteError::UnsupportedFanOutRelationship,
        ),
        !needs_fan_out(*am, *a) && aliases_clash(*am, *a) ==> r == Err::<PhysicalPlan, RewriteError>(
            RewriteError::AmbiguousColumnReference,
        ),
        r matches Ok(pp) ==> generated(*am, *a, pp),
{
    let m = &am.manifest;
    let root = &m.models[a.model];
    let mut joins: Vec<JoinNode> = Vec::new();
    let mut projection: Vec<ProjectedColumn> = Vec::new();
    let ghost mut seen: Seq<Hop> = Seq::empty();
    assert(join_keys(joins@) =~= distinct_keys(seen));
    let mut k: usize = 0;
    while k < a.columns.len()
        invariant
            am.wf(),
            annotation_valid(*am, *a),
            m == am.manifest,
            root == m.models[a.model as int],
            k <= a.columns.len(),
            seen == hops_upto(*am, *a, k as int),
            projection.len() == k,
            forall|q: int| 0 <= q < k ==> projected_as(*am, *a, q, #[trigger] projection[q]),
            joins_well_formed(*m, joins@),
            joins_cover(seen, joins@),
            join_keys(joins@) == distinct_keys(seen),
            forall|i: int| 0 <= i < seen.len() ==> !hop_fans_out(*m, #[trigger] seen[i]),
        decreases a.columns.len() - k,
    {
        let ci = a.columns[k];
        let col = &root.columns[ci];
        if col.is_calculated {
            let p = match a.path_of[k] {
                Some(p) => p,
                None => return Err(RewriteError::MissingRelationshipPath),
            };
            let path = &am.paths[p];
            assert(path == path_at(*am, *a, k as int));
            assert(crate::analyzer::valid_path(*m, *path));
            let ghost base = seen;
            let ok = append_path_joins(m, path, &mut joins, Ghost(base));
            if !ok {
                proof {
                    let x = choose|x: int|
                        0 <= x < path.hops.len() && hop_fans_out(*m, #[trigger] path.hops@[x]);
                    lemma_fan_out_found(*am, *a, k as int, x);
                }
                return Err(RewriteError::UnsupportedFanOutRelationship);
            }
            proof {
                seen = base + path.hops@;
                assert(seen == hops_upto(*am, *a, k as int + 1));
                assert forall|i: int| 0 <= i < seen.len() implies !hop_fans_out(*m, #[trigger] seen[i]) by {
                    if i >= base.len() {
                        assert(seen[i] == path.hops@[i - base.len()]);
                    } else {
                        assert(seen[i] == base[i]);
                    }
                }
            }
            let tm = &m.models[path.terminal_model];
            let pc = ProjectedColumn {
                qualifier: tm.name.clone(),
                column: tm.columns[path.terminal_column].name.clone(),
                alias: col.name.clone(),
            };
            let ghost old_projection = projection@;
            projection.push(pc);
            assert forall|q: int| 0 <= q < k + 1 implies projected_as(
                *am,
                *a,
                q,
                #[trigger] projection[q],
            ) by {
                if q < k {
                    assert(projection[q] == old_projection[q]);
                }
            }
        } else {
            let pc = ProjectedColumn {
                qualifier: root.name.clone(),
                column: col.name.clone(),
                alias: col.name.clone(),
            };
            let ghost old_projection = projection@;
            projection.push(pc);
            assert forall|q: int| 0 <= q < k + 1 implies projected_as(
                *am,
                *a,
                q,
                #[trigger] projection[q],
            ) by {
                if q < k {
                    assert(projection[q] == old_projection[q]);
                }
            }
            assert(seen =~= hops_upto(*am, *a, k as int + 1));
        }
        k = k + 1;
    }
    assert(!needs_fan_out(*am, *a));
    if keys_clash_exec(a.model, &joins) {
        return Err(RewriteError::AmbiguousColumnReference);
    }
    Ok(
        PhysicalPlan {
            table: root.table_reference.clone(),
            alias: root.name.clone(),
            joins,
            projection,
        },
    )
}

proof fn lemma_keys_push(seen: Seq<Hop>, joins: Seq<JoinNode>, h: Hop)
    requires
        join_keys(joins) == distinct_keys(seen),
    ensures
        distinct_keys(seen.push(h)) == if exists|j: int|
            0 <= j < joins.len() && #[trigger] join_key(joins[j]) == hop_key(h) {
            distinct_keys(seen)
        } else {
            distinct_keys(seen).push(hop_key(h))
        },
{
    assert(seen.push(h).drop_last() =~= seen);
    if join_keys(joins).contains(hop_key(h)) {
        let j = choose|j: int| 0 <= j < join_keys(joins).len() && join_keys(joins)[j] == hop_key(h);
        assert(join_key(joins[j]) == hop_key(h));
    }
    if exists|j: int| 0 <= j < joins.len() && #[trigger] join_key(joins[j]) == hop_key(h) {
        let j = choose|j: int| 0 <= j < joins.len() && #[trigger] join_key(joins[j]) == hop_key(h);
        assert(join_keys(joins)[j] == hop_key(h));
    }
}

proof fn lemma_keys_append(joins: Seq<JoinNode>, jn: JoinNode)
    ensures
        join_keys(joins.push(jn)) == join_keys(joins).push(join_key(jn)),
{
    assert(join_keys(joins.push(jn)) =~= join_keys(joins).push(join_key(jn)));
}

#[verifier::rlimit(100)]
/// Appends a join for each hop of `path` not joined yet, or reports that
/// some hop fans out.
fn append_path_joins(
    m: &Manifest,
    path: &ResolvedPath,
    joins: &mut Vec<JoinNode>,
    seen: Ghost<Seq<Hop>>,
) -> (ok: bool)
    requires
        crate::analyzer::valid_path(*m, *path),
        joins_well_formed(*m, old(joins)@),
        joins_cover(seen@, old(joins)@),
        join_keys(old(joins)@) == distinct_keys(seen@),
    ensures
        ok ==> joins_well_formed(*m, final(joins)@) && joins_cover(seen@ + path.hops@, final(joins)@)
            && join_keys(final(joins)@) == distinct_keys(seen@ + path.hops@)
            && forall|x: int| 0 <= x < path.hops.len() ==> !hop_fans_out(*m, #[trigger] path.hops@[x]),
        !ok ==> exists|x: int| 0 <= x < path.hops.len() && hop_fans_out(*m, #[trigger] path.hops@[x]),
{
    let mut x: usize = 0;
    while x < path.hops.len()
        invariant
            crate::analyzer::valid_path(*m, *path),
            x <= path.hops.len(),
            joins_well_formed(*m, joins@),
            joins_cover(seen@ + path.hops@.subrange(0, x as int), joins@),
            join_keys(joins@) == distinct_keys(seen@ + path.hops@.subrange(0, x as int)),
            forall|y: int| 0 <= y < x ==> !hop_fans_out(*m, #[trigger] path.hops@[y]),
        decreases path.hops.len() - x,
    {
        let h = path.hops[x];
        assert(crate::analyzer::valid_hop(*m, path.hops@[x as int]));
        let rel = &m.relationships[h.relationship];
        let forward = rel.first_model == m.models[h.from_model].name;
        if rel.join_type.fans_out(forward) {
            assert(hop_fans_out(*m, path.hops@[x as int]));
            return false;
        }
        let ghost old_seen = seen@ + path.hops@.subrange(0, x as int);
        let ghost old_joins = joins@;
        assert(seen@ + path.hops@.subrange(0, x as int + 1) =~= old_seen.push(h));
        proof {
            lemma_keys_push(old_seen, old_joins, h);
        }
        if !joined_before(joins, h.relationship, h.to_model) {
            let target = &m.models[h.to_model];
            let jn = JoinNode {
                relationship: h.relationship,
                model: h.to_model,
                table: target.table_reference.clone(),
                alias: target.name.clone(),
                condition: rel.condition.clone(),
            };
            joins.push(jn);
            assert forall|j: int| 0 <= j < joins.len() implies join_for(
                *m,
                joins[j].relationship as int,
                joins[j].model as int,
                #[trigger] joins[j],
            ) by {
                if j < old_joins.len() {
                    assert(joins[j] == old_joins[j]);
                }
            }
            proof {
                lemma_cover_push_both(old_seen, old_joins, h, jn);
                lemma_keys_append(old_joins, jn);
            }
        } else {
            proof {
                let j = choose|j: int|
                    0 <= j < joins.len() && #[trigger] join_key(joins@[j]) == (h.relationship, h.to_model);
                lemma_cover_push_hop(old_seen, joins@, h, j);
            }
        }
        x = x + 1;
    }
    assert(path.hops@.subrange(0, x as int) =~= path.hops@);
    true
}

fn find_path(am: &AnalyzedManifest, i: usize, c: usize) -> (r: Option<usize>)
    ensures
        r matches Some(p) ==> p < am.paths.len() && am.paths[p as int].model == i
            && am.paths[p as int].column == c,
        r is None ==> forall|p: int|
            0 <= p < am.paths.len() ==> !(#[trigger] am.paths[p].model == i && am.paths[p].column == c),
{
    let mut p: usize = 0;
    while p < am.paths.len()
        invariant
            p <= am.paths.len(),
            forall|q: int|
                0 <= q < p ==> !(#[trigger] am.paths[q].model == i && am.paths[q].column == c),
        decreases am.paths.len() - p,
    {
        if am.paths[p].model == i && am.paths[p].column == c {
            return Some(p);
        }
        p = p + 1;
    }
    None
}

/// The column `name` of `md` exists and is not a relationship column.
pub open spec fn column_readable(md: Model, name: Seq<char>) -> bool {
    match position(column_names(md), name, 0) {
        Some(ci) => md.columns[ci].relationship is None,
        None => false,
    }
}

/// Why column `name` of `md` cannot be read.
pub open spec fn column_error(md: Model, name: Seq<char>) -> RewriteError {
    if position(column_names(md), name, 0) is None {
        RewriteError::UnknownColumn
    } else {
        RewriteError::NotAScalarColumn
    }
}

/// `a` annotates the scan of model `mi` that reads `columns`, in order.
pub open spec fn annotates(am: AnalyzedManifest, a: Annotation, mi: int, columns: Seq<String>) -> bool {
    &&& annotation_valid(am, a)
    &&& a.model == mi
    &&& a.columns.len() == columns.len()
    &&& forall|k: int|
        0 <= k < columns.len() ==> position(
            column_names(am.manifest.models[mi]),
            columns[k]@,
            0,
        ) == Some(#[trigger] a.columns[k] as int)
}

/// The outcome of the analyze pass on a scan of model `mi` reading `columns`:
/// an annotation when every column is readable, else the error of the first
/// column that is not.
pub open spec fn annotation_outcome(
    am: AnalyzedManifest,
    mi: int,
    columns: Seq<String>,
    r: Result<Annotation, RewriteError>,
) -> bool {
    let md = am.manifest.models[mi];
    match r {
        Ok(a) => annotates(am, a, mi, columns) && forall|k: int|
            0 <= k < columns.len() ==> column_readable(md, (#[trigger] columns[k])@),
        Err(e) => exists|k: int|
            0 <= k < columns.len() && !column_readable(md, (#[trigger] columns[k])@) && e
                == column_error(md, columns[k]@) && forall|q: int|
                0 <= q < k ==> column_readable(md, (#[trigger] columns[q])@),
    }
}

/// The analyze pass on one scan: a scan of a model becomes an annotated scan
/// of the columns it reads; a scan of anything else is left as it is
/// (`Ok(None)`).
pub fn annotate(am: &AnalyzedManifest, table: &String, columns: &Vec<String>) -> (r: Result<
    Option<Annotation>,
    RewriteError,
>)
    requires
        am.wf(),
    ensures
        position(model_names(am.manifest), table@, 0) matches Some(mi) ==> match r {
            Ok(Some(a)) => annotation_outcome(*am, mi, columns@, Ok(a)),
            Ok(None) => false,
            Err(e) => annotation_outcome(*am, mi, columns@, Err(e)),
        },
        position(model_names(am.manifest), table@, 0) is None ==> r == Ok::<
            Option<Annotation>,
            RewriteError,
        >(None),
{
    let m = &am.manifest;
    let mi = match find_model(m, table) {
        Some(i) => i,
        None => return Ok(None),
    };
    let md = &m.models[mi];
    let mut cols: Vec<usize> = Vec::new();
    let mut path_of: Vec<Option<usize>> = Vec::new();
    let mut k: usize = 0;
    while k < columns.len()
        invariant
            am.wf(),
            m == am.manifest,
            mi < m.models.len(),
            position(model_names(*m), table@, 0) == Some(mi as int),
            md == m.models[mi as int],
            k <= columns.len(),
            cols.len() == k,
            path_of.len() == k,
            forall|q: int|
                0 <= q < k ==> position(column_names(*md), columns@[q]@, 0) == Some(
                    #[trigger] cols@[q] as int,
                ),
            forall|q: int| 0 <= q < k ==> column_readable(*md, (#[trigger] columns@[q])@),
            annotation_valid(*am, Annotation { model: mi, columns: cols, path_of }),
        decreases columns.len() - k,
    {
        let ci = match find_column(md, &columns[k]) {
            Some(c) => c,
            None => {
                assert(!column_readable(*md, columns@[k as int]@));
                assert(column_error(*md, columns@[k as int]@) == RewriteError::UnknownColumn);
                assert(annotation_outcome(*am, mi as int, columns@, Err(RewriteError::UnknownColumn)));
                return Err(RewriteError::UnknownColumn);
            },
        };
        let col = &md.columns[ci];
        if col.relationship.is_some() {
            assert(!column_readable(*md, columns@[k as int]@));
            assert(column_error(*md, columns@[k as int]@) == RewriteError::NotAScalarColumn);
            assert(annotation_outcome(*am, mi as int, columns@, Err(RewriteError::NotAScalarColumn)));
            return Err(RewriteError::NotAScalarColumn);
        }
        let po = if col.is_calculated {
            assert(crate::analyzer::is_calculated_at(*m, mi as int, ci as int));
            match find_path(am, mi, ci) {
                Some(p) => Some(p),
                None => {
                    assert(exists|p: int|
                        0 <= p < am.paths.len() && (#[trigger] am.paths[p]).model == mi
                            && am.paths[p].column == ci);
                    return Err(RewriteError::UnknownColumn);
                },
            }
        } else {
            None
        };
        let ghost old_cols = cols@;
        let ghost old_path_of = path_of@;
        cols.push(ci);
        path_of.push(po);
        assert forall|q: int| 0 <= q < k + 1 implies position(column_names(*md), columns@[q]@, 0) == Some(
            #[trigger] cols@[q] as int,
        ) by {
            if q < k {
                assert(cols@[q] == old_cols[q]);
            }
        }
        assert forall|q: int| 0 <= q < cols.len() implies {
            let c = #[trigger] cols@[q];
            let col = m.models[mi as int].columns[c as int];
            &&& c < m.models[mi as int].columns.len()
            &&& col.relationship is None
            &&& if col.is_calculated {
                match path_of@[q] {
                    Some(p) => p < am.paths.len() && am.paths[p as int].model == mi
                        && am.paths[p as int].column == c,
                    None => false,
                }
            } else {
                path_of@[q] is None
            }
        } by {
            if q < k {
                assert(cols@[q] == old_cols[q]);
                assert(path_of@[q] == old_path_of[q]);
            }
        }
        k = k + 1;
    }
    let a = Annotation { model: mi, columns: cols, path_of };
    assert(annotates(*am, a, mi as int, columns@));
    Ok(Some(a))
}

/// The analyze pass: a scan of a model becomes its annotated scan; a scan of
/// anything else, and a scan already annotated, are returned as they are.
pub fn analyze_pass(am: &AnalyzedManifest, plan: LogicalPlan) -> (r: Result<LogicalPlan, RewriteError>)
    requires
        am.wf(),
    ensures
        plan is ModelScan ==> r == Ok::<LogicalPlan, RewriteError>(plan),
        plan matches LogicalPlan::TableScan { table, columns } ==> match position(
            model_names(am.manifest),
            table@,
            0,
        ) {
            None => r == Ok::<LogicalPlan, RewriteError>(plan),
            Some(mi) => match r {
                Ok(LogicalPlan::ModelScan(a)) => annotation_outcome(*am, mi, columns@, Ok(a)),
                Ok(LogicalPlan::TableScan { .. }) => false,
                Err(e) => annotation_outcome(*am, mi, columns@, Err(e)),
            },
        },
{
    match plan {
        LogicalPlan::TableScan { table, columns } => match annotate(am, &table, &columns) {
            Ok(Some(a)) => Ok(LogicalPlan::ModelScan(a)),
            Ok(None) => Ok(LogicalPlan::TableScan { table, columns }),
            Err(e) => Err(e),
        },
        LogicalPlan::ModelScan(a) => Ok(LogicalPlan::ModelScan(a)),
    }
}

/// The generate pass: an annotated scan becomes its physical plan; a scan of
/// a physical table reads that table's columns directly. A scan of a model
/// that the analyze pass has not annotated is refused.
pub fn generate_pass(am: &AnalyzedManifest, plan: &LogicalPlan) -> (r: Result<PhysicalPlan, RewriteError>)
    requires
        am.wf(),
        *plan matches LogicalPlan::ModelScan(a) ==> annotation_valid(*am, a),
    ensures
        *plan matches LogicalPlan::ModelScan(a) ==> {
            &&& r is Err <==> needs_fan_out(*am, a) || aliases_clash(*am, a)
            &&& needs_fan_out(*am, a) ==> r == Err::<PhysicalPlan, RewriteError>(
                RewriteError::UnsupportedFanOutRelationship,
            )
            &&& !needs_fan_out(*am, a) && aliases_clash(*am, a) ==> r == Err::<
                PhysicalPlan,
                RewriteError,
            >(RewriteError::AmbiguousColumnReference)
            &&& r matches Ok(pp) ==> generated(*am, a, pp)
        },
        *plan matches LogicalPlan::TableScan { table, columns } ==> if position(
            model_names(am.manifest),
            table@,
            0,
        ) is Some {
            r == Err::<PhysicalPlan, RewriteError>(RewriteError::UnanalyzedModelScan)
        } else {
            r matches Ok(pp) && pp.table@ == table@ && pp.alias@ == table@ && pp.joins.len() == 0
                && pp.projection.len() == columns.len() && forall|k: int|
                0 <= k < columns.len() ==> (#[trigger] pp.projection[k]).qualifier@ == table@
                    && pp.projection[k].column@ == columns[k]@ && pp.projection[k].alias@
                    == columns[k]@
        },
{
    match plan {
        LogicalPlan::ModelScan(a) => generate_scan(am, a),
        LogicalPlan::TableScan { table, columns } => {
            if find_model(&am.manifest, table).is_some() {
                return Err(RewriteError::UnanalyzedModelScan);
            }
            let mut projection: Vec<ProjectedColumn> = Vec::new();
            let mut k: usize = 0;
            while k < columns.len()
                invariant
                    k <= columns.len(),
                    projection.len() == k,
                    forall|q: int|
                        0 <= q < k ==> (#[trigger] projection[q]).qualifier@ == table@
                            && projection[q].column@ == columns[q]@ && projection[q].alias@
                            == columns[q]@,
                decreases columns.len() - k,
            {
                let pc = ProjectedColumn {
                    qualifier: table.clone(),
                    column: columns[k].clone(),
                    alias: columns[k].clone(),
                };
                let ghost old = projection@;
                projection.push(pc);
                assert forall|q: int| 0 <= q < k + 1 implies (#[trigger] projection[q]).qualifier@
                    == table@ && projection[q].column@ == columns[q]@ && projection[q].alias@
                    == columns[q]@ by {
                    if q < k {
                        assert(projection[q] == old[q]);
                    }
                }
                k = k + 1;
            }
            Ok(
                PhysicalPlan {
                    table: table.clone(),
                    alias: table.clone(),
                    joins: Vec::new(),
                    projection,
                },
            )
        },
    }
}

proof fn lemma_hops_upto_prefix(am: AnalyzedManifest, a: Annotation, k: int, n: int)
    requires
        0 <= k <= n,
    ensures
        hops_upto(am, a, n).len() >= hops_upto(am, a, k).len(),
        forall|i: int|
            0 <= i < hops_upto(am, a, k).len() ==> #[trigger] hops_upto(am, a, n)[i] == hops_upto(am, a, k)[i],
    decreases n - k,
{
    if k < n {
        lemma_hops_upto_prefix(am, a, k, n - 1);
    }
}

proof fn lemma_fan_out_found(am: AnalyzedManifest, a: Annotation, k: int, x: int)
    requires
        0 <= k < a.columns.len(),
        a.path_of[k] is Some,
        0 <= x < path_at(am, a, k).hops.len(),
        hop_fans_out(am.manifest, path_at(am, a, k).hops[x]),
    ensures
        needs_fan_out(am, a),
{
    let i = hops_upto(am, a, k).len() + x;
    assert(hops_upto(am, a, k + 1)[i] == path_at(am, a, k).hops[x]);
    lemma_hops_upto_prefix(am, a, k + 1, a.columns.len() as int);
    assert(required_hops(am, a)[i] == path_at(am, a, k).hops[x]);
}

proof fn lemma_cover_push_both(seen: Seq<Hop>, joins: Seq<JoinNode>, h: Hop, jn: JoinNode)
    requires
        joins_cover(seen, joins),
        join_key(jn) == hop_key(h),
        forall|j: int| 0 <= j < joins.len() ==> #[trigger] join_key(joins[j]) != hop_key(h),
    ensures
        joins_cover(seen.push(h), joins.push(jn)),
{
    let s2 = seen.push(h);
    let j2 = joins.push(jn);
    assert forall|j: int| 0 <= j < j2.len() implies exists|i: int|
        0 <= i < s2.len() && hop_key(#[trigger] s2[i]) == join_key(#[trigger] j2[j]) by {
        if j < joins.len() {
            let i = choose|i: int|
                0 <= i < seen.len() && hop_key(#[trigger] seen[i]) == join_key(#[trigger] joins[j]);
            assert(s2[i] == seen[i] && j2[j] == joins[j]);
        } else {
            assert(s2[seen.len() as int] == h);
        }
    }
    assert forall|i: int| 0 <= i < s2.len() implies exists|j: int|
        0 <= j < j2.len() && hop_key(#[trigger] s2[i]) == join_key(#[trigger] j2[j]) by {
        if i < seen.len() {
            let j = choose|j: int|
                0 <= j < joins.len() && hop_key(#[trigger] seen[i]) == join_key(#[trigger] joins[j]);
            assert(s2[i] == seen[i] && j2[j] == joins[j]);
        } else {
            assert(j2[joins.len() as int] == jn);
        }
    }
    assert forall|a: int, b: int| 0 <= a < b < j2.len() implies join_key(#[trigger] j2[a]) != join_key(
        #[trigger] j2[b],
    ) by {
        assert(j2[a] == joins[a]);
        if b < joins.len() {
            assert(j2[b] == joins[b]);
        }
    }
}

proof fn lemma_cover_push_hop(seen: Seq<Hop>, joins: Seq<JoinNode>, h: Hop, j0: int)
    requires
        joins_cover(seen, joins),
        0 <= j0 < joins.len(),
        join_key(joins[j0]) == hop_key(h),
    ensures
        joins_cover(seen.push(h), joins),
{
    let s2 = seen.push(h);
    assert forall|j: int| 0 <= j < joins.len() implies exists|i: int|
        0 <= i < s2.len() && hop_key(#[trigger] s2[i]) == join_key(#[trigger] joins[j]) by {
        let i = choose|i: int|
            0 <= i < seen.len() && hop_key(#[trigger] seen[i]) == join_key(#[trigger] joins[j]);
        assert(s2[i] == seen[i]);
    }
    assert forall|i: int| 0 <= i < s2.len() implies exists|j: int|
        0 <= j < joins.len() && hop_key(#[trigger] s2[i]) == join_key(#[trigger] joins[j]) by {
        if i < seen.len() {
            let j = choose|j: int|
                0 <= j < joins.len() && hop_key(#[trigger] seen[i]) == join_key(#[trigger] joins[j]);
            assert(s2[i] == seen[i]);
        } else {
            assert(s2[i] == h);
            assert(hop_key(s2[i]) == join_key(joins[j0]));
        }
    }
}

} // verus!
