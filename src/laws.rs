//! Properties that relate the analyzer's and the passes' contracts.
use vstd::prelude::*;
use crate::analyzer::{
    endpoints_exist, is_calculated_at, resolution, structural_error, walk, AnalysisError,
    AnalyzedManifest, Hop, PhysicalTable,
};
use crate::expression::segments;
use crate::manifest::Manifest;
use crate::names::{column_names, distinct, position, relationship_names};
use crate::rewrite::{
    aliases_clash, annotation_valid, distinct_keys, generated, hops_upto, join_key, join_keys,
    needs_fan_out, projected_as, required_hops, Annotation, JoinNode, PhysicalPlan,
};

verus! {

/// Two relationships with one name are rejected as a duplicate relationship,
/// before anything else is checked; the analyzer then returns that error and
/// no analysed manifest.
pub proof fn law_duplicate_relationship_rejected(m: Manifest, tables: Seq<PhysicalTable>)
    requires
        !distinct(relationship_names(m)),
    ensures
        structural_error(m, tables) == Some(AnalysisError::DuplicateRelationship),
{
}

/// A relationship that names a model the manifest lacks is rejected as a
/// dangling reference, unless relationship names already clash (a duplicate
/// relationship is reported first); the analyzer then returns that error and
/// no analysed manifest.
pub proof fn law_dangling_relationship_rejected(m: Manifest, tables: Seq<PhysicalTable>)
    requires
        distinct(relationship_names(m)),
        !endpoints_exist(m),
    ensures
        structural_error(m, tables) == Some(AnalysisError::DanglingRelationshipReference),
{
}

/// A query that reads only physically backed columns of one model needs no
/// hop: generating its plan cannot fail, and any plan generated for it is one
/// scan of the model's table with no join, each column read from that table
/// under its own name.
pub proof fn law_physical_columns_need_no_join(am: AnalyzedManifest, a: Annotation, pp: PhysicalPlan)
    requires
        annotation_valid(am, a),
        forall|k: int| 0 <= k < a.columns.len() ==> (#[trigger] a.path_of[k]) is None,
        generated(am, a, pp),
    ensures
        !needs_fan_out(am, a),
        !aliases_clash(am, a),
        pp.table@ == am.manifest.models[a.model as int].table_reference@,
        pp.joins.len() == 0,
        forall|k: int|
            0 <= k < a.columns.len() ==> (#[trigger] pp.projection[k]).qualifier@
                == am.manifest.models[a.model as int].name@ && pp.projection[k].column@
                == am.manifest.models[a.model as int].columns[a.columns[k] as int].name@,
{
    lemma_no_paths_no_hops(am, a, a.columns.len() as int);
    assert(distinct_keys(required_hops(am, a)) =~= Seq::<(usize, usize)>::empty());
    assert forall|k: int| 0 <= k < a.columns.len() implies (#[trigger] pp.projection[k]).qualifier@
        == am.manifest.models[a.model as int].name@ && pp.projection[k].column@
        == am.manifest.models[a.model as int].columns[a.columns[k] as int].name@ by {
        assert(projected_as(am, a, k, pp.projection[k]));
        assert(a.path_of[k] is None);
    }
}

/// Two joins of the same model across the same relationship, alike in
/// every string they carry.
pub open spec fn same_join(x: JoinNode, y: JoinNode) -> bool {
    &&& join_key(x) == join_key(y)
    &&& x.table@ == y.table@
    &&& x.alias@ == y.alias@
    &&& x.condition@ == y.condition@
}

/// Generation is deterministic: two plans generated from one analysed
/// manifest and one annotated scan read the same table, output the same
/// columns in the same order, and hold the same joins in the same order.
pub proof fn law_generation_is_deterministic(
    am: AnalyzedManifest,
    a: Annotation,
    p1: PhysicalPlan,
    p2: PhysicalPlan,
)
    requires
        generated(am, a, p1),
        generated(am, a, p2),
    ensures
        p1.table@ == p2.table@,
        p1.alias@ == p2.alias@,
        p1.projection.len() == p2.projection.len(),
        forall|k: int|
            0 <= k < p1.projection.len() ==> (#[trigger] p1.projection[k]).qualifier@
                == p2.projection[k].qualifier@ && p1.projection[k].column@
                == p2.projection[k].column@ && p1.projection[k].alias@ == p2.projection[k].alias@,
        p1.joins.len() == p2.joins.len(),
        forall|j: int| 0 <= j < p1.joins.len() ==> same_join(#[trigger] p1.joins[j], p2.joins[j]),
{
    assert(join_keys(p1.joins@) == join_keys(p2.joins@));
    assert forall|j: int| 0 <= j < p1.joins.len() implies same_join(#[trigger] p1.joins[j], p2.joins[j]) by {
        assert(join_keys(p1.joins@)[j] == join_key(p1.joins[j]));
        assert(join_keys(p2.joins@)[j] == join_key(p2.joins[j]));
    }
}

/// Two calculated columns of one model whose expressions name each other
/// form a cycle: resolving either fails with a cyclic-column error, so
/// analysis of a sound manifest holding them fails too (it returns the
/// first resolution error, and every earlier calculated column resolves or
/// the error comes sooner).
pub proof fn law_mutual_reference_is_cyclic(m: Manifest, i: int, a: int, b: int)
    requires
        is_calculated_at(m, i, a),
        is_calculated_at(m, i, b),
        a != b,
        m.models[i].columns[a].expression matches Some(e) && segments(e@) == seq![
            m.models[i].columns[b].name@,
        ],
        m.models[i].columns[b].expression matches Some(e) && segments(e@) == seq![
            m.models[i].columns[a].name@,
        ],
        position(column_names(m.models[i]), m.models[i].columns[a].name@, 0) == Some(a),
        position(column_names(m.models[i]), m.models[i].columns[b].name@, 0) == Some(b),
    ensures
        resolution(m, i, a) == Err::<(Seq<Hop>, int, int), AnalysisError>(
            AnalysisError::CyclicCalculatedColumn,
        ),
{
    let ea = m.models[i].columns[a].expression->Some_0;
    let eb = m.models[i].columns[b].expression->Some_0;
    let empty = Seq::<Hop>::empty();
    assert(walk(m, i, segments(ea@), 0, empty) == Ok::<(int, Seq<Hop>), AnalysisError>((i, empty)));
    assert(walk(m, i, segments(eb@), 0, empty) == Ok::<(int, Seq<Hop>), AnalysisError>((i, empty)));
    let v1 = seq![(i as usize, a as usize)];
    let v2 = v1.push((i as usize, b as usize));
    assert(!v1.contains((i as usize, b as usize))) by {
        assert(v1.len() == 1);
    }
    assert(v2[0] == (i as usize, a as usize));
    assert(v2.contains((i as usize, a as usize)));
    assert(segments(ea@).last() == m.models[i].columns[b].name@);
    assert(segments(eb@).last() == m.models[i].columns[a].name@);
    assert(crate::analyzer::expand(m, i, b, empty, v2) == Err::<(Seq<Hop>, int, int), AnalysisError>(
        AnalysisError::CyclicCalculatedColumn,
    ));
}

proof fn lemma_no_paths_no_hops(am: AnalyzedManifest, a: Annotation, k: int)
    requires
        k <= a.columns.len(),
        forall|q: int| 0 <= q < a.columns.len() ==> (#[trigger] a.path_of[q]) is None,
    ensures
        hops_upto(am, a, k).len() == 0,
    decreases k,
{
    if k > 0 {
        lemma_no_paths_no_hops(am, a, k - 1);
        assert(a.path_of[k - 1] is None);
    }
}

} // verus!
