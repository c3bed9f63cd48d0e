//! Stand-ins that let a host engine plan a query against model names before
//! the rewrite: each exposes a model's declared schema and nothing else.
use vstd::prelude::*;
use crate::manifest::{Column, Manifest, Model};
use crate::names::{distinct, model_names};

verus! {

/// One field of a model's declared schema.
#[derive(Clone, Debug)]
pub struct SchemaField {
    pub name: String,
    pub data_type: String,
}

/// The placeholder table of one model. Scanning it is never valid: the
/// rewrite replaces it before physical planning.
#[derive(Clone, Debug)]
pub struct WrenDataSource {
    pub schema: Vec<SchemaField>,
}

pub open spec fn declares(f: SchemaField, c: Column) -> bool {
    f.name@ == c.name@ && f.data_type@ == c.data_type@
}

impl WrenDataSource {
    /// The declared schema of `model`: one field per column, in order.
    pub fn new(model: &Model) -> (r: Self)
        ensures
            r.schema.len() == model.columns.len(),
            forall|k: int| 0 <= k < model.columns.len() ==> declares(#[trigger] r.schema[k], model.columns[k]),
    {
        let mut schema: Vec<SchemaField> = Vec::new();
        let mut k: usize = 0;
        while k < model.columns.len()
            invariant
                k <= model.columns.len(),
                schema.len() == k,
                forall|q: int| 0 <= q < k ==> declares(#[trigger] schema[q], model.columns[q]),
            decreases model.columns.len() - k,
        {
            let f = SchemaField {
                name: model.columns[k].name.clone(),
                data_type: model.columns[k].data_type.clone(),
            };
            let ghost old_schema = schema@;
            schema.push(f);
            assert forall|q: int| 0 <= q < k + 1 implies declares(#[trigger] schema[q], model.columns[q]) by {
                if q < k {
                    assert(schema[q] == old_schema[q]);
                }
            }
            k = k + 1;
        }
        WrenDataSource { schema }
    }
}

/// A placeholder together with the fully qualified name it is registered under.
#[derive(Clone, Debug)]
pub struct Registration {
    pub name: String,
    pub source: WrenDataSource,
}

/// `catalog.schema.model`.
pub open spec fn qualified_name(m: Manifest, md: Model) -> Seq<char> {
    m.catalog@ + seq!['.'] + m.schema@ + seq!['.'] + md.name@
}

/// The placeholders of every model, each under its qualified name, in the
/// order of the models. Model names must be distinct, as two placeholders
/// cannot share one name.
pub fn register_table_with_mdl(m: &Manifest) -> (r: Vec<Registration>)
    requires
        distinct(model_names(*m)),
    ensures
        r.len() == m.models.len(),
        forall|k: int|
            0 <= k < m.models.len() ==> {
                &&& (#[trigger] r[k]).name@ == qualified_name(*m, m.models[k])
                &&& r[k].source.schema.len() == m.models[k].columns.len()
                &&& forall|c: int|
                    0 <= c < m.models[k].columns.len() ==> declares(
                        #[trigger] r[k].source.schema[c],
                        m.models[k].columns[c],
                    )
            },
{
    let mut r: Vec<Registration> = Vec::new();
    let mut k: usize = 0;
    proof {
        reveal_strlit(".");
    }
    while k < m.models.len()
        invariant
            k <= m.models.len(),
            r.len() == k,
            "."@ == seq!['.'],
            forall|q: int|
                0 <= q < k ==> {
                    &&& (#[trigger] r[q]).name@ == qualified_name(*m, m.models[q])
                    &&& r[q].source.schema.len() == m.models[q].columns.len()
                    &&& forall|c: int|
                        0 <= c < m.models[q].columns.len() ==> declares(
                            #[trigger] r[q].source.schema[c],
                            m.models[q].columns[c],
                        )
                },
        decreases m.models.len() - k,
    {
        let md = &m.models[k];
        let mut name = m.catalog.clone();
        name.append(".");
        name.append(m.schema.as_str());
        name.append(".");
        name.append(md.name.as_str());
        let source = WrenDataSource::new(md);
        let ghost old_r = r@;
        r.push(Registration { name, source });
        assert forall|q: int| 0 <= q < k + 1 implies {
            &&& (#[trigger] r[q]).name@ == qualified_name(*m, m.models[q])
            &&& r[q].source.schema.len() == m.models[q].columns.len()
            &&& forall|c: int|
                0 <= c < m.models[q].columns.len() ==> declares(
                    #[trigger] r[q].source.schema[c],
                    m.models[q].columns[c],
                )
        } by {
            if q < k {
                assert(r[q] == old_r[q]);
            }
        }
        k = k + 1;
    }
    r
}

} // verus!
