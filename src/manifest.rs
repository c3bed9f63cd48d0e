//! The declarative manifest: models, their columns and the relationships
//! between them. Construction only assembles values; every cross-reference is
//! checked by the analyzer.
use vstd::prelude::*;

verus! {

/// Cardinality of a relationship, read from its first model to its second.
#[derive(Clone, Copy, Debug, PartialEq, Eq, Structural)]
pub enum JoinType {
    OneToOne,
    OneToMany,
    ManyToOne,
    ManyToMany,
}

impl JoinType {
    /// A join across this relationship may match several rows for one row
    /// when it is crossed from its first model to its second (`forward`) or
    /// back. A `OneToMany` or `ManyToMany` relationship is refused either way;
    /// a `ManyToOne` only when crossed back, from its one side to its many side.
    pub open spec fn spec_fans_out(self, forward: bool) -> bool {
        match self {
            JoinType::OneToOne => false,
            JoinType::OneToMany => true,
            JoinType::ManyToOne => !forward,
            JoinType::ManyToMany => true,
        }
    }

    pub fn fans_out(&self, forward: bool) -> (r: bool)
        ensures
            r == self.spec_fans_out(forward),
    {
        match self {
            JoinType::OneToOne => false,
            JoinType::OneToMany => true,
            JoinType::ManyToOne => !forward,
            JoinType::ManyToMany => true,
        }
    }
}

/// One column of a model.
#[derive(Clone, Debug)]
pub struct Column {
    pub name: String,
    pub data_type: String,
    pub is_calculated: bool,
    pub expression: Option<String>,
    pub relationship: Option<String>,
}

impl Column {
    /// A column backed by the physical column of the same name.
    pub fn new(name: String, data_type: String) -> (r: Column)
        ensures
            r.name@ == name@,
            r.data_type@ == data_type@,
            !r.is_calculated,
            r.expression is None,
            r.relationship is None,
    {
        Column { name, data_type, is_calculated: false, expression: None, relationship: None }
    }

    /// A calculated column whose value is `expression`, a dotted chain of
    /// relationship columns ending in a column of the last model reached.
    pub fn calculated(name: String, data_type: String, expression: String) -> (r: Column)
        ensures
            r.name@ == name@,
            r.data_type@ == data_type@,
            r.is_calculated,
            r.expression == Some(expression),
            r.relationship is None,
    {
        Column {
            name,
            data_type,
            is_calculated: true,
            expression: Some(expression),
            relationship: None,
        }
    }

    /// A column that denotes the model reached through `relationship`.
    pub fn relationship(name: String, data_type: String, relationship: String) -> (r: Column)
        ensures
            r.name@ == name@,
            r.data_type@ == data_type@,
            !r.is_calculated,
            r.expression is None,
            r.relationship == Some(relationship),
    {
        Column {
            name,
            data_type,
            is_calculated: false,
            expression: None,
            relationship: Some(relationship),
        }
    }

    /// Backed one to one by a physical column.
    pub open spec fn is_physical(&self) -> bool {
        !self.is_calculated && self.relationship is None
    }
}

/// One virtual table.
#[derive(Clone, Debug)]
pub struct Model {
    pub name: String,
    pub table_reference: String,
    pub columns: Vec<Column>,
    pub primary_key: Option<String>,
}

impl Model {
    pub fn new(
        name: String,
        table_reference: String,
        columns: Vec<Column>,
        primary_key: Option<String>,
    ) -> (r: Model)
        ensures
            r.name == name,
            r.table_reference == table_reference,
            r.columns == columns,
            r.primary_key == primary_key,
    {
        Model { name, table_reference, columns, primary_key }
    }
}

/// A named join declaration between two models.
#[derive(Clone, Debug)]
pub struct Relationship {
    pub name: String,
    pub first_model: String,
    pub second_model: String,
    pub join_type: JoinType,
    pub condition: String,
}

impl Relationship {
    pub fn new(
        name: String,
        first: String,
        second: String,
        join_type: JoinType,
        condition: String,
    ) -> (r: Relationship)
        ensures
            r.name == name,
            r.first_model == first,
            r.second_model == second,
            r.join_type == join_type,
            r.condition == condition,
    {
        Relationship { name, first_model: first, second_model: second, join_type, condition }
    }
}

/// The whole declaration: where the models live and what they are.
#[derive(Clone, Debug)]
pub struct Manifest {
    pub catalog: String,
    pub schema: String,
    pub models: Vec<Model>,
    pub relationships: Vec<Relationship>,
}

impl Manifest {
    pub fn new(
        catalog: String,
        schema: String,
        models: Vec<Model>,
        relationships: Vec<Relationship>,
    ) -> (r: Manifest)
        ensures
            r.catalog == catalog,
            r.schema == schema,
            r.models == models,
            r.relationships == relationships,
    {
        Manifest { catalog, schema, models, relationships }
    }
}

} // verus!
