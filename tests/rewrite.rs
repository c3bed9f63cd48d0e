use wren_modeling::analyzer::{AnalysisError, AnalyzedManifest, PhysicalField, PhysicalTable};
use wren_modeling::expression::split_segments;
use wren_modeling::manifest::{Column, JoinType, Manifest, Model, Relationship};
use wren_modeling::placeholder::{register_table_with_mdl, WrenDataSource};
use wren_modeling::rewrite::{
    analyze_pass, annotate, generate_pass, generate_scan, LogicalPlan, PhysicalPlan,
    RewriteError,
};

fn s(x: &str) -> String {
    x.to_string()
}

fn col(name: &str, ty: &str) -> Column {
    Column::new(s(name), s(ty))
}

fn customers() -> Model {
    Model::new(
        s("customers"),
        s("customers"),
        vec![col("id", "varchar"), col("state", "varchar"), col("city", "varchar")],
        Some(s("id")),
    )
}

fn orders(extra: Vec<Column>) -> Model {
    let mut columns = vec![
        col("order_id", "varchar"),
        col("customer_id", "varchar"),
        Column::relationship(s("customer"), s("customers"), s("orders_customer")),
        Column::calculated(s("customer_state"), s("varchar"), s("customer.state")),
    ];
    columns.extend(extra);
    Model::new(s("orders"), s("orders"), columns, None)
}

fn orders_customer(join_type: JoinType) -> Relationship {
    Relationship::new(
        s("orders_customer"),
        s("orders"),
        s("customers"),
        join_type,
        s("orders.customer_id = customers.id"),
    )
}

fn table(name: &str, fields: &[&str]) -> PhysicalTable {
    PhysicalTable {
        table_reference: s(name),
        fields: fields
            .iter()
            .map(|f| PhysicalField { name: s(f), data_type: s("varchar") })
            .collect(),
    }
}

fn tables() -> Vec<PhysicalTable> {
    vec![
        table("customers", &["id", "state", "city"]),
        table("orders", &["order_id", "customer_id"]),
    ]
}

fn manifest(models: Vec<Model>, relationships: Vec<Relationship>) -> Manifest {
    Manifest::new(s("wrenai"), s("default"), models, relationships)
}

fn example(join_type: JoinType) -> AnalyzedManifest {
    let m = manifest(vec![customers(), orders(vec![])], vec![orders_customer(join_type)]);
    AnalyzedManifest::analyze(m, tables()).unwrap()
}

fn rewrite(am: &AnalyzedManifest, model: &str, columns: &[&str]) -> Result<PhysicalPlan, RewriteError> {
    let plan = LogicalPlan::TableScan {
        table: s(model),
        columns: columns.iter().map(|c| s(c)).collect(),
    };
    let annotated = analyze_pass(am, plan)?;
    generate_pass(am, &annotated)
}

#[test]
fn analysis_resolves_every_calculated_column() {
    let am = example(JoinType::ManyToOne);
    assert_eq!(am.paths.len(), 1);
    let p = &am.paths[0];
    assert_eq!((p.model, p.column), (1, 3));
    assert_eq!(p.hops.len(), 1);
    assert_eq!(p.hops[0].relationship, 0);
    assert_eq!(p.hops[0].to_model, 0);
    assert_eq!((p.terminal_model, p.terminal_column), (0, 1));
}

#[test]
fn relationship_traversal_injects_one_inner_join() {
    let am = example(JoinType::ManyToOne);
    let pp = rewrite(&am, "orders", &["customer_state"]).unwrap();
    assert_eq!(pp.table, "orders");
    assert_eq!(pp.joins.len(), 1);
    assert_eq!(pp.joins[0].table, "customers");
    assert_eq!(pp.joins[0].condition, "orders.customer_id = customers.id");
    assert_eq!(pp.projection.len(), 1);
    assert_eq!(pp.projection[0].qualifier, "customers");
    assert_eq!(pp.projection[0].column, "state");
    assert_eq!(pp.projection[0].alias, "customer_state");
}

#[test]
fn physical_columns_give_one_scan_and_no_join() {
    let am = example(JoinType::ManyToOne);
    let pp = rewrite(&am, "orders", &["order_id", "customer_id"]).unwrap();
    assert_eq!(pp.table, "orders");
    assert!(pp.joins.is_empty());
    assert_eq!(pp.projection[1].qualifier, "orders");
    assert_eq!(pp.projection[1].column, "customer_id");
}

#[test]
fn rewriting_is_deterministic() {
    let a = rewrite(&example(JoinType::ManyToOne), "orders", &["customer_state", "order_id"]).unwrap();
    let b = rewrite(&example(JoinType::ManyToOne), "orders", &["customer_state", "order_id"]).unwrap();
    assert_eq!(format!("{:?}", a), format!("{:?}", b));
}

#[test]
fn fan_out_relationship_is_rejected_at_rewrite() {
    let am = example(JoinType::OneToMany);
    assert_eq!(
        rewrite(&am, "orders", &["customer_state"]).unwrap_err(),
        RewriteError::UnsupportedFanOutRelationship
    );
    let am = example(JoinType::ManyToMany);
    assert_eq!(
        rewrite(&am, "orders", &["customer_state"]).unwrap_err(),
        RewriteError::UnsupportedFanOutRelationship
    );
    assert!(rewrite(&am, "orders", &["order_id"]).is_ok());
}

#[test]
fn duplicate_relationship_is_rejected() {
    let m = manifest(
        vec![customers(), orders(vec![])],
        vec![orders_customer(JoinType::ManyToOne), orders_customer(JoinType::OneToOne)],
    );
    assert_eq!(
        AnalyzedManifest::analyze(m, tables()).unwrap_err(),
        AnalysisError::DuplicateRelationship
    );
}

#[test]
fn relationship_to_missing_model_is_rejected() {
    let bad = Relationship::new(
        s("orders_nowhere"),
        s("orders"),
        s("nowhere"),
        JoinType::ManyToOne,
        s("orders.customer_id = nowhere.id"),
    );
    let m = manifest(
        vec![customers(), orders(vec![])],
        vec![orders_customer(JoinType::ManyToOne), bad],
    );
    assert_eq!(
        AnalyzedManifest::analyze(m, tables()).unwrap_err(),
        AnalysisError::DanglingRelationshipReference
    );
}

#[test]
fn cyclic_calculated_columns_are_rejected() {
    let extra = vec![
        Column::calculated(s("a"), s("varchar"), s("b")),
        Column::calculated(s("b"), s("varchar"), s("a")),
    ];
    let m = manifest(vec![customers(), orders(extra)], vec![orders_customer(JoinType::ManyToOne)]);
    assert_eq!(
        AnalyzedManifest::analyze(m, tables()).unwrap_err(),
        AnalysisError::CyclicCalculatedColumn
    );
}

#[test]
fn calculated_column_through_another_resolves_to_its_end() {
    let extra = vec![Column::calculated(s("state_again"), s("varchar"), s("customer_state"))];
    let m = manifest(vec![customers(), orders(extra)], vec![orders_customer(JoinType::ManyToOne)]);
    let am = AnalyzedManifest::analyze(m, tables()).unwrap();
    let pp = rewrite(&am, "orders", &["state_again"]).unwrap();
    assert_eq!(pp.joins.len(), 1);
    assert_eq!(pp.projection[0].qualifier, "customers");
    assert_eq!(pp.projection[0].column, "state");
    assert_eq!(pp.projection[0].alias, "state_again");
}

#[test]
fn missing_binding_and_mismatched_schema() {
    let m = manifest(vec![customers(), orders(vec![])], vec![orders_customer(JoinType::ManyToOne)]);
    assert_eq!(
        AnalyzedManifest::analyze(m, vec![table("orders", &["order_id", "customer_id"])]).unwrap_err(),
        AnalysisError::UnresolvedTable
    );
    let m = manifest(vec![customers(), orders(vec![])], vec![orders_customer(JoinType::ManyToOne)]);
    let t = vec![table("customers", &["id", "state"]), table("orders", &["order_id", "customer_id"])];
    assert_eq!(AnalyzedManifest::analyze(m, t).unwrap_err(), AnalysisError::SchemaMismatch);
}

#[test]
fn duplicate_names_are_rejected() {
    let m = manifest(vec![customers(), customers()], vec![]);
    assert_eq!(AnalyzedManifest::analyze(m, tables()).unwrap_err(), AnalysisError::DuplicateModel);
    let mut c = customers();
    c.columns.push(col("id", "varchar"));
    let m = manifest(vec![c], vec![]);
    assert_eq!(AnalyzedManifest::analyze(m, tables()).unwrap_err(), AnalysisError::DuplicateColumn);
}

#[test]
fn malformed_expression_is_rejected() {
    let extra = vec![Column::calculated(s("bad"), s("varchar"), s("order_id.state"))];
    let m = manifest(vec![customers(), orders(extra)], vec![orders_customer(JoinType::ManyToOne)]);
    assert_eq!(
        AnalyzedManifest::analyze(m, tables()).unwrap_err(),
        AnalysisError::MalformedExpression
    );
}

#[test]
fn unknown_and_relationship_columns_are_refused() {
    let am = example(JoinType::ManyToOne);
    assert_eq!(rewrite(&am, "orders", &["nope"]).unwrap_err(), RewriteError::UnknownColumn);
    assert_eq!(rewrite(&am, "orders", &["customer"]).unwrap_err(), RewriteError::NotAScalarColumn);
}

#[test]
fn analyze_pass_is_idempotent_and_skips_physical_tables() {
    let am = example(JoinType::ManyToOne);
    let once = analyze_pass(&am, LogicalPlan::TableScan { table: s("orders"), columns: vec![s("customer_state")] }).unwrap();
    let twice = analyze_pass(&am, once.clone()).unwrap();
    assert_eq!(format!("{:?}", once), format!("{:?}", twice));
    let other = analyze_pass(&am, LogicalPlan::TableScan { table: s("raw"), columns: vec![s("x")] }).unwrap();
    assert!(matches!(other, LogicalPlan::TableScan { .. }));
    let pp = generate_pass(&am, &other).unwrap();
    assert_eq!(pp.table, "raw");
    assert!(annotate(&am, &s("raw"), &vec![s("x")]).unwrap().is_none());
    let a = annotate(&am, &s("orders"), &vec![s("customer_state")]).unwrap().unwrap();
    assert_eq!(generate_scan(&am, &a).unwrap().joins.len(), 1);
}

#[test]
fn expressions_split_at_dots() {
    assert_eq!(split_segments("customer.state"), vec![s("customer"), s("state")]);
    assert_eq!(split_segments("state"), vec![s("state")]);
    assert_eq!(split_segments(""), vec![s("")]);
    assert_eq!(split_segments("a..b"), vec![s("a"), s(""), s("b")]);
}

#[test]
fn placeholders_carry_declared_schema_and_qualified_names() {
    let m = manifest(vec![customers(), orders(vec![])], vec![]);
    let regs = register_table_with_mdl(&m);
    assert_eq!(regs.len(), 2);
    assert_eq!(regs[0].name, "wrenai.default.customers");
    assert_eq!(regs[1].name, "wrenai.default.orders");
    let ds = WrenDataSource::new(&customers());
    assert_eq!(ds.schema.len(), 3);
    assert_eq!(ds.schema[1].name, "state");
    assert_eq!(ds.schema[1].data_type, "varchar");
    assert_eq!(regs[1].source.schema[3].name, "customer_state");
}

#[test]
fn many_to_one_crossed_back_fans_out() {
    let mut c = customers();
    c.columns.push(Column::relationship(s("placed"), s("orders"), s("orders_customer")));
    c.columns.push(Column::calculated(s("some_order"), s("varchar"), s("placed.order_id")));
    let m = manifest(vec![c, orders(vec![])], vec![orders_customer(JoinType::ManyToOne)]);
    let am = AnalyzedManifest::analyze(m, tables()).unwrap();
    assert_eq!(
        rewrite(&am, "customers", &["some_order"]).unwrap_err(),
        RewriteError::UnsupportedFanOutRelationship
    );
    assert!(rewrite(&am, "orders", &["customer_state"]).is_ok());
}

#[test]
fn one_to_one_is_joined() {
    let am = example(JoinType::OneToOne);
    let pp = rewrite(&am, "orders", &["customer_state"]).unwrap();
    assert_eq!(pp.joins.len(), 1);
    assert_eq!(pp.joins[0].alias, "customers");
}

#[test]
fn primary_key_must_name_a_plain_column() {
    let mut c = customers();
    c.primary_key = Some(s("nope"));
    let m = manifest(vec![c, orders(vec![])], vec![orders_customer(JoinType::ManyToOne)]);
    assert_eq!(AnalyzedManifest::analyze(m, tables()).unwrap_err(), AnalysisError::InvalidPrimaryKey);
    let mut o = orders(vec![]);
    o.primary_key = Some(s("customer_state"));
    let m = manifest(vec![customers(), o], vec![orders_customer(JoinType::ManyToOne)]);
    assert_eq!(AnalyzedManifest::analyze(m, tables()).unwrap_err(), AnalysisError::InvalidPrimaryKey);
}

#[test]
fn duplicate_relationship_is_reported_before_duplicate_models() {
    let m = manifest(
        vec![customers(), customers(), orders(vec![])],
        vec![orders_customer(JoinType::ManyToOne), orders_customer(JoinType::ManyToOne)],
    );
    assert_eq!(
        AnalyzedManifest::analyze(m, tables()).unwrap_err(),
        AnalysisError::DuplicateRelationship
    );
}

#[test]
fn two_joins_to_one_model_are_ambiguous() {
    let extra = vec![
        col("billing_id", "varchar"),
        Column::relationship(s("billing"), s("customers"), s("orders_billing")),
        Column::calculated(s("billing_city"), s("varchar"), s("billing.city")),
    ];
    let billing = Relationship::new(
        s("orders_billing"),
        s("orders"),
        s("customers"),
        JoinType::ManyToOne,
        s("orders.billing_id = customers.id"),
    );
    let m = manifest(
        vec![customers(), orders(extra)],
        vec![orders_customer(JoinType::ManyToOne), billing],
    );
    let t = vec![
        table("customers", &["id", "state", "city"]),
        table("orders", &["order_id", "customer_id", "billing_id"]),
    ];
    let am = AnalyzedManifest::analyze(m, t).unwrap();
    assert!(rewrite(&am, "orders", &["billing_city"]).is_ok());
    assert_eq!(
        rewrite(&am, "orders", &["customer_state", "billing_city"]).unwrap_err(),
        RewriteError::AmbiguousColumnReference
    );
}

#[test]
fn unanalysed_model_scan_is_refused_by_generation() {
    let am = example(JoinType::ManyToOne);
    let plan = LogicalPlan::TableScan { table: s("orders"), columns: vec![s("order_id")] };
    assert_eq!(generate_pass(&am, &plan).unwrap_err(), RewriteError::UnanalyzedModelScan);
}

#[test]
fn joins_follow_first_use_order() {
    let extra = vec![
        col("billing_id", "varchar"),
        Column::relationship(s("billing"), s("order_items"), s("orders_items")),
        Column::calculated(s("item_price"), s("varchar"), s("billing.price")),
    ];
    let items = Model::new(
        s("order_items"),
        s("order_items"),
        vec![col("order_id", "varchar"), col("price", "varchar")],
        None,
    );
    let rel = Relationship::new(
        s("orders_items"),
        s("orders"),
        s("order_items"),
        JoinType::OneToOne,
        s("orders.order_id = order_items.order_id"),
    );
    let m = manifest(
        vec![customers(), orders(extra), items],
        vec![orders_customer(JoinType::ManyToOne), rel],
    );
    let t = vec![
        table("customers", &["id", "state", "city"]),
        table("orders", &["order_id", "customer_id", "billing_id"]),
        table("order_items", &["order_id", "price"]),
    ];
    let am = AnalyzedManifest::analyze(m, t).unwrap();
    let pp = rewrite(&am, "orders", &["item_price", "customer_state", "item_price"]).unwrap();
    assert_eq!(pp.joins.len(), 2);
    assert_eq!(pp.joins[0].table, "order_items");
    assert_eq!(pp.joins[1].table, "customers");
    assert_eq!(pp.projection.len(), 3);
    assert_eq!(pp.projection[2].alias, "item_price");
}
