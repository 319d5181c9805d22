use nautilus::aggregate::{
    build_aggregate_items, build_group_by_select, collect_agg_fields, parse_by_fields,
    shape_group_row, GroupBySelect,
};
use nautilus::ast::{ColumnMarker, Expr, JsonPathCast, OrderBy, OrderDir, SelectItem, Value};
use nautilus::conversion::{ResolvedFieldType, ScalarType};
use nautilus::grouping::GroupByOrderItem;
use nautilus::json::{Json, JsonNumber};
use nautilus::model::{CompositeFieldIr, CompositeTypeIr, FieldIr, ModelIr, Row};
use nautilus::order_target::{resolve_order_target, ResolvedOrderTarget};
use nautilus::protocol::ProtocolError;

fn field(logical: &str, db: &str, field_type: ResolvedFieldType) -> FieldIr {
    FieldIr {
        logical_name: logical.to_string(),
        db_name: db.to_string(),
        field_type,
        is_array: false,
        is_updated_at: false,
        default_value: None,
    }
}

fn scalar(s: ScalarType) -> ResolvedFieldType {
    ResolvedFieldType::Scalar(s)
}

fn shipment_model() -> ModelIr {
    ModelIr {
        logical_name: "Shipment".to_string(),
        db_name: "shipments".to_string(),
        fields: vec![
            field("id", "id", scalar(ScalarType::Int)),
            field("viewCount", "view_count", scalar(ScalarType::Int)),
            field(
                "deliverySnapshot",
                "delivery_snapshot",
                ResolvedFieldType::CompositeType { composite_name: "Delivery".to_string() },
            ),
            field("owner", "owner", ResolvedFieldType::Relation(nautilus::model::RelationIr { name: None, target_model: "Other".to_string(), fields: vec![], references: vec![], join: None })),
            field("label", "label", scalar(ScalarType::String)),
        ],
        primary_key: vec!["id".to_string()],
        unique_constraints: vec![],
    }
}

fn delivery() -> CompositeTypeIr {
    let nested = |logical: &str, db: &str, s: ScalarType| CompositeFieldIr {
        logical_name: logical.to_string(),
        db_name: db.to_string(),
        field_type: ResolvedFieldType::Scalar(s),
        is_array: false,
    };
    CompositeTypeIr {
        logical_name: "Delivery".to_string(),
        db_name: "delivery".to_string(),
        fields: vec![
            nested("etaMinutes", "eta_minutes", ScalarType::Int),
            nested("signed", "signed", ScalarType::Boolean),
            nested("note", "note", ScalarType::String),
        ],
    }
}

fn mapping() -> Vec<(String, String)> {
    vec![("viewCount".to_string(), "view_count".to_string())]
}

fn object(members: Vec<(&str, Json)>) -> Json {
    Json::Object(members.into_iter().map(|(k, v)| (k.to_string(), v)).collect())
}

fn strings(items: &[&str]) -> Vec<String> {
    items.iter().map(|s| s.to_string()).collect()
}

fn call(name: &str, arg: Expr) -> Expr {
    Expr::FunctionCall { name: name.to_string(), args: vec![arg] }
}

fn column(name: &str) -> Expr {
    Expr::Column(name.to_string())
}

#[test]
fn aggregate_fields_are_all_stored_fields_or_the_flagged_ones() {
    let model = shipment_model();
    assert_eq!(
        collect_agg_fields(&model, &Json::Bool(true)),
        strings(&["id", "viewCount", "deliverySnapshot", "label"])
    );
    assert_eq!(
        collect_agg_fields(&model, &object(vec![("viewCount", Json::Bool(true)), ("id", Json::Bool(false))])),
        strings(&["viewCount"])
    );
    assert_eq!(collect_agg_fields(&model, &Json::Null), Vec::<String>::new());
}

#[test]
fn group_by_needs_a_field_in_by() {
    let args = object(vec![(
        "by",
        Json::Array(vec![Json::String("label".to_string()), Json::Number(JsonNumber::PosInt(3))]),
    )]);
    assert_eq!(parse_by_fields(Some(&args)), Ok(strings(&["label"])));
    assert_eq!(
        parse_by_fields(None),
        Err(ProtocolError::InvalidParams("groupBy requires at least one field in `by`".to_string()))
    );
    assert_eq!(
        parse_by_fields(Some(&object(vec![("by", Json::Array(vec![]))]))),
        Err(ProtocolError::InvalidParams("groupBy requires at least one field in `by`".to_string()))
    );
}

#[test]
fn aggregate_items_carry_their_kind_in_the_alias() {
    let args = object(vec![
        ("count", object(vec![("_all", Json::Bool(true)), ("viewCount", Json::Bool(true)), ("id", Json::Bool(false))])),
        ("sum", object(vec![("viewCount", Json::Bool(true))])),
        ("max", object(vec![("id", Json::Bool(true))])),
    ]);
    let items = build_aggregate_items(&shipment_model(), Some(&args), &mapping());
    assert_eq!(
        items,
        vec![
            ("_count___all".to_string(), call("COUNT", Expr::Star)),
            ("_count__viewCount".to_string(), call("COUNT", column("shipments__view_count"))),
            ("_sum_viewCount".to_string(), call("SUM", column("shipments__view_count"))),
            ("_max_id".to_string(), call("MAX", column("shipments__id"))),
        ]
    );
    let all = build_aggregate_items(&shipment_model(), Some(&object(vec![("count", Json::Bool(true))])), &mapping());
    assert_eq!(all, vec![("_count___all".to_string(), call("COUNT", Expr::Star))]);
}

#[test]
fn grouped_select_groups_projects_and_orders() {
    let model = shipment_model();
    let l2d = mapping();
    let by = strings(&["viewCount"]);
    let select = build_group_by_select(GroupBySelect {
        model: &model,
        logical_to_db: &l2d,
        by_fields: &by,
        aggregate_items: vec![("_count___all".to_string(), call("COUNT", Expr::Star))],
        filter: None,
        having: Some(column("h")),
        orders: vec![
            GroupByOrderItem::Expr(call("COUNT", Expr::Star), OrderDir::Desc),
            GroupByOrderItem::Column(OrderBy { column: "shipments__view_count".to_string(), direction: OrderDir::Asc }),
        ],
        take: Some(5),
        skip: None,
    });
    let marker = ColumnMarker { table: "shipments".to_string(), name: "view_count".to_string() };
    assert_eq!(select.table, "shipments");
    assert_eq!(
        select.items,
        vec![
            SelectItem::Column(marker.clone()),
            SelectItem::Computed { expr: call("COUNT", Expr::Star), alias: "_count___all".to_string() },
        ]
    );
    assert_eq!(select.group_by, vec![marker]);
    assert_eq!(select.having, Some(column("h")));
    assert_eq!(
        select.order_by,
        vec![OrderBy { column: "shipments__view_count".to_string(), direction: OrderDir::Asc }]
    );
    assert_eq!(select.order_by_exprs, vec![(call("COUNT", Expr::Star), OrderDir::Desc)]);
    assert_eq!(select.take, Some(5));
}

#[test]
fn grouped_rows_nest_their_aggregates() {
    let row = Row {
        columns: vec![
            ("shipments__view_count".to_string(), Value::I32(3)),
            ("_count___all".to_string(), Value::I64(2)),
            ("_max_id".to_string(), Value::I32(9)),
            ("_count__viewCount".to_string(), Value::I64(1)),
        ],
    };
    let shaped = shape_group_row(row, &[("view_count".to_string(), "viewCount".to_string())]);
    assert_eq!(
        shaped.columns,
        vec![
            ("viewCount".to_string(), Value::I32(3)),
            (
                "_count".to_string(),
                Value::Json(object(vec![
                    ("_all", Json::Number(JsonNumber::PosInt(2))),
                    ("viewCount", Json::Number(JsonNumber::PosInt(1))),
                ]))
            ),
            ("_max".to_string(), Value::Json(object(vec![("id", Json::Number(JsonNumber::PosInt(9)))]))),
        ]
    );
}

#[test]
fn order_targets_resolve_columns_and_composite_paths() {
    let model = shipment_model();
    let composites = vec![delivery()];
    assert_eq!(
        resolve_order_target(&composites, &model, &mapping(), "shipments__viewCount"),
        Ok(ResolvedOrderTarget::Column("view_count".to_string()))
    );
    assert_eq!(
        resolve_order_target(&composites, &model, &mapping(), "deliverySnapshot.etaMinutes"),
        Ok(ResolvedOrderTarget::Expr(Expr::CompositeField {
            table: "shipments".to_string(),
            column: "delivery_snapshot".to_string(),
            field: "eta_minutes".to_string(),
            json_key: "etaMinutes".to_string(),
            cast: JsonPathCast::Signed,
        }))
    );
    assert_eq!(
        resolve_order_target(&composites, &model, &mapping(), "deliverySnapshot"),
        Err(ProtocolError::InvalidFilter(
            "Composite field 'deliverySnapshot' cannot be ordered directly; use 'deliverySnapshot.<field>'".to_string()
        ))
    );
    assert_eq!(
        resolve_order_target(&composites, &model, &mapping(), "deliverySnapshot.signed"),
        Err(ProtocolError::InvalidFilter(
            "Field 'deliverySnapshot.signed' cannot be used with classic orderBy because it is not orderable".to_string()
        ))
    );
    assert_eq!(
        resolve_order_target(&composites, &model, &mapping(), "deliverySnapshot.missing"),
        Err(ProtocolError::InvalidFilter(
            "Unknown orderBy composite field 'deliverySnapshot.missing'".to_string()
        ))
    );
    assert_eq!(
        resolve_order_target(&composites, &model, &mapping(), "label.x"),
        Err(ProtocolError::InvalidFilter(
            "orderBy path 'label.x' starts with non-composite field 'label'".to_string()
        ))
    );
    assert_eq!(
        resolve_order_target(&composites, &model, &mapping(), "nope.x"),
        Err(ProtocolError::InvalidFilter("Unknown orderBy field 'nope'".to_string()))
    );
    assert_eq!(
        resolve_order_target(&[], &model, &mapping(), "deliverySnapshot.note"),
        Err(ProtocolError::QueryPlanning(
            "Composite type 'Delivery' not found while resolving orderBy 'deliverySnapshot.note'".to_string()
        ))
    );
}
