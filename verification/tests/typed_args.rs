use nautilus::args::{VectorMetric, VectorNearestQuery};
use nautilus::ast::{OrderBy, OrderDir, Value};
use nautilus::conversion::{ResolvedFieldType, ScalarType};
use nautilus::protocol::ProtocolError;
use nautilus::typed_args::{from_find_many_args, TypedFindArgs};

fn types() -> Vec<(String, ResolvedFieldType)> {
    vec![
        ("title".to_string(), ResolvedFieldType::Scalar(ScalarType::String)),
        ("embedding".to_string(), ResolvedFieldType::Scalar(ScalarType::Vector { dimension: 2 })),
    ]
}

fn base() -> TypedFindArgs {
    TypedFindArgs {
        filter: None,
        order_by: vec![OrderBy { column: "posts__title".to_string(), direction: OrderDir::Desc }],
        take: None,
        skip: None,
        select: vec![],
        relations: 0,
        cursor: None,
        distinct: vec![],
        nearest: None,
    }
}

#[test]
fn typed_names_lose_their_qualifiers_and_a_negative_take_reads_backward() {
    let mut a = base();
    a.take = Some(-4);
    a.select = vec![("posts__title".to_string(), true), ("body".to_string(), false)];
    a.cursor = Some(vec![("posts__id".to_string(), Value::I32(3))]);
    a.distinct = vec!["posts__title".to_string()];
    let q = from_find_many_args(a, &types()).unwrap();
    assert_eq!(q.take, Some(4));
    assert!(q.backward);
    assert_eq!(q.select, vec!["title".to_string()]);
    assert_eq!(q.order_by, vec![OrderBy { column: "title".to_string(), direction: OrderDir::Desc }]);
    assert_eq!(q.cursor, Some(vec![("id".to_string(), Value::I32(3))]));
    assert_eq!(q.distinct, vec!["title".to_string()]);
}

#[test]
fn typed_projection_cannot_come_with_relations() {
    let mut a = base();
    a.select = vec![("title".to_string(), true)];
    a.relations = 1;
    assert_eq!(
        from_find_many_args(a, &types()).err(),
        Some(ProtocolError::InvalidParams(
            "'select' and 'include' cannot be used together. Use 'select' for projection only, or 'include' for relation loading."
                .to_string()
        ))
    );
}

#[test]
fn typed_nearest_needs_a_vector_field_and_a_forward_window() {
    let mut a = base();
    a.nearest = Some(VectorNearestQuery { field: "posts__title".to_string(), query: vec![0, 0], metric: VectorMetric::L2 });
    a.take = Some(3);
    assert_eq!(
        from_find_many_args(a, &types()).err(),
        Some(ProtocolError::InvalidParams("'nearest.field' must reference a Vector field, got 'title'".to_string()))
    );
    let mut b = base();
    b.nearest = Some(VectorNearestQuery { field: "embedding".to_string(), query: vec![0, 0], metric: VectorMetric::Cosine });
    b.take = Some(-3);
    assert_eq!(
        from_find_many_args(b, &types()).err(),
        Some(ProtocolError::InvalidParams("'nearest' does not support backward pagination".to_string()))
    );
    let mut c = base();
    c.nearest = Some(VectorNearestQuery { field: "embedding".to_string(), query: vec![0, 0], metric: VectorMetric::Cosine });
    c.take = Some(3);
    let q = from_find_many_args(c, &types()).unwrap();
    assert_eq!(q.nearest.unwrap().field, "embedding".to_string());
}
