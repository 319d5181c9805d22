use nautilus::naming::{canonical_operation, operation_order};
use nautilus::record::parse_pg_record_literal;

#[test]
fn conversion_record_literal_parses_unquoted_and_quoted_fields() {
    let fields = parse_pg_record_literal("(0,\"3\",1.5)").expect("should parse");
    assert_eq!(
        fields,
        vec![Some("0".to_string()), Some("3".to_string()), Some("1.5".to_string())]
    );
}

#[test]
fn conversion_record_literal_distinguishes_null_from_empty_string() {
    let fields = parse_pg_record_literal("(,\"\")").expect("should parse");
    assert_eq!(fields, vec![None, Some(String::new())]);
}

#[test]
fn conversion_record_literal_decodes_escapes() {
    let fields = parse_pg_record_literal("(\"a\"\"b\\\\c\")").expect("should parse");
    assert_eq!(fields, vec![Some("a\"b\\c".to_string())]);
}

#[test]
fn conversion_record_literal_rejects_non_parenthesised() {
    assert!(parse_pg_record_literal("0,1,2").is_none());
}

#[test]
fn composite_record_literal_parses_unquoted_and_quoted_fields() {
    let fields = parse_pg_record_literal("(0,\"3\",1.5)").expect("should parse");
    assert_eq!(
        fields,
        vec![Some("0".to_string()), Some("3".to_string()), Some("1.5".to_string())]
    );
}

#[test]
fn composite_record_literal_distinguishes_null_from_empty_string() {
    let fields = parse_pg_record_literal("(,\"\")").expect("should parse");
    assert_eq!(fields, vec![None, Some(String::new())]);
}

#[test]
fn composite_record_literal_decodes_escapes() {
    let fields = parse_pg_record_literal("(\"a\"\"b\\\\c\")").expect("should parse");
    assert_eq!(fields, vec![Some("a\"b\\c".to_string())]);
}

#[test]
fn composite_record_literal_rejects_non_parenthesised() {
    assert!(parse_pg_record_literal("0,1,2").is_none());
}

#[test]
fn nested_operation_names_are_accepted_in_both_spellings() {
    assert_eq!(canonical_operation("connectOrCreate"), Some("connectOrCreate"));
    assert_eq!(canonical_operation("connect_or_create"), Some("connectOrCreate"));
    assert_eq!(canonical_operation("deleteMany"), Some("deleteMany"));
    assert_eq!(canonical_operation("nope"), None);
}

#[test]
fn plan_operation_names_are_accepted_in_both_spellings() {
    assert_eq!(canonical_operation("connectOrCreate"), Some("connectOrCreate"));
    assert_eq!(canonical_operation("connect_or_create"), Some("connectOrCreate"));
    assert_eq!(canonical_operation("deleteMany"), Some("deleteMany"));
    assert_eq!(canonical_operation("nope"), None);
}

#[test]
fn nested_removals_are_ordered_before_additions() {
    let mut operations = vec!["create", "set", "connect", "disconnect", "deleteMany"];
    operations.sort_by_key(|name| operation_order(name));
    assert_eq!(operations, vec!["set", "disconnect", "deleteMany", "create", "connect"]);
}

#[test]
fn plan_removals_are_ordered_before_additions() {
    let mut operations = vec!["create", "set", "connect", "disconnect", "deleteMany"];
    operations.sort_by_key(|name| operation_order(name));
    assert_eq!(operations, vec!["set", "disconnect", "deleteMany", "create", "connect"]);
}

#[test]
fn every_wire_spelling_reads_as_itself() {
    for op in [
        "create", "createMany", "connect", "connectOrCreate", "disconnect", "set", "update", "updateMany",
        "delete", "deleteMany",
    ] {
        assert_eq!(canonical_operation(op), Some(op));
        let read = canonical_operation(&op.to_uppercase()).unwrap();
        assert_eq!(canonical_operation(read), Some(read));
    }
}
