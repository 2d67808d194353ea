use aztable_sql::error::Error;
use aztable_sql::json::JsonValue;
use aztable_sql::stmt::{ExecAction, ExecPhrase};
use aztable_sql::value::{DataType, Field};
use aztable_sql::wire::parse;

fn pair(k: &str, v: JsonValue) -> (String, JsonValue) {
    (k.to_string(), v)
}

fn s(v: &str) -> JsonValue {
    JsonValue::Str(v.to_string())
}

#[test]
fn test_parse_empty_response() {
    let entities: Vec<Vec<(String, JsonValue)>> = Vec::new();
    let result = parse(&entities).unwrap();
    assert_eq!(result.len(), 0);
}

#[test]
fn test_parse_single_row_with_string() {
    let entities = vec![vec![
        pair("odata.etag", s("W/\"0x5B168C7B6E589D2\"")),
        pair("PartitionKey", s("partition1")),
        pair("RowKey", s("row1")),
        pair("Timestamp", s("2026-01-30T12:00:00Z")),
        pair("Name", s("John Doe")),
        pair("Name@odata.type", s("Edm.String")),
    ]];

    let result = parse(&entities).unwrap();
    assert_eq!(result.len(), 1);
    assert_eq!(result[0].index, "row1");
    assert_eq!(result[0].fields.len(), 1);
    assert_eq!(result[0].fields[0].name, "Name");
    match &result[0].fields[0].value {
        DataType::Str(Some(v)) => assert_eq!(v, "John Doe"),
        _ => panic!("Expected Str(Some(\"John Doe\"))"),
    }
}

#[test]
fn test_parse_multiple_data_types() {
    let entities = vec![vec![
        pair("odata.etag", s("etag1")),
        pair("PartitionKey", s("p1")),
        pair("RowKey", s("r1")),
        pair("Timestamp", s("2026-01-30T12:00:00Z")),
        pair("stringField", s("test")),
        pair("stringField@odata.type", s("Edm.String")),
        pair("intField", JsonValue::Int(42)),
        pair("intField@odata.type", s("Edm.Int32")),
        pair("longField", JsonValue::Int(9_223_372_036_854_775_807_i64)),
        pair("longField@odata.type", s("Edm.Int64")),
        pair("doubleField", JsonValue::Float("42.5".to_string())),
        pair("doubleField@odata.type", s("Edm.Double")),
        pair("boolField", JsonValue::Bool(true)),
        pair("boolField@odata.type", s("Edm.Boolean")),
        pair("dateField", s("2026-01-30T12:00:00Z")),
        pair("dateField@odata.type", s("Edm.DateTime")),
        pair("binaryField", s("SGVsbG8gV29ybGQ=")),
        pair("binaryField@odata.type", s("Edm.Binary")),
        pair("guidField", s("123e4567-e89b-12d3-a456-426614174000")),
        pair("guidField@odata.type", s("Edm.Guid")),
    ]];

    let result = parse(&entities).unwrap();
    assert_eq!(result.len(), 1);
    assert_eq!(result[0].fields.len(), 8);

    // Check each field by finding it by name (order not guaranteed)
    let fields = &result[0].fields;

    let string_field = fields.iter().find(|f| f.name == "stringField").unwrap();
    match &string_field.value {
        DataType::Str(Some(v)) => assert_eq!(v, "test"),
        _ => panic!("Expected Str(Some(\"test\"))"),
    }

    let int_field = fields.iter().find(|f| f.name == "intField").unwrap();
    match &int_field.value {
        DataType::Int32(Some(n)) => assert_eq!(*n, 42),
        _ => panic!("Expected Int32(Some(42))"),
    }

    let long_field = fields.iter().find(|f| f.name == "longField").unwrap();
    match &long_field.value {
        DataType::Int64(Some(n)) => assert_eq!(*n, 9_223_372_036_854_775_807),
        _ => panic!("Expected Int64(Some(9223372036854775807))"),
    }

    let double_field = fields.iter().find(|f| f.name == "doubleField").unwrap();
    match &double_field.value {
        DataType::Double(Some(t)) => assert_eq!(t, "42.5"),
        _ => panic!("Expected Double(Some(\"42.5\"))"),
    }

    let bool_field = fields.iter().find(|f| f.name == "boolField").unwrap();
    match &bool_field.value {
        DataType::Boolean(Some(b)) => assert!(*b),
        _ => panic!("Expected Boolean(Some(true))"),
    }

    let date_field = fields.iter().find(|f| f.name == "dateField").unwrap();
    match &date_field.value {
        DataType::Timestamp(Some(v)) => assert_eq!(v, "2026-01-30T12:00:00Z"),
        _ => panic!("Expected Timestamp(Some(\"2026-01-30T12:00:00Z\"))"),
    }

    let binary_field = fields.iter().find(|f| f.name == "binaryField").unwrap();
    match &binary_field.value {
        DataType::Binary(Some(data)) => assert_eq!(data, b"Hello World"),
        _ => panic!("Expected Binary(Some(b\"Hello World\"))"),
    }

    let guid_field = fields.iter().find(|f| f.name == "guidField").unwrap();
    match &guid_field.value {
        DataType::Str(Some(v)) => assert_eq!(v, "123e4567-e89b-12d3-a456-426614174000"),
        _ => panic!("Expected Str(Some(\"123e4567-e89b-12d3-a456-426614174000\"))"),
    }
}

#[test]
fn test_parse_multiple_rows() {
    let entities = vec![
        vec![
            pair("odata.etag", s("etag1")),
            pair("PartitionKey", s("p1")),
            pair("RowKey", s("r1")),
            pair("Timestamp", s("2026-01-30T12:00:00Z")),
            pair("name", s("Alice")),
            pair("name@odata.type", s("Edm.String")),
            pair("age", JsonValue::Int(30)),
            pair("age@odata.type", s("Edm.Int32")),
        ],
        vec![
            pair("odata.etag", s("etag2")),
            pair("PartitionKey", s("p1")),
            pair("RowKey", s("r2")),
            pair("Timestamp", s("2026-01-30T12:00:00Z")),
            pair("name", s("Bob")),
            pair("name@odata.type", s("Edm.String")),
            pair("age", JsonValue::Int(25)),
            pair("age@odata.type", s("Edm.Int32")),
        ],
    ];

    let result = parse(&entities).unwrap();
    assert_eq!(result.len(), 2);

    assert_eq!(result[0].index, "r1");
    assert_eq!(result[0].fields.len(), 2);
    let name_field = result[0].fields.iter().find(|f| f.name == "name").unwrap();
    match &name_field.value {
        DataType::Str(Some(v)) => assert_eq!(v, "Alice"),
        _ => panic!("Expected Str(Some(\"Alice\"))"),
    }
    let age_field = result[0].fields.iter().find(|f| f.name == "age").unwrap();
    match &age_field.value {
        DataType::Int32(Some(n)) => assert_eq!(*n, 30),
        _ => panic!("Expected Int32(Some(30))"),
    }

    assert_eq!(result[1].index, "r2");
    assert_eq!(result[1].fields.len(), 2);
    let name_field = result[1].fields.iter().find(|f| f.name == "name").unwrap();
    match &name_field.value {
        DataType::Str(Some(v)) => assert_eq!(v, "Bob"),
        _ => panic!("Expected Str(Some(\"Bob\"))"),
    }
    let age_field = result[1].fields.iter().find(|f| f.name == "age").unwrap();
    match &age_field.value {
        DataType::Int32(Some(n)) => assert_eq!(*n, 25),
        _ => panic!("Expected Int32(Some(25))"),
    }
}

#[test]
fn test_parse_infers_type_when_tag_absent() {
    let entities = vec![vec![
        pair("odata.etag", s("etag1")),
        pair("PartitionKey", s("p1")),
        pair("RowKey", s("r1")),
        pair("Timestamp", s("2026-01-30T12:00:00Z")),
        pair("name", s("John Doe")),
        pair("count", JsonValue::Int(3)),
        pair("ratio", JsonValue::Float("0.5".to_string())),
        pair("active", JsonValue::Bool(false)),
    ]];

    let result = parse(&entities).unwrap();
    assert_eq!(result[0].fields.len(), 4);
    let name = result[0].fields.iter().find(|f| f.name == "name").unwrap();
    assert_eq!(name.value, DataType::Str(Some("John Doe".to_string())));
    let count = result[0].fields.iter().find(|f| f.name == "count").unwrap();
    assert_eq!(count.value, DataType::Int32(Some(3)));
    let ratio = result[0].fields.iter().find(|f| f.name == "ratio").unwrap();
    assert_eq!(ratio.value, DataType::Double(Some("0.5".to_string())));
    let active = result[0].fields.iter().find(|f| f.name == "active").unwrap();
    assert_eq!(active.value, DataType::Boolean(Some(false)));
}

#[test]
fn test_parse_skips_system_fields() {
    let entities = vec![vec![
        pair("odata.etag", s("etag1")),
        pair("odata.metadata", s("https://example.table.core.windows.net/$metadata#table")),
        pair("PartitionKey", s("partition1")),
        pair("RowKey", s("row1")),
        pair("Timestamp", s("2026-01-30T12:00:00Z")),
        pair("customField", s("value")),
        pair("customField@odata.type", s("Edm.String")),
    ]];

    let result = parse(&entities).unwrap();
    assert_eq!(result.len(), 1);
    // Should only have customField, not PartitionKey, RowKey, Timestamp, or other system pairs
    assert_eq!(result[0].fields.len(), 1);
    assert_eq!(result[0].fields[0].name, "customField");
}

#[test]
fn test_parse_int32_out_of_range() {
    let entities = vec![vec![
        pair("odata.etag", s("etag1")),
        pair("PartitionKey", s("p1")),
        pair("RowKey", s("r1")),
        pair("Timestamp", s("2026-01-30T12:00:00Z")),
        pair("largeInt", JsonValue::Int(9_223_372_036_854_775_807_i64)),
        pair("largeInt@odata.type", s("Edm.Int32")),
    ]];

    let result = parse(&entities);
    assert!(result.is_err());
    assert_eq!(result.unwrap_err(), Error::NumericOverflow("largeInt".to_string()));
}

#[test]
fn test_parse_unsupported_data_type() {
    let entities = vec![vec![
        pair("odata.etag", s("etag1")),
        pair("PartitionKey", s("p1")),
        pair("RowKey", s("r1")),
        pair("Timestamp", s("2026-01-30T12:00:00Z")),
        pair("unknownField", s("value")),
        pair("unknownField@odata.type", s("Edm.Unsupported")),
    ]];

    let result = parse(&entities);
    assert!(result.is_err());
    assert_eq!(result.unwrap_err(), Error::UnsupportedType("Edm.Unsupported".to_string()));
}

#[test]
fn test_parse_invalid_base64_fails() {
    let entities = vec![vec![
        pair("RowKey", s("r1")),
        pair("blob", s("!!!not base64!!!")),
        pair("blob@odata.type", s("Edm.Binary")),
    ]];

    let result = parse(&entities);
    assert_eq!(result.unwrap_err(), Error::InvalidEncoding("blob".to_string()));
}

#[test]
fn test_parse_null_values() {
    let entities = vec![vec![
        pair("odata.etag", s("etag1")),
        pair("PartitionKey", s("p1")),
        pair("RowKey", s("r1")),
        pair("Timestamp", s("2026-01-30T12:00:00Z")),
        pair("nullString", JsonValue::Null),
        pair("nullString@odata.type", s("Edm.String")),
        pair("nullInt", JsonValue::Null),
        pair("nullInt@odata.type", s("Edm.Int32")),
    ]];

    let result = parse(&entities).unwrap();
    assert_eq!(result.len(), 1);
    assert_eq!(result[0].fields.len(), 2);

    let null_string = result[0].fields.iter().find(|f| f.name == "nullString").unwrap();
    match &null_string.value {
        DataType::Str(None) => {},
        _ => panic!("Expected Str(None), got: {:?}", null_string.value),
    }

    let null_int = result[0].fields.iter().find(|f| f.name == "nullInt").unwrap();
    match &null_int.value {
        DataType::Int32(None) => {},
        _ => panic!("Expected Int32(None), got: {:?}", null_int.value),
    }
}

#[test]
fn test_marshal_then_parse_round_trip() {
    let fields = vec![
        Field { name: "Name".to_string(), value: DataType::Str(Some("Alice".to_string())) },
        Field { name: "Age".to_string(), value: DataType::Int32(Some(30)) },
        Field { name: "Big".to_string(), value: DataType::Int64(Some(1 << 40)) },
        Field { name: "Ratio".to_string(), value: DataType::Double(Some("2.5".to_string())) },
        Field { name: "Active".to_string(), value: DataType::Boolean(Some(true)) },
        Field {
            name: "Seen".to_string(),
            value: DataType::Timestamp(Some("2026-01-30T12:00:00Z".to_string())),
        },
        Field { name: "Blob".to_string(), value: DataType::Binary(Some(vec![0, 159, 146, 150])) },
    ];
    let phrase = ExecPhrase {
        action: ExecAction::Insert,
        partition: "p".to_string(),
        row: "r".to_string(),
        entity: fields.clone(),
    };

    let wire = phrase.entity_to_json().unwrap().unwrap();
    let rows = parse(&vec![wire]).unwrap();
    assert_eq!(rows.len(), 1);
    assert_eq!(rows[0].fields, fields);
}
