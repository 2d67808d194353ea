use aztable_sql::error::Error;
use aztable_sql::json::JsonValue;
use aztable_sql::stmt::{ExecAction, ExecPhrase};
use aztable_sql::value::{DataType, Field};

fn get<'a>(obj: &'a [(String, JsonValue)], key: &str) -> Option<&'a JsonValue> {
    obj.iter().find(|p| p.0 == key).map(|p| &p.1)
}

fn as_str(v: &JsonValue) -> &str {
    match v {
        JsonValue::Str(s) => s.as_str(),
        _ => panic!("expected a string value, got {v:?}"),
    }
}

fn as_i64(v: &JsonValue) -> i64 {
    match v {
        JsonValue::Int(n) => *n,
        _ => panic!("expected an integer value, got {v:?}"),
    }
}

#[test]
fn entity_to_json_empty() {
    let exec_phrase = ExecPhrase {
        action: ExecAction::Delete,
        partition: String::new(),
        row: String::new(),
        entity: Vec::new(),
    };

    let result = exec_phrase.entity_to_json().unwrap();
    assert!(result.is_none());
}

#[test]
fn entity_to_json_with_partition_and_row_keys() {
    let exec_phrase = ExecPhrase {
        action: ExecAction::Insert,
        partition: "partition1".to_string(),
        row: "row1".to_string(),
        entity: vec![
            Field {
                name: "PartitionKey".to_string(),
                value: DataType::Str(Some("partition1".to_string())),
            },
            Field {
                name: "RowKey".to_string(),
                value: DataType::Str(Some("row1".to_string())),
            },
            Field {
                name: "Name".to_string(),
                value: DataType::Str(Some("Alice".to_string())),
            },
        ],
    };

    let result = exec_phrase.entity_to_json().unwrap().unwrap();

    assert_eq!(as_str(get(&result, "PartitionKey").unwrap()), "partition1");
    assert_eq!(as_str(get(&result, "RowKey").unwrap()), "row1");
}

#[test]
fn entity_to_json_inferable_types_no_metadata() {
    let exec_phrase = ExecPhrase {
        action: ExecAction::Insert,
        partition: "partition1".to_string(),
        row: "row1".to_string(),
        entity: vec![
            Field {
                name: "PartitionKey".to_string(),
                value: DataType::Str(Some("partition1".to_string())),
            },
            Field {
                name: "RowKey".to_string(),
                value: DataType::Str(Some("row1".to_string())),
            },
            Field {
                name: "stringField".to_string(),
                value: DataType::Str(Some("test".to_string())),
            },
            Field {
                name: "boolField".to_string(),
                value: DataType::Boolean(Some(true)),
            },
            Field {
                name: "intField".to_string(),
                value: DataType::Int32(Some(42)),
            },
            Field {
                name: "doubleField".to_string(),
                value: DataType::Double(Some(format!("{}", 3.94_f64))),
            },
        ],
    };

    let result = exec_phrase.entity_to_json().unwrap().unwrap();

    // Check values are correct
    assert_eq!(as_str(get(&result, "stringField").unwrap()), "test");
    assert_eq!(get(&result, "boolField").unwrap(), &JsonValue::Bool(true));
    assert_eq!(as_i64(get(&result, "intField").unwrap()), 42);
    assert_eq!(get(&result, "doubleField").unwrap(), &JsonValue::Float("3.94".to_string()));

    // Check that NO type metadata is present for inferable types
    assert!(get(&result, "stringField@odata.type").is_none());
    assert!(get(&result, "boolField@odata.type").is_none());
    assert!(get(&result, "intField@odata.type").is_none());
    assert!(get(&result, "doubleField@odata.type").is_none());
}

#[test]
fn entity_to_json_non_inferable_types_with_metadata() {
    let exec_phrase = ExecPhrase {
        action: ExecAction::Insert,
        partition: "partition1".to_string(),
        row: "row1".to_string(),
        entity: vec![
            Field {
                name: "PartitionKey".to_string(),
                value: DataType::Str(Some("partition1".to_string())),
            },
            Field {
                name: "RowKey".to_string(),
                value: DataType::Str(Some("row1".to_string())),
            },
            Field {
                name: "longField".to_string(),
                value: DataType::Int64(Some(9_223_372_036_854_775_807)),
            },
            Field {
                name: "timestampField".to_string(),
                value: DataType::Timestamp(Some("2026-01-30T12:00:00Z".to_string())),
            },
            Field {
                name: "floatField".to_string(),
                value: DataType::Float(Some(format!("{}", 1.5_f32))),
            },
        ],
    };

    let result = exec_phrase.entity_to_json().unwrap().unwrap();

    // Check values
    assert_eq!(as_i64(get(&result, "longField").unwrap()), 9_223_372_036_854_775_807);
    assert_eq!(as_str(get(&result, "timestampField").unwrap()), "2026-01-30T12:00:00Z");
    assert_eq!(get(&result, "floatField").unwrap(), &JsonValue::Float("1.5".to_string()));

    // Check that type metadata IS present for non-inferable types
    assert_eq!(as_str(get(&result, "longField@odata.type").unwrap()), "Edm.Int64");
    assert_eq!(as_str(get(&result, "timestampField@odata.type").unwrap()), "Edm.DateTime");
    assert_eq!(as_str(get(&result, "floatField@odata.type").unwrap()), "Edm.Double");
}

#[test]
fn entity_to_json_various_types() {
    let exec_phrase = ExecPhrase {
        action: ExecAction::Insert,
        partition: "partition1".to_string(),
        row: "row1".to_string(),
        entity: vec![
            Field {
                name: "PartitionKey".to_string(),
                value: DataType::Str(Some("partition1".to_string())),
            },
            Field {
                name: "RowKey".to_string(),
                value: DataType::Str(Some("row1".to_string())),
            },
            Field {
                name: "binaryField".to_string(),
                value: DataType::Binary(Some(b"Hello World".to_vec())),
            },
            Field {
                name: "dateField".to_string(),
                value: DataType::Date(Some("2026-01-30".to_string())),
            },
            Field {
                name: "timeField".to_string(),
                value: DataType::Time(Some("12:00:00".to_string())),
            },
            Field {
                name: "nullString".to_string(),
                value: DataType::Str(None),
            },
            Field {
                name: "nullInt".to_string(),
                value: DataType::Int32(None),
            },
            Field {
                name: "nullBinary".to_string(),
                value: DataType::Binary(None),
            },
            Field {
                name: "uint32Field".to_string(),
                value: DataType::Uint32(Some(4_294_967_295)),
            },
            Field {
                name: "uint64Field".to_string(),
                value: DataType::Uint64(Some(1000)),
            },
        ],
    };

    let result = exec_phrase.entity_to_json().unwrap().unwrap();

    // Check base64 encoded value
    assert_eq!(as_str(get(&result, "binaryField").unwrap()), "SGVsbG8gV29ybGQ=");
    assert_eq!(as_str(get(&result, "binaryField@odata.type").unwrap()), "Edm.Binary");
    assert_eq!(as_str(get(&result, "dateField").unwrap()), "2026-01-30");
    assert_eq!(as_str(get(&result, "dateField@odata.type").unwrap()), "Edm.DateTime");
    assert_eq!(as_str(get(&result, "timeField").unwrap()), "12:00:00");
    assert_eq!(as_str(get(&result, "timeField@odata.type").unwrap()), "Edm.DateTime");

    // Null values should be absent from the JSON, not present with null value
    assert!(get(&result, "nullString").is_none());
    assert!(get(&result, "nullInt").is_none());
    assert!(get(&result, "nullBinary").is_none());

    // Metadata should also be absent when the value is null
    assert!(get(&result, "nullBinary@odata.type").is_none());

    // Uint32 should be converted to Int64
    assert_eq!(as_i64(get(&result, "uint32Field").unwrap()), 4_294_967_295);
    assert_eq!(as_str(get(&result, "uint32Field@odata.type").unwrap()), "Edm.Int64");

    // Uint64 should be converted to Int64
    assert_eq!(as_i64(get(&result, "uint64Field").unwrap()), 1000);
    assert_eq!(as_str(get(&result, "uint64Field@odata.type").unwrap()), "Edm.Int64");
}

#[test]
fn entity_to_json_uint64_overflow() {
    let exec_phrase = ExecPhrase {
        action: ExecAction::Insert,
        partition: "partition1".to_string(),
        row: "row1".to_string(),
        entity: vec![
            Field {
                name: "PartitionKey".to_string(),
                value: DataType::Str(Some("partition1".to_string())),
            },
            Field {
                name: "RowKey".to_string(),
                value: DataType::Str(Some("row1".to_string())),
            },
            Field {
                name: "hugeUint64".to_string(),
                value: DataType::Uint64(Some(u64::MAX)),
            },
        ],
    };

    let result = exec_phrase.entity_to_json();
    assert!(result.is_err());
    assert_eq!(result.unwrap_err(), Error::NumericOverflow("hugeUint64".to_string()));
}

#[test]
fn parse_insert_valid() {
    let query = "INSERT INTO table (PartitionKey, RowKey, Name, Age) VALUES ($1, $2, $3, $4)";
    let params = vec![
        DataType::Str(Some("part1".to_string())),
        DataType::Str(Some("row1".to_string())),
        DataType::Str(Some("Alice".to_string())),
        DataType::Int32(Some(30)),
    ];

    let result = ExecPhrase::parse(query, &params).unwrap();

    assert_eq!(result.partition, "part1");
    assert_eq!(result.row, "row1");
    // The key fields are carried separately; entity holds the rest.
    assert_eq!(result.entity.len(), 2);
    assert_eq!(result.entity[0].name, "Name");
    assert_eq!(result.entity[1].name, "Age");
}

#[test]
fn parse_insert_missing_partition_key() {
    let query = "INSERT INTO table (RowKey, Name) VALUES ($1, $2)";
    let params =
        vec![DataType::Str(Some("row1".to_string())), DataType::Str(Some("Alice".to_string()))];

    let result = ExecPhrase::parse(query, &params);
    assert!(result.is_err());
    assert_eq!(result.unwrap_err(), Error::MissingKeyField("PartitionKey".to_string()));
}

#[test]
fn parse_insert_missing_row_key() {
    let query = "INSERT INTO table (PartitionKey, Name) VALUES ($1, $2)";
    let params = vec![
        DataType::Str(Some("part1".to_string())),
        DataType::Str(Some("Alice".to_string())),
    ];

    let result = ExecPhrase::parse(query, &params);
    assert!(result.is_err());
    assert_eq!(result.unwrap_err(), Error::MissingKeyField("RowKey".to_string()));
}

#[test]
fn parse_insert_mismatched_columns_values() {
    let query = "INSERT INTO table (PartitionKey, RowKey, Name) VALUES ($1, $2)";
    let params =
        vec![DataType::Str(Some("part1".to_string())), DataType::Str(Some("row1".to_string()))];

    let result = ExecPhrase::parse(query, &params);
    assert!(result.is_err());
    assert_eq!(result.unwrap_err(), Error::ColumnValueMismatch(3, 2));
}

#[test]
fn parse_insert_out_of_bounds_param() {
    let query = "INSERT INTO table (PartitionKey, RowKey, Name) VALUES ($1, $2, $5)";
    let params =
        vec![DataType::Str(Some("part1".to_string())), DataType::Str(Some("row1".to_string()))];

    let result = ExecPhrase::parse(query, &params);
    assert!(result.is_err());
    assert_eq!(result.unwrap_err(), Error::ParameterOutOfRange(5));
}

#[test]
fn parse_update_valid() {
    let query = "UPDATE table SET Name = $1, Age = $2 WHERE PartitionKey = $3 AND RowKey = $4";
    let params = vec![
        DataType::Str(Some("Bob".to_string())),
        DataType::Int32(Some(25)),
        DataType::Str(Some("part1".to_string())),
        DataType::Str(Some("row1".to_string())),
    ];

    let result = ExecPhrase::parse(query, &params).unwrap();

    assert_eq!(result.partition, "part1");
    assert_eq!(result.row, "row1");
    assert_eq!(result.entity.len(), 2);
    assert_eq!(result.entity[0].name, "Name");
    assert_eq!(result.entity[1].name, "Age");
}

#[test]
fn parse_update_missing_where_clause() {
    let query = "UPDATE table SET Name = $1";
    let params = vec![DataType::Str(Some("Bob".to_string()))];

    let result = ExecPhrase::parse(query, &params);
    assert!(result.is_err());
    assert_eq!(result.unwrap_err(), Error::MissingWhereClause);
}

#[test]
fn parse_update_empty_where_clause() {
    let query = "UPDATE table SET Name = $1 WHERE ";
    let params = vec![DataType::Str(Some("Bob".to_string()))];

    let result = ExecPhrase::parse(query, &params);
    assert!(result.is_err());
    assert_eq!(result.unwrap_err(), Error::MissingWhereClause);
}

#[test]
fn parse_update_missing_partition_key_in_where() {
    let query = "UPDATE table SET Name = $1 WHERE RowKey = $2";
    let params =
        vec![DataType::Str(Some("Bob".to_string())), DataType::Str(Some("row1".to_string()))];

    let result = ExecPhrase::parse(query, &params);
    assert!(result.is_err());
    assert_eq!(result.unwrap_err(), Error::MissingKeyField("PartitionKey".to_string()));
}

#[test]
fn parse_update_missing_row_key_in_where() {
    let query = "UPDATE table SET Name = $1 WHERE PartitionKey = $2";
    let params =
        vec![DataType::Str(Some("Bob".to_string())), DataType::Str(Some("part1".to_string()))];

    let result = ExecPhrase::parse(query, &params);
    assert!(result.is_err());
    assert_eq!(result.unwrap_err(), Error::MissingKeyField("RowKey".to_string()));
}

#[test]
fn parse_update_extra_where_conditions() {
    let query =
        "UPDATE table SET Name = $1 WHERE PartitionKey = $2 AND RowKey = $3 AND Age = $4";
    let params = vec![
        DataType::Str(Some("Bob".to_string())),
        DataType::Str(Some("part1".to_string())),
        DataType::Str(Some("row1".to_string())),
        DataType::Int32(Some(30)),
    ];

    let result = ExecPhrase::parse(query, &params);
    assert!(result.is_err());
    assert_eq!(result.unwrap_err(), Error::UnsupportedPredicate);
}

#[test]
fn parse_update_out_of_bounds_param() {
    let query = "UPDATE table SET Name = $5 WHERE PartitionKey = $1 AND RowKey = $2";
    let params =
        vec![DataType::Str(Some("part1".to_string())), DataType::Str(Some("row1".to_string()))];

    let result = ExecPhrase::parse(query, &params);
    assert!(result.is_err());
    assert_eq!(result.unwrap_err(), Error::ParameterOutOfRange(5));
}

#[test]
fn parse_delete_valid() {
    let query = "DELETE FROM table WHERE PartitionKey = $1 AND RowKey = $2";
    let params =
        vec![DataType::Str(Some("part1".to_string())), DataType::Str(Some("row1".to_string()))];

    let result = ExecPhrase::parse(query, &params).unwrap();

    assert_eq!(result.partition, "part1");
    assert_eq!(result.row, "row1");
    assert_eq!(result.entity.len(), 0); // DELETE doesn't have entity fields
}

#[test]
fn parse_delete_missing_where_clause() {
    let query = "DELETE FROM table";
    let params = vec![];

    let result = ExecPhrase::parse(query, &params);
    assert!(result.is_err());
    assert_eq!(result.unwrap_err(), Error::MissingWhereClause);
}

#[test]
fn parse_delete_empty_where_clause() {
    let query = "DELETE FROM table WHERE ";
    let params = vec![];

    let result = ExecPhrase::parse(query, &params);
    assert!(result.is_err());
    assert_eq!(result.unwrap_err(), Error::MissingWhereClause);
}

#[test]
fn parse_delete_missing_partition_key_in_where() {
    let query = "DELETE FROM table WHERE RowKey = $1";
    let params = vec![DataType::Str(Some("row1".to_string()))];

    let result = ExecPhrase::parse(query, &params);
    assert!(result.is_err());
    assert_eq!(result.unwrap_err(), Error::MissingKeyField("PartitionKey".to_string()));
}

#[test]
fn parse_delete_missing_row_key_in_where() {
    let query = "DELETE FROM table WHERE PartitionKey = $1";
    let params = vec![DataType::Str(Some("part1".to_string()))];

    let result = ExecPhrase::parse(query, &params);
    assert!(result.is_err());
    assert_eq!(result.unwrap_err(), Error::MissingKeyField("RowKey".to_string()));
}

#[test]
fn parse_delete_extra_where_conditions() {
    let query = "DELETE FROM table WHERE PartitionKey = $1 AND RowKey = $2 AND Age = $3";
    let params = vec![
        DataType::Str(Some("part1".to_string())),
        DataType::Str(Some("row1".to_string())),
        DataType::Int32(Some(30)),
    ];

    let result = ExecPhrase::parse(query, &params);
    assert!(result.is_err());
    assert_eq!(result.unwrap_err(), Error::UnsupportedPredicate);
}

#[test]
fn parse_delete_out_of_bounds_param() {
    let query = "DELETE FROM table WHERE PartitionKey = $5 AND RowKey = $2";
    let params = vec![DataType::Str(Some("row1".to_string()))];

    let result = ExecPhrase::parse(query, &params);
    assert!(result.is_err());
    assert_eq!(result.unwrap_err(), Error::ParameterOutOfRange(5));
}

#[test]
fn parse_non_write_statement_unsupported() {
    let result = ExecPhrase::parse("SELECT * FROM t", &[]);
    assert_eq!(result.unwrap_err(), Error::UnsupportedStatement);
}

#[test]
fn parse_insert_missing_values_malformed() {
    let query = "INSERT INTO table (PartitionKey, RowKey)";
    let result = ExecPhrase::parse(query, &[]);
    assert_eq!(result.unwrap_err(), Error::MalformedQuery("VALUES".to_string()));
}

#[test]
fn parse_insert_non_placeholder_value_malformed() {
    let query = "INSERT INTO table (PartitionKey, RowKey) VALUES ($1, 'abc')";
    let params = vec![DataType::Str(Some("part1".to_string()))];
    let result = ExecPhrase::parse(query, &params);
    assert_eq!(result.unwrap_err(), Error::MalformedQuery("'abc'".to_string()));
}

#[test]
fn parse_insert_non_string_key_invalid() {
    let query = "INSERT INTO table (PartitionKey, RowKey) VALUES ($1, $2)";
    let params = vec![DataType::Int32(Some(7)), DataType::Str(Some("row1".to_string()))];
    let result = ExecPhrase::parse(query, &params);
    assert_eq!(result.unwrap_err(), Error::InvalidKeyType("PartitionKey".to_string()));
}

#[test]
fn parse_update_set_pair_without_placeholder_malformed() {
    let query = "UPDATE table SET Name = 'Bob' WHERE PartitionKey = $1 AND RowKey = $2";
    let params =
        vec![DataType::Str(Some("part1".to_string())), DataType::Str(Some("row1".to_string()))];
    let result = ExecPhrase::parse(query, &params);
    assert_eq!(result.unwrap_err(), Error::MalformedQuery("'Bob'".to_string()));
}

#[test]
fn parse_update_set_key_field_excluded_from_entity() {
    let query = "UPDATE table SET PartitionKey = $1, Name = $2 WHERE PartitionKey = $3 AND RowKey = $4";
    let params = vec![
        DataType::Str(Some("part2".to_string())),
        DataType::Str(Some("Bob".to_string())),
        DataType::Str(Some("part1".to_string())),
        DataType::Str(Some("row1".to_string())),
    ];

    let result = ExecPhrase::parse(query, &params).unwrap();

    // The key fields are carried separately; entity holds the rest.
    assert_eq!(result.partition, "part1");
    assert_eq!(result.row, "row1");
    assert_eq!(result.entity.len(), 1);
    assert_eq!(result.entity[0].name, "Name");
}
