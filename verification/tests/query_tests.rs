use aztable_sql::error::Error;
use aztable_sql::query::QueryPhrases;
use aztable_sql::value::DataType;

#[test]
fn test_simple_select() {
    let query = "SELECT * FROM users";
    let result = QueryPhrases::query(query, &[]).unwrap();

    assert_eq!(result.select, Some("*".to_string()));
    assert_eq!(result.filter, None);
    assert_eq!(result.top, None);
}

#[test]
fn test_select_with_columns() {
    let query = "SELECT id, name, email FROM users";
    let result = QueryPhrases::query(query, &[]).unwrap();

    assert_eq!(result.select, Some("id, name, email".to_string()));
    assert_eq!(result.filter, None);
    assert_eq!(result.top, None);
}

#[test]
fn test_select_with_where() {
    let query = "SELECT * FROM users WHERE age > 18";
    let result = QueryPhrases::query(query, &[]).unwrap();

    assert_eq!(result.select, Some("*".to_string()));
    assert_eq!(result.filter, Some("age > 18".to_string()));
    assert_eq!(result.top, None);
}

#[test]
fn test_select_with_top() {
    let query = "SELECT TOP 10 * FROM users";
    let result = QueryPhrases::query(query, &[]).unwrap();

    assert_eq!(result.select, Some("*".to_string()));
    assert_eq!(result.filter, None);
    assert_eq!(result.top, Some(10));
}

#[test]
fn test_select_with_top_and_where() {
    let query = "SELECT TOP 5 name, email FROM users WHERE active = true";
    let result = QueryPhrases::query(query, &[]).unwrap();

    assert_eq!(result.select, Some("name, email".to_string()));
    assert_eq!(result.filter, Some("active = true".to_string()));
    assert_eq!(result.top, Some(5));
}

#[test]
fn test_parameterized_query_with_int() {
    let query = "SELECT * FROM users WHERE id = $1";
    let params = vec![DataType::Int32(Some(42))];
    let result = QueryPhrases::query(query, &params).unwrap();

    assert_eq!(result.select, Some("*".to_string()));
    assert_eq!(result.filter, Some("id = 42".to_string()));
    assert_eq!(result.top, None);
}

#[test]
fn test_parameterized_query_with_string() {
    let query = "SELECT * FROM users WHERE name = $1";
    let params = vec![DataType::Str(Some("John O'Brien".to_string()))];
    let result = QueryPhrases::query(query, &params).unwrap();

    assert_eq!(result.select, Some("*".to_string()));
    assert_eq!(result.filter, Some("name = 'John O''Brien'".to_string()));
    assert_eq!(result.top, None);
}

#[test]
fn test_parameterized_query_multiple_params() {
    let query = "SELECT * FROM users WHERE age > $1 AND name = $2";
    let params = vec![DataType::Int32(Some(18)), DataType::Str(Some("Alice".to_string()))];
    let result = QueryPhrases::query(query, &params).unwrap();

    assert_eq!(result.select, Some("*".to_string()));
    assert_eq!(result.filter, Some("age > 18 AND name = 'Alice'".to_string()));
    assert_eq!(result.top, None);
}

#[test]
fn test_parameterized_query_with_null() {
    let query = "SELECT * FROM users WHERE email = $1";
    let params = vec![DataType::Str(None)];
    let result = QueryPhrases::query(query, &params).unwrap();

    assert_eq!(result.select, Some("*".to_string()));
    assert_eq!(result.filter, Some("email = NULL".to_string()));
    assert_eq!(result.top, None);
}

#[test]
fn test_parameterized_query_with_boolean() {
    let query = "SELECT * FROM users WHERE active = $1";
    let params = vec![DataType::Boolean(Some(true))];
    let result = QueryPhrases::query(query, &params).unwrap();

    assert_eq!(result.select, Some("*".to_string()));
    assert_eq!(result.filter, Some("active = true".to_string()));
    assert_eq!(result.top, None);
}

#[test]
fn test_parameterized_query_with_float() {
    let query = "SELECT * FROM products WHERE price > $1";
    let params = vec![DataType::Double(Some(format!("{}", 99.99_f64)))];
    let result = QueryPhrases::query(query, &params).unwrap();

    assert_eq!(result.select, Some("*".to_string()));
    assert_eq!(result.filter, Some("price > 99.99".to_string()));
    assert_eq!(result.top, None);
}

#[test]
fn test_parameterized_query_with_date() {
    let query = "SELECT * FROM events WHERE created_at > $1";
    let params = vec![DataType::Date(Some("2026-01-29".to_string()))];
    let result = QueryPhrases::query(query, &params).unwrap();

    assert_eq!(result.select, Some("*".to_string()));
    assert_eq!(result.filter, Some("created_at > '2026-01-29'".to_string()));
    assert_eq!(result.top, None);
}

#[test]
fn test_join_returns_error() {
    let query = "SELECT * FROM users JOIN orders ON users.id = orders.user_id";
    let result = QueryPhrases::query(query, &[]);

    assert!(result.is_err());
    assert_eq!(result.unwrap_err(), Error::UnsupportedClause("JOIN".to_string()));
}

#[test]
fn test_order_by_returns_error() {
    let query = "SELECT * FROM users ORDER BY name";
    let result = QueryPhrases::query(query, &[]);

    assert!(result.is_err());
    assert_eq!(result.unwrap_err(), Error::UnsupportedClause("ORDER BY".to_string()));
}

#[test]
fn test_binary_parameter_returns_error() {
    let query = "SELECT * FROM files WHERE data = $1";
    let params = vec![DataType::Binary(Some(vec![1, 2, 3]))];
    let result = QueryPhrases::query(query, &params);

    assert!(result.is_err());
    assert_eq!(result.unwrap_err(), Error::UnsupportedParameterType(1));
}

#[test]
fn test_complex_where_clause() {
    let query = "SELECT name, age FROM users WHERE age >= $1 AND (status = $2 OR role = $3)";
    let params = vec![
        DataType::Int32(Some(21)),
        DataType::Str(Some("active".to_string())),
        DataType::Str(Some("admin".to_string())),
    ];
    let result = QueryPhrases::query(query, &params).unwrap();

    assert_eq!(result.select, Some("name, age".to_string()));
    assert_eq!(
        result.filter,
        Some("age >= 21 AND (status = 'active' OR role = 'admin')".to_string())
    );
    assert_eq!(result.top, None);
}

#[test]
fn test_case_insensitive_keywords() {
    let query = "select * from users where id = $1";
    let params = vec![DataType::Int32(Some(1))];
    let result = QueryPhrases::query(query, &params).unwrap();

    assert_eq!(result.select, Some("*".to_string()));
    assert_eq!(result.filter, Some("id = 1".to_string()));
    assert_eq!(result.top, None);
}

#[test]
fn test_all_numeric_types() {
    let query = "SELECT * FROM data WHERE i32 = $1 AND i64 = $2 AND u32 = $3 AND u64 = $4 AND f32 = $5 AND f64 = $6";
    let params = vec![
        DataType::Int32(Some(100)),
        DataType::Int64(Some(1000)),
        DataType::Uint32(Some(200)),
        DataType::Uint64(Some(2000)),
        DataType::Float(Some(format!("{}", 1.5_f32))),
        DataType::Double(Some(format!("{}", 99.99_f64))),
    ];
    let result = QueryPhrases::query(query, &params).unwrap();

    assert_eq!(result.filter, Some("i32 = 100 AND i64 = 1000 AND u32 = 200 AND u64 = 2000 AND f32 = 1.5 AND f64 = 99.99".to_string()));
}

#[test]
fn test_to_odata_simple() {
    let phrases = QueryPhrases {
        select: Some("*".to_string()),
        filter: Some("age > 18".to_string()),
        top: Some(10),
    };

    let odata = phrases.odata();
    // SELECT * should not be included in OData
    // Operators should be converted and URL-encoded
    assert_eq!(odata, "$filter=age%20gt%2018&$top=10");
}

#[test]
fn test_to_odata_with_select() {
    let phrases = QueryPhrases {
        select: Some("name, email, age".to_string()),
        filter: None,
        top: None,
    };

    let odata = phrases.odata();
    assert_eq!(odata, "$select=name%2C%20email%2C%20age");
}

#[test]
fn test_to_odata_complex_filter() {
    let phrases = QueryPhrases {
        select: Some("name, age".to_string()),
        filter: Some("age >= 21 AND (status = 'active' OR role = 'admin')".to_string()),
        top: Some(5),
    };

    let odata = phrases.odata();
    assert_eq!(
        odata,
        "$select=name%2C%20age&$filter=age%20ge%2021%20and%20%28status%20eq%20%27active%27%20or%20role%20eq%20%27admin%27%29&$top=5"
    );
}

#[test]
fn test_to_odata_all_operators() {
    let phrases = QueryPhrases {
        select: None,
        filter: Some("a = 1 AND b != 2 AND c > 3 AND d >= 4 AND e < 5 AND f <= 6".to_string()),
        top: None,
    };

    let odata = phrases.odata();
    assert_eq!(
        odata,
        "$filter=a%20eq%201%20and%20b%20ne%202%20and%20c%20gt%203%20and%20d%20ge%204%20and%20e%20lt%205%20and%20f%20le%206"
    );
}

#[test]
fn test_to_odata_url_encoding() {
    let phrases = QueryPhrases {
        select: None,
        filter: Some("name = 'John O''Brien'".to_string()),
        top: None,
    };

    let odata = phrases.odata();
    assert_eq!(odata, "$filter=name%20eq%20%27John%20O%27%27Brien%27");
}

#[test]
fn test_compile_and_render_with_top() {
    let query = "SELECT TOP 5 name FROM t WHERE age > $1";
    let params = vec![DataType::Int32(Some(18))];
    let result = QueryPhrases::query(query, &params).unwrap();

    assert_eq!(result.select, Some("name".to_string()));
    assert_eq!(result.filter, Some("age > 18".to_string()));
    assert_eq!(result.top, Some(5));
    assert_eq!(result.odata(), "$select=name&$filter=age%20gt%2018&$top=5");
}

#[test]
fn test_top_without_number_is_malformed() {
    let query = "SELECT TOP x * FROM t";
    let result = QueryPhrases::query(query, &[]);
    assert_eq!(result.unwrap_err(), Error::MalformedQuery("x".to_string()));
}

#[test]
fn test_lowercase_join_rejected() {
    let result = QueryPhrases::query("select * from t join u", &[]);
    assert_eq!(result.unwrap_err(), Error::UnsupportedClause("JOIN".to_string()));
}

#[test]
fn test_star_select_renders_empty() {
    let result = QueryPhrases::query("SELECT * FROM t", &[]).unwrap();
    assert_eq!(result.select, Some("*".to_string()));
    assert_eq!(result.filter, None);
    assert_eq!(result.top, None);
    assert_eq!(result.odata(), "");
}

#[test]
fn test_top_without_count_is_malformed() {
    let result = QueryPhrases::query("SELECT TOP", &[]);
    assert_eq!(result.unwrap_err(), Error::MalformedQuery("TOP".to_string()));

    let result = QueryPhrases::query("select top", &[]);
    assert_eq!(result.unwrap_err(), Error::MalformedQuery("top".to_string()));
}

#[test]
fn test_top_count_as_last_token_is_kept() {
    let result = QueryPhrases::query("SELECT TOP 5", &[]).unwrap();
    assert_eq!(result.select, None);
    assert_eq!(result.filter, None);
    assert_eq!(result.top, Some(5));
}
