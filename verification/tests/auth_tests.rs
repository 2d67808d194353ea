use aztable_sql::auth::auth_header;
use aztable_sql::classify::{compile, CompiledStatement};
use aztable_sql::error::Error;
use aztable_sql::identity::{CredentialType, CredentialTypeParseError};
use aztable_sql::value::DataType;

#[test]
fn auth_header_known_vector() {
    // Key is the base64 of the bytes 0123456789abcdef; the expected value is
    // HMAC-SHA256 over "<date>\n<path>", base64-encoded.
    let header = auth_header(
        "acct",
        "MDEyMzQ1Njc4OWFiY2RlZg==",
        "Mon, 01 Jan 2024 00:00:00 GMT",
        "/acct/tbl()",
    )
    .unwrap();
    assert_eq!(header, "SharedKeyLite acct:b0zBC+5gIfE64c9Bgmx9t1j2EcwXe30KR4Ve2sCvMI8=");
}

#[test]
fn auth_header_is_deterministic() {
    let a = auth_header("acct", "MDEyMzQ1Njc4OWFiY2RlZg==", "Mon, 01 Jan 2024 00:00:00 GMT", "/acct/tbl()")
        .unwrap();
    let b = auth_header("acct", "MDEyMzQ1Njc4OWFiY2RlZg==", "Mon, 01 Jan 2024 00:00:00 GMT", "/acct/tbl()")
        .unwrap();
    assert_eq!(a, b);
}

#[test]
fn auth_header_differs_on_changed_input() {
    let a = auth_header("acct", "MDEyMzQ1Njc4OWFiY2RlZg==", "Mon, 01 Jan 2024 00:00:00 GMT", "/acct/tbl()")
        .unwrap();
    let b = auth_header("acct", "MDEyMzQ1Njc4OWFiY2RlZg==", "Mon, 01 Jan 2024 00:00:00 GMT", "/acct/tbl2()")
        .unwrap();
    assert_ne!(a, b);
    assert_eq!(b, "SharedKeyLite acct:EpCtZ9cSbCje2LLTHZEFc3AgqnzkoDvhka5wdtQW6aA=");
}

#[test]
fn auth_header_invalid_key() {
    let result = auth_header("acct", "not-valid-base64!!!", "date", "/acct/tbl()");
    assert_eq!(result.unwrap_err(), Error::InvalidKey);
}

#[test]
fn credential_type_accepts_known_forms() {
    assert!(CredentialType::from_str("ManagedIdentity").is_ok());
    assert!(CredentialType::from_str("managed_identity").is_ok());
    assert!(CredentialType::from_str(" Managed-Identity ").is_ok());
    assert!(CredentialType::from_str("").is_ok());
}

#[test]
fn credential_type_rejects_unknown_forms() {
    let err = CredentialType::from_str("ServicePrincipal").unwrap_err();
    assert_eq!(err.message(), "unsupported credential type 'ServicePrincipal'");
    assert_eq!(err, CredentialTypeParseError::new("unsupported credential type 'ServicePrincipal'".to_string()));
}

#[test]
fn classify_dispatches_by_leading_keyword() {
    let read = compile("SELECT * FROM t", &[]).unwrap();
    assert!(matches!(read, CompiledStatement::Read(_)));

    let params = vec![
        DataType::Str(Some("p1".to_string())),
        DataType::Str(Some("r1".to_string())),
    ];
    let write = compile("DELETE FROM t WHERE PartitionKey = $1 AND RowKey = $2", &params).unwrap();
    match write {
        CompiledStatement::Write(w) => {
            assert_eq!(w.partition, "p1");
            assert_eq!(w.row, "r1");
        },
        CompiledStatement::Read(_) => panic!("expected a write statement"),
    }
}
