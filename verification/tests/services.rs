use quadratic_core::error::ConnectionError;
use quadratic_core::rooms::{find_stale_users, merge_field, user_is_stale, UserIdentity};
use quadratic_core::sql::{column_kind, ColumnKind, PostgresConnection};
use quadratic_core::text::{integer_to_string, parse_integer};
use quadratic_core::values::CellValue;

#[test]
fn connection_error_messages() {
    let cases = [
        (ConnectionError::Authentication("a".into()), "Authentication error: a"),
        (ConnectionError::Config("b".into()), "Internal server error: b"),
        (ConnectionError::InternalServer("c".into()), "Internal server error: c"),
        (ConnectionError::InvalidToken("d".into()), "Internal token: d"),
        (ConnectionError::Request("e".into()), "Error requesting data: e"),
        (ConnectionError::Serialization("f".into()), "Error serializing or deserializing: f"),
        (ConnectionError::Unknown("g".into()), "unknown error: g"),
    ];
    for (error, message) in cases {
        assert_eq!(error.message(), message);
    }
}

#[test]
fn connection_error_status() {
    assert_eq!(
        ConnectionError::InternalServer("down".into()).into_status(),
        (500, "down".to_string())
    );
    assert_eq!(
        ConnectionError::Authentication("who".into()).into_status(),
        (401, "who".to_string())
    );
    assert_eq!(
        ConnectionError::Request("secret".into()).into_status(),
        (500, "Unknown".to_string())
    );
}

#[test]
fn postgres_connection_new() {
    let connection = PostgresConnection::new(
        Some("postgres".into()),
        Some("postgres".into()),
        "0.0.0.0".into(),
        Some(5432),
        Some("postgres".into()),
    );
    assert_eq!(connection.username.as_deref(), Some("postgres"));
    assert_eq!(connection.password.as_deref(), Some("postgres"));
    assert_eq!(connection.host, "0.0.0.0");
    assert_eq!(connection.port, Some(5432));
    assert_eq!(connection.database.as_deref(), Some("postgres"));
}

#[test]
fn column_kinds() {
    assert_eq!(column_kind("TEXT"), Some(ColumnKind::Text));
    assert_eq!(column_kind("CITEXT"), Some(ColumnKind::Text));
    assert_eq!(column_kind("INT2"), Some(ColumnKind::SmallInt));
    assert_eq!(column_kind("SERIAL"), Some(ColumnKind::Int));
    assert_eq!(column_kind("BIGINT"), Some(ColumnKind::BigInt));
    assert_eq!(column_kind("BOOLEAN"), Some(ColumnKind::Boolean));
    assert_eq!(column_kind("FLOAT4"), Some(ColumnKind::Real));
    assert_eq!(column_kind("DOUBLE PRECISION"), Some(ColumnKind::Double));
    assert_eq!(column_kind("TIMESTAMP"), Some(ColumnKind::Timestamp));
    assert_eq!(column_kind("TIMESTAMPTZ"), Some(ColumnKind::TimestampWithZone));
    assert_eq!(column_kind("DATE"), Some(ColumnKind::Date));
    assert_eq!(column_kind("TIME"), Some(ColumnKind::Time));
    assert_eq!(column_kind("UUID"), Some(ColumnKind::Uuid));
    assert_eq!(column_kind("VOID"), None);
    assert_eq!(column_kind("text"), None);
}

#[test]
fn stale_users() {
    assert!(user_is_stale(100, 5, 106));
    assert!(!user_is_stale(100, 5, 105));
    assert!(user_is_stale(100, -1, 100));
    assert!(!user_is_stale(i64::MAX, i64::MAX, i64::MAX));
    let users = vec![(1, 100), (2, 90), (3, 96), (4, 80)];
    let (stale, remaining) = find_stale_users(&users, 10, 105);
    assert_eq!(stale, vec![2, 4]);
    assert_eq!(remaining, 2);
}

#[test]
fn user_state_fields_are_merged() {
    let mut selection = Some("a".to_string());
    merge_field(&mut selection, None);
    assert_eq!(selection.as_deref(), Some("a"));
    merge_field(&mut selection, Some("b".to_string()));
    assert_eq!(selection.as_deref(), Some("b"));
    let mut x: Option<f64> = None;
    merge_field(&mut x, Some(1.5));
    assert_eq!(x, Some(1.5));
}

#[test]
fn users_are_the_same_by_identity() {
    let user = |session: u128, name: &str| UserIdentity {
        session_id: session,
        user_id: "u".into(),
        first_name: name.into(),
        last_name: "l".into(),
        image: "i".into(),
    };
    assert!(user(1, "a").same_user(&user(1, "a")));
    assert!(!user(1, "a").same_user(&user(2, "a")));
    assert!(!user(1, "a").same_user(&user(1, "b")));
}

#[test]
fn whole_numbers_as_text() {
    assert_eq!(parse_integer("0"), Some(0));
    assert_eq!(parse_integer("-0"), Some(0));
    assert_eq!(parse_integer("007"), Some(7));
    assert_eq!(parse_integer("9223372036854775807"), Some(i64::MAX));
    assert_eq!(parse_integer("-9223372036854775808"), Some(i64::MIN));
    assert_eq!(parse_integer("9223372036854775808"), None);
    assert_eq!(parse_integer("-9223372036854775809"), None);
    assert_eq!(parse_integer(""), None);
    assert_eq!(parse_integer("-"), None);
    assert_eq!(parse_integer("1a"), None);
    assert_eq!(parse_integer("+1"), None);
    assert_eq!(integer_to_string(0), "0");
    assert_eq!(integer_to_string(-45), "-45");
    assert_eq!(integer_to_string(i64::MIN), "-9223372036854775808");
    assert_eq!(integer_to_string(i64::MAX), "9223372036854775807");
    assert_eq!(CellValue::from_text("".into()), CellValue::Blank);
    assert_eq!(CellValue::from_text("12".into()), CellValue::Number(12));
    assert_eq!(CellValue::from_text("12 ".into()), CellValue::Text("12 ".into()));
}
