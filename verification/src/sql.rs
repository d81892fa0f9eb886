//! Connections to PostgreSQL databases, as far as they are data.

use vstd::prelude::*;

verus! {

/// Where a PostgreSQL database is and how to log in to it.
#[derive(Debug)]
pub struct PostgresConnection {
    pub username: Option<String>,
    pub password: Option<String>,
    pub host: String,
    pub port: Option<u16>,
    pub database: Option<String>,
}

/// How the values of a column are read before they are written out as text.
#[derive(Debug, PartialEq, Eq, Structural)]
pub enum ColumnKind {
    Text,
    SmallInt,
    Int,
    BigInt,
    Boolean,
    Real,
    Double,
    Timestamp,
    TimestampWithZone,
    Date,
    Time,
    Uuid,
}

/// How a column of the PostgreSQL type `name` is read; `None` for a type
/// whose values are not read.
pub open spec fn column_kind_of(name: Seq<char>) -> Option<ColumnKind> {
    if name == "TEXT"@ || name == "VARCHAR"@ || name == "CHAR(N)"@ || name == "NAME"@ || name
        == "CITEXT"@ {
        Some(ColumnKind::Text)
    } else if name == "SMALLINT"@ || name == "SMALLSERIAL"@ || name == "INT2"@ {
        Some(ColumnKind::SmallInt)
    } else if name == "INT"@ || name == "SERIAL"@ || name == "INT4"@ {
        Some(ColumnKind::Int)
    } else if name == "BIGINT"@ || name == "BIGSERIAL"@ || name == "INT8"@ {
        Some(ColumnKind::BigInt)
    } else if name == "BOOLEAN"@ {
        Some(ColumnKind::Boolean)
    } else if name == "REAL"@ || name == "FLOAT4"@ {
        Some(ColumnKind::Real)
    } else if name == "DOUBLE PRECISION"@ || name == "FLOAT8"@ {
        Some(ColumnKind::Double)
    } else if name == "TIMESTAMP"@ {
        Some(ColumnKind::Timestamp)
    } else if name == "TIMESTAMPTZ"@ {
        Some(ColumnKind::TimestampWithZone)
    } else if name == "DATE"@ {
        Some(ColumnKind::Date)
    } else if name == "TIME"@ {
        Some(ColumnKind::Time)
    } else if name == "UUID"@ {
        Some(ColumnKind::Uuid)
    } else {
        None
    }
}

/// Whether the two texts are the same.
pub fn same_text(a: &str, b: &str) -> (r: bool)
    ensures
        r == (a@ == b@),
{
    let x = a.to_owned();
    let y = b.to_owned();
    x == y
}

/// How a column of the PostgreSQL type `name` is read.
pub fn column_kind(name: &str) -> (r: Option<ColumnKind>)
    ensures
        r == column_kind_of(name@),
{
    if same_text(name, "TEXT") || same_text(name, "VARCHAR") || same_text(name, "CHAR(N)")
        || same_text(name, "NAME") || same_text(name, "CITEXT") {
        Some(ColumnKind::Text)
    } else if same_text(name, "SMALLINT") || same_text(name, "SMALLSERIAL") || same_text(
        name,
        "INT2",
    ) {
        Some(ColumnKind::SmallInt)
    } else if same_text(name, "INT") || same_text(name, "SERIAL") || same_text(name, "INT4") {
        Some(ColumnKind::Int)
    } else if same_text(name, "BIGINT") || same_text(name, "BIGSERIAL") || same_text(
        name,
        "INT8",
    ) {
        Some(ColumnKind::BigInt)
    } else if same_text(name, "BOOLEAN") {
        Some(ColumnKind::Boolean)
    } else if same_text(name, "REAL") || same_text(name, "FLOAT4") {
        Some(ColumnKind::Real)
    } else if same_text(name, "DOUBLE PRECISION") || same_text(name, "FLOAT8") {
        Some(ColumnKind::Double)
    } else if same_text(name, "TIMESTAMP") {
        Some(ColumnKind::Timestamp)
    } else if same_text(name, "TIMESTAMPTZ") {
        Some(ColumnKind::TimestampWithZone)
    } else if same_text(name, "DATE") {
        Some(ColumnKind::Date)
    } else if same_text(name, "TIME") {
        Some(ColumnKind::Time)
    } else if same_text(name, "UUID") {
        Some(ColumnKind::Uuid)
    } else {
        None
    }
}

impl PostgresConnection {
    /// A connection with the given coordinates.
    pub fn new(
        username: Option<String>,
        password: Option<String>,
        host: String,
        port: Option<u16>,
        database: Option<String>,
    ) -> (r: PostgresConnection)
        ensures
            r == (PostgresConnection { username, password, host, port, database }),
    {
        PostgresConnection { username, password, host, port, database }
    }
}

} // verus!
