use vstd::prelude::*;

verus! {

/// The wire type codes that a binary log names a column by.
#[allow(non_camel_case_types)]
#[derive(Clone, Copy, Debug, PartialEq, Eq, Structural)]
pub enum ColumnType {
    MYSQL_TYPE_DECIMAL,
    MYSQL_TYPE_TINY,
    MYSQL_TYPE_SHORT,
    MYSQL_TYPE_LONG,
    MYSQL_TYPE_FLOAT,
    MYSQL_TYPE_DOUBLE,
    MYSQL_TYPE_NULL,
    MYSQL_TYPE_TIMESTAMP,
    MYSQL_TYPE_LONGLONG,
    MYSQL_TYPE_INT24,
    MYSQL_TYPE_DATE,
    MYSQL_TYPE_TIME,
    MYSQL_TYPE_DATETIME,
    MYSQL_TYPE_YEAR,
    MYSQL_TYPE_NEWDATE,
    MYSQL_TYPE_VARCHAR,
    MYSQL_TYPE_BIT,
    MYSQL_TYPE_TIMESTAMP2,
    MYSQL_TYPE_DATETIME2,
    MYSQL_TYPE_TIME2,
    MYSQL_TYPE_TYPED_ARRAY,
    MYSQL_TYPE_UNKNOWN,
    MYSQL_TYPE_JSON,
    MYSQL_TYPE_NEWDECIMAL,
    MYSQL_TYPE_ENUM,
    MYSQL_TYPE_SET,
    MYSQL_TYPE_TINY_BLOB,
    MYSQL_TYPE_MEDIUM_BLOB,
    MYSQL_TYPE_LONG_BLOB,
    MYSQL_TYPE_BLOB,
    MYSQL_TYPE_VAR_STRING,
    MYSQL_TYPE_STRING,
    MYSQL_TYPE_GEOMETRY,
}

/// The type named by a code byte, if the code is a known one.
pub open spec fn column_type_of(b: u8) -> Option<ColumnType> {
    match b {
        0u8 => Some(ColumnType::MYSQL_TYPE_DECIMAL),
        1u8 => Some(ColumnType::MYSQL_TYPE_TINY),
        2u8 => Some(ColumnType::MYSQL_TYPE_SHORT),
        3u8 => Some(ColumnType::MYSQL_TYPE_LONG),
        4u8 => Some(ColumnType::MYSQL_TYPE_FLOAT),
        5u8 => Some(ColumnType::MYSQL_TYPE_DOUBLE),
        6u8 => Some(ColumnType::MYSQL_TYPE_NULL),
        7u8 => Some(ColumnType::MYSQL_TYPE_TIMESTAMP),
        8u8 => Some(ColumnType::MYSQL_TYPE_LONGLONG),
        9u8 => Some(ColumnType::MYSQL_TYPE_INT24),
        10u8 => Some(ColumnType::MYSQL_TYPE_DATE),
        11u8 => Some(ColumnType::MYSQL_TYPE_TIME),
        12u8 => Some(ColumnType::MYSQL_TYPE_DATETIME),
        13u8 => Some(ColumnType::MYSQL_TYPE_YEAR),
        14u8 => Some(ColumnType::MYSQL_TYPE_NEWDATE),
        15u8 => Some(ColumnType::MYSQL_TYPE_VARCHAR),
        16u8 => Some(ColumnType::MYSQL_TYPE_BIT),
        17u8 => Some(ColumnType::MYSQL_TYPE_TIMESTAMP2),
        18u8 => Some(ColumnType::MYSQL_TYPE_DATETIME2),
        19u8 => Some(ColumnType::MYSQL_TYPE_TIME2),
        20u8 => Some(ColumnType::MYSQL_TYPE_TYPED_ARRAY),
        243u8 => Some(ColumnType::MYSQL_TYPE_UNKNOWN),
        245u8 => Some(ColumnType::MYSQL_TYPE_JSON),
        246u8 => Some(ColumnType::MYSQL_TYPE_NEWDECIMAL),
        247u8 => Some(ColumnType::MYSQL_TYPE_ENUM),
        248u8 => Some(ColumnType::MYSQL_TYPE_SET),
        249u8 => Some(ColumnType::MYSQL_TYPE_TINY_BLOB),
        250u8 => Some(ColumnType::MYSQL_TYPE_MEDIUM_BLOB),
        251u8 => Some(ColumnType::MYSQL_TYPE_LONG_BLOB),
        252u8 => Some(ColumnType::MYSQL_TYPE_BLOB),
        253u8 => Some(ColumnType::MYSQL_TYPE_VAR_STRING),
        254u8 => Some(ColumnType::MYSQL_TYPE_STRING),
        255u8 => Some(ColumnType::MYSQL_TYPE_GEOMETRY),
        _ => None,
    }
}

impl ColumnType {
    /// Looks up the type that a code byte names.
    pub fn try_from_u8(b: u8) -> (r: Option<ColumnType>)
        ensures
            r == column_type_of(b),
    {
        match b {
            0u8 => Some(ColumnType::MYSQL_TYPE_DECIMAL),
            1u8 => Some(ColumnType::MYSQL_TYPE_TINY),
            2u8 => Some(ColumnType::MYSQL_TYPE_SHORT),
            3u8 => Some(ColumnType::MYSQL_TYPE_LONG),
            4u8 => Some(ColumnType::MYSQL_TYPE_FLOAT),
            5u8 => Some(ColumnType::MYSQL_TYPE_DOUBLE),
            6u8 => Some(ColumnType::MYSQL_TYPE_NULL),
            7u8 => Some(ColumnType::MYSQL_TYPE_TIMESTAMP),
            8u8 => Some(ColumnType::MYSQL_TYPE_LONGLONG),
            9u8 => Some(ColumnType::MYSQL_TYPE_INT24),
            10u8 => Some(ColumnType::MYSQL_TYPE_DATE),
            11u8 => Some(ColumnType::MYSQL_TYPE_TIME),
            12u8 => Some(ColumnType::MYSQL_TYPE_DATETIME),
            13u8 => Some(ColumnType::MYSQL_TYPE_YEAR),
            14u8 => Some(ColumnType::MYSQL_TYPE_NEWDATE),
            15u8 => Some(ColumnType::MYSQL_TYPE_VARCHAR),
            16u8 => Some(ColumnType::MYSQL_TYPE_BIT),
            17u8 => Some(ColumnType::MYSQL_TYPE_TIMESTAMP2),
            18u8 => Some(ColumnType::MYSQL_TYPE_DATETIME2),
            19u8 => Some(ColumnType::MYSQL_TYPE_TIME2),
            20u8 => Some(ColumnType::MYSQL_TYPE_TYPED_ARRAY),
            243u8 => Some(ColumnType::MYSQL_TYPE_UNKNOWN),
            245u8 => Some(ColumnType::MYSQL_TYPE_JSON),
            246u8 => Some(ColumnType::MYSQL_TYPE_NEWDECIMAL),
            247u8 => Some(ColumnType::MYSQL_TYPE_ENUM),
            248u8 => Some(ColumnType::MYSQL_TYPE_SET),
            249u8 => Some(ColumnType::MYSQL_TYPE_TINY_BLOB),
            250u8 => Some(ColumnType::MYSQL_TYPE_MEDIUM_BLOB),
            251u8 => Some(ColumnType::MYSQL_TYPE_LONG_BLOB),
            252u8 => Some(ColumnType::MYSQL_TYPE_BLOB),
            253u8 => Some(ColumnType::MYSQL_TYPE_VAR_STRING),
            254u8 => Some(ColumnType::MYSQL_TYPE_STRING),
            255u8 => Some(ColumnType::MYSQL_TYPE_GEOMETRY),
            _ => None,
        }
    }
}

} // verus!
