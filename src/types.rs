//! Typed values, their binary encoding inside tuples, and table schemas.
use vstd::prelude::*;
use vstd::string::*;
use vstd::utf8::*;
use crate::bytes::u32_at;
use crate::error::DbError;
use crate::text::{str_eq, string_from_utf8};

verus! {

broadcast use vstd::utf8::encode_utf8_decode_utf8;

/// The type of a column.
#[derive(Debug, Clone, Copy, PartialEq, Eq, Structural)]
pub enum DataType {
    Integer,
    Varchar(usize),
    Boolean,
}

/// A value of a row.
#[derive(Debug, Clone, PartialEq)]
pub enum Value {
    Integer(i32),
    Varchar(String),
    Boolean(bool),
    Null,
}

/// The mathematical content of a `Value`: strings as sequences of
/// characters.
pub enum Datum {
    Integer(i32),
    Varchar(Seq<char>),
    Boolean(bool),
    Null,
}

impl View for Value {
    type V = Datum;

    open spec fn view(&self) -> Datum {
        match self {
            Value::Integer(i) => Datum::Integer(*i),
            Value::Varchar(s) => Datum::Varchar(s@),
            Value::Boolean(b) => Datum::Boolean(*b),
            Value::Null => Datum::Null,
        }
    }
}

/// The contents of a row.
pub open spec fn row_view(r: Seq<Value>) -> Seq<Datum> {
    r.map_values(|v: Value| v@)
}

/// The contents of an evaluation result.
pub open spec fn result_view(r: Result<Value, DbError>) -> Result<Datum, DbError> {
    match r {
        Ok(v) => Ok(v@),
        Err(e) => Err(e),
    }
}

/// Four little-endian bytes holding `n` modulo 2^32.
pub open spec fn le32(n: int) -> Seq<u8> {
    seq![
        (n % 256) as u8,
        ((n / 256) % 256) as u8,
        ((n / 65536) % 256) as u8,
        ((n / 16777216) % 256) as u8,
    ]
}

/// The two's-complement bit pattern of `i`, as an unsigned number.
pub open spec fn i32_bits(i: i32) -> int {
    if i >= 0 {
        i as int
    } else {
        i + 4294967296
    }
}

/// The `i32` whose two's-complement bit pattern is `u`.
pub open spec fn i32_from_bits(u: int) -> i32 {
    if u < 2147483648 {
        u as i32
    } else {
        (u - 4294967296) as i32
    }
}

/// The tuple encoding of a value: Integer as 4 little-endian bytes,
/// Varchar as a 4-byte little-endian byte count followed by the UTF-8
/// bytes, Boolean as one byte (1 or 0), Null as nothing.
pub open spec fn value_bytes(v: Datum) -> Seq<u8> {
    match v {
        Datum::Integer(i) => le32(i32_bits(i)),
        Datum::Varchar(s) => le32((encode_utf8(s).len() % 4294967296) as int) + encode_utf8(s),
        Datum::Boolean(b) => seq![if b { 1u8 } else { 0u8 }],
        Datum::Null => Seq::empty(),
    }
}

/// Decoding a single value that fills `b` exactly.
pub open spec fn decode_value(b: Seq<u8>, t: DataType) -> Result<Datum, DbError> {
    match t {
        DataType::Integer => if b.len() != 4 {
            Err(DbError::TruncatedTuple)
        } else {
            Ok(Datum::Integer(i32_from_bits(u32_at(b, 0))))
        },
        DataType::Varchar(_) => if b.len() < 4 || b.len() != u32_at(b, 0) + 4 {
            Err(DbError::TruncatedTuple)
        } else if !valid_utf8(b.subrange(4, b.len() as int)) {
            Err(DbError::Utf8Error)
        } else {
            Ok(Datum::Varchar(decode_utf8(b.subrange(4, b.len() as int))))
        },
        DataType::Boolean => if b.len() != 1 {
            Err(DbError::TruncatedTuple)
        } else {
            Ok(Datum::Boolean(b[0] != 0))
        },
    }
}

/// Appends the bytes of `b` to `out`.
pub(crate) fn append_bytes(out: &mut Vec<u8>, b: &[u8])
    ensures
        final(out)@ == old(out)@ + b@,
{
    let mut i: usize = 0;
    while i < b.len()
        invariant
            i <= b@.len(),
            out@ == old(out)@ + b@.subrange(0, i as int),
        decreases b@.len() - i,
    {
        out.push(b[i]);
        i += 1;
        assert(out@ =~= old(out)@ + b@.subrange(0, i as int));
    }
    assert(b@.subrange(0, i as int) =~= b@);
}

/// Four little-endian bytes of `u`.
pub(crate) fn le32_bytes(u: u32) -> (r: Vec<u8>)
    ensures
        r@ == le32(u as int),
{
    let r = vec![
        (u % 256) as u8,
        ((u / 256) % 256) as u8,
        ((u / 65536) % 256) as u8,
        ((u / 16777216) % 256) as u8,
    ];
    assert(r@ =~= le32(u as int));
    r
}

/// The `i32` held by four little-endian bytes at `p`.
pub(crate) fn read_i32_le(b: &[u8], p: usize) -> (r: i32)
    requires
        p + 4 <= b@.len(),
    ensures
        r == i32_from_bits(u32_at(b@, p as int)),
{
    let u = crate::bytes::read_u32_le(b, p);
    if u < 2147483648 {
        u as i32
    } else {
        (u as i64 - 4294967296) as i32
    }
}

impl Value {
    /// The type of the value; a string's length is its byte count, and Null
    /// counts as an empty Varchar.
    pub fn data_type(&self) -> (r: DataType)
        ensures
            r == match self {
                Value::Integer(_) => DataType::Integer,
                Value::Varchar(s) => DataType::Varchar(encode_utf8(s@).len() as usize),
                Value::Boolean(_) => DataType::Boolean,
                Value::Null => DataType::Varchar(0),
            },
    {
        match self {
            Value::Integer(_) => DataType::Integer,
            Value::Varchar(s) => DataType::Varchar(s.as_str().as_bytes().len()),
            Value::Boolean(_) => DataType::Boolean,
            Value::Null => DataType::Varchar(0),
        }
    }

    /// A copy of the value.
    pub fn duplicate(&self) -> (r: Value)
        ensures
            r@ == self@,
    {
        match self {
            Value::Integer(i) => Value::Integer(*i),
            Value::Varchar(s) => Value::Varchar(s.clone()),
            Value::Boolean(b) => Value::Boolean(*b),
            Value::Null => Value::Null,
        }
    }

    /// The tuple encoding of the value.
    pub fn to_bytes(&self) -> (r: Vec<u8>)
        ensures
            r@ == value_bytes(self@),
    {
        match self {
            Value::Integer(i) => {
                let u: u32 = if *i >= 0 {
                    *i as u32
                } else {
                    (*i as i64 + 4294967296) as u32
                };
                le32_bytes(u)
            },
            Value::Varchar(s) => {
                let b = s.as_str().as_bytes();
                let mut out = le32_bytes((b.len() as u64 % 4294967296) as u32);
                append_bytes(&mut out, b);
                out
            },
            Value::Boolean(b) => {
                let r = vec![if *b { 1u8 } else { 0u8 }];
                assert(r@ =~= value_bytes(self@));
                r
            },
            Value::Null => {
                let r: Vec<u8> = Vec::new();
                assert(r@ =~= value_bytes(self@));
                r
            },
        }
    }

    /// Decodes a value of type `data_type` that fills `bytes` exactly.
    /// Fails with `TruncatedTuple` on a length that does not fit the type
    /// and with `Utf8Error` on Varchar bytes that are not UTF-8.
    pub fn from_bytes(bytes: &[u8], data_type: &DataType) -> (r: Result<Value, DbError>)
        ensures
            result_view(r) == decode_value(bytes@, *data_type),
    {
        match data_type {
            DataType::Integer => {
                if bytes.len() != 4 {
                    return Err(DbError::TruncatedTuple);
                }
                Ok(Value::Integer(read_i32_le(bytes, 0)))
            },
            DataType::Varchar(_) => {
                if bytes.len() < 4 {
                    return Err(DbError::TruncatedTuple);
                }
                let n = crate::bytes::read_u32_le(bytes, 0) as usize;
                if bytes.len() - 4 != n {
                    return Err(DbError::TruncatedTuple);
                }
                let mut content: Vec<u8> = Vec::new();
                append_bytes(&mut content, &bytes[4..bytes.len()]);
                match string_from_utf8(content) {
                    Some(s) => Ok(Value::Varchar(s)),
                    None => Err(DbError::Utf8Error),
                }
            },
            DataType::Boolean => {
                if bytes.len() != 1 {
                    return Err(DbError::TruncatedTuple);
                }
                Ok(Value::Boolean(bytes[0] != 0))
            },
        }
    }
}

/// A column of a schema.
#[derive(Debug, Clone, PartialEq, Eq)]
pub struct Column {
    pub name: String,
    pub data_type: DataType,
    pub nullable: bool,
}

/// The names of a list of columns.
pub open spec fn column_names(cols: Seq<Column>) -> Seq<Seq<char>> {
    cols.map_values(|c: Column| c.name@)
}

/// The position of the first occurrence of `name`, or -1.
pub open spec fn index_of(names: Seq<Seq<char>>, name: Seq<char>) -> int
    decreases names.len(),
{
    if names.len() == 0 {
        -1
    } else if index_of(names.drop_last(), name) >= 0 {
        index_of(names.drop_last(), name)
    } else if names.last() == name {
        names.len() - 1
    } else {
        -1
    }
}

/// `index_of` finds the first occurrence, or none when the name does not
/// occur.
pub proof fn lemma_index_of(names: Seq<Seq<char>>, name: Seq<char>)
    ensures
        -1 <= index_of(names, name) < names.len(),
        index_of(names, name) >= 0 ==> names[index_of(names, name)] == name,
        forall|j: int|
            0 <= j < names.len() && (index_of(names, name) < 0 || j < index_of(names, name))
                ==> names[j] != name,
    decreases names.len(),
{
    if names.len() > 0 {
        lemma_index_of(names.drop_last(), name);
        assert(forall|j: int| 0 <= j < names.len() - 1 ==> names.drop_last()[j] == names[j]);
    }
}

/// A prefix that contains the name finds the same first occurrence as the
/// whole list.
pub proof fn lemma_prefix_index_of(names: Seq<Seq<char>>, name: Seq<char>, k: int)
    requires
        0 <= k <= names.len(),
        index_of(names.subrange(0, k), name) >= 0,
    ensures
        index_of(names, name) == index_of(names.subrange(0, k), name),
    decreases names.len() - k,
{
    if k < names.len() {
        let next = names.subrange(0, k + 1);
        assert(next.drop_last() =~= names.subrange(0, k));
        lemma_prefix_index_of(names, name, k + 1);
    } else {
        assert(names.subrange(0, k) =~= names);
    }
}

/// An ordered list of columns.
#[derive(Debug, Clone, PartialEq, Eq)]
pub struct Schema {
    pub columns: Vec<Column>,
}

impl Schema {
    pub fn new(columns: Vec<Column>) -> (r: Schema)
        ensures
            r.columns@ == columns@,
    {
        Schema { columns }
    }

    /// The position of the first column named `name`.
    pub fn column_index(&self, name: &str) -> (r: Option<usize>)
        ensures
            r is None <==> index_of(column_names(self.columns@), name@) < 0,
            r matches Some(i) ==> i == index_of(column_names(self.columns@), name@),
    {
        let ghost names = column_names(self.columns@);
        let mut i: usize = 0;
        while i < self.columns.len()
            invariant
                names == column_names(self.columns@),
                i <= self.columns@.len(),
                index_of(names.subrange(0, i as int), name@) < 0,
            decreases self.columns@.len() - i,
        {
            let ghost pre = names.subrange(0, i as int);
            let ghost next = names.subrange(0, i + 1);
            assert(next.drop_last() =~= pre);
            if str_eq(self.columns[i].name.as_str(), name) {
                proof {
                    lemma_prefix_index_of(names, name@, i as int + 1);
                }
                return Some(i);
            }
            i += 1;
        }
        assert(names.subrange(0, i as int) =~= names);
        None
    }

    /// The first column named `name`.
    pub fn find_column(&self, name: &str) -> (r: Option<&Column>)
        ensures
            r is None <==> index_of(column_names(self.columns@), name@) < 0,
            r matches Some(c) ==> *c == self.columns@[index_of(column_names(self.columns@), name@)],
    {
        proof {
            lemma_index_of(column_names(self.columns@), name@);
        }
        match self.column_index(name) {
            Some(i) => Some(&self.columns[i]),
            None => None,
        }
    }
}

} // verus!
