use vstd::prelude::*;

use crate::chunk::{values_of, Datum, DatumValue};
use crate::error::{ErrorCode, RwError};
use crate::expr_vnode::DataType;
use crate::json::{
    ensure_not_null, find_member, json_doc_of, member, model_of, non_null, opt_model, parse_json,
    JsonModel, JsonValue,
};

verus! {

/// `c` with an ASCII upper-case letter turned lower-case.
pub open spec fn ascii_lower(c: char) -> char {
    if 'A' <= c && c <= 'Z' {
        ((c as u32) + 32) as char
    } else {
        c
    }
}

/// `s` with its ASCII upper-case letters turned lower-case.
pub open spec fn ascii_lowercase(s: Seq<char>) -> Seq<char> {
    s.map_values(|c: char| ascii_lower(c))
}

/// Relies on `str::to_ascii_lowercase`: every ASCII upper-case letter
/// replaced by its lower-case form, every other character kept.
#[verifier::external_body]
fn to_ascii_lowercase(s: &str) -> (r: String)
    ensures
        r@ == ascii_lowercase(s@),
{
    s.to_ascii_lowercase()
}

/// A column of the rows a source produces.
#[derive(Debug)]
pub struct SourceColumnDesc {
    pub name: String,
    pub data_type: DataType,
}

/// One write of a change event.
#[derive(Debug)]
pub enum RowChange {
    Insert(Vec<Datum>),
    Delete(Vec<Datum>),
    Update(Vec<Datum>, Vec<Datum>),
}

/// The datum that an integer gives in a column of type `ty`, if it fits.
pub open spec fn int_datum(ty: DataType, i: int) -> Option<DatumValue> {
    match ty {
        DataType::Int16 => if i16::MIN <= i <= i16::MAX {
            Some(DatumValue::Int16(i as i16))
        } else {
            None
        },
        DataType::Int32 => if i32::MIN <= i <= i32::MAX {
            Some(DatumValue::Int32(i as i32))
        } else {
            None
        },
        DataType::Int64 => if i64::MIN <= i <= i64::MAX {
            Some(DatumValue::Int64(i as i64))
        } else {
            None
        },
        _ => None,
    }
}

/// The datum that a JSON value gives in a column of type `ty`, if it
/// converts: a missing value or `null` is the null datum.
pub open spec fn json_to_datum(ty: DataType, v: Option<JsonModel>) -> Option<DatumValue> {
    match v {
        None => Some(DatumValue::Null),
        Some(JsonModel::Null) => Some(DatumValue::Null),
        Some(JsonModel::Bool(b)) => if ty == DataType::Boolean {
            Some(DatumValue::Bool(b))
        } else {
            None
        },
        Some(JsonModel::Int(i)) => int_datum(ty, i as int),
        Some(JsonModel::UInt(u)) => int_datum(ty, u as int),
        Some(JsonModel::Str(s)) => if ty == DataType::Varchar {
            Some(DatumValue::Utf8(s))
        } else {
            None
        },
        _ => None,
    }
}

/// An integer that does not fit the integer column type `ty`.
pub open spec fn out_of_range(ty: DataType, v: Option<JsonModel>) -> bool {
    let is_int_ty = ty == DataType::Int16 || ty == DataType::Int32 || ty == DataType::Int64;
    match v {
        Some(JsonModel::Int(i)) => is_int_ty && int_datum(ty, i as int) is None,
        Some(JsonModel::UInt(u)) => is_int_ty && int_datum(ty, u as int) is None,
        _ => false,
    }
}

/// The error of a value that does not convert: out of range for an integer
/// too large for its column, a parse error otherwise.
pub open spec fn datum_error(ty: DataType, v: Option<JsonModel>, e: RwError) -> bool {
    &&& out_of_range(ty, v) ==> e.code() is NumericValueOutOfRange
    &&& !out_of_range(ty, v) ==> e.code() is ParseError
}

/// Converts a JSON value to a datum of type `ty`.
pub fn datum_of(ty: DataType, v: Option<&JsonValue>) -> (r: Result<Datum, RwError>)
    ensures
        r is Ok <==> json_to_datum(ty, opt_model(v)) is Some,
        r matches Ok(d) ==> d@ == json_to_datum(ty, opt_model(v))->Some_0,
        r matches Err(e) ==> datum_error(ty, opt_model(v), e),
{
    match v {
        None => Ok(Datum::Null),
        Some(JsonValue::Null) => Ok(Datum::Null),
        Some(JsonValue::Bool(b)) => if ty == DataType::Boolean {
            Ok(Datum::Bool(*b))
        } else {
            Err(RwError::new(ErrorCode::ParseError("failed to parse a boolean".to_owned())))
        },
        Some(JsonValue::Int(i)) => int_of(ty, *i as i128),
        Some(JsonValue::UInt(u)) => int_of(ty, *u as i128),
        Some(JsonValue::Str(s)) => if ty == DataType::Varchar {
            Ok(Datum::Utf8(s.clone()))
        } else {
            Err(RwError::new(ErrorCode::ParseError("failed to parse a string".to_owned())))
        },
        Some(_) => Err(RwError::new(ErrorCode::ParseError("failed to parse a json value".to_owned()))),
    }
}

/// Converts an integer to a datum of type `ty`.
fn int_of(ty: DataType, i: i128) -> (r: Result<Datum, RwError>)
    ensures
        r is Ok <==> int_datum(ty, i as int) is Some,
        r matches Ok(d) ==> d@ == int_datum(ty, i as int)->Some_0,
        r matches Err(e) ==> ((ty == DataType::Int16 || ty == DataType::Int32 || ty
            == DataType::Int64) <==> e.code() is NumericValueOutOfRange),
        r matches Err(e) ==> (!(ty == DataType::Int16 || ty == DataType::Int32 || ty
            == DataType::Int64) <==> e.code() is ParseError),
{
    match ty {
        DataType::Int16 => if i16::MIN as i128 <= i && i <= i16::MAX as i128 {
            Ok(Datum::Int16(i as i16))
        } else {
            Err(RwError::new(ErrorCode::NumericValueOutOfRange))
        },
        DataType::Int32 => if i32::MIN as i128 <= i && i <= i32::MAX as i128 {
            Ok(Datum::Int32(i as i32))
        } else {
            Err(RwError::new(ErrorCode::NumericValueOutOfRange))
        },
        DataType::Int64 => if i64::MIN as i128 <= i && i <= i64::MAX as i128 {
            Ok(Datum::Int64(i as i64))
        } else {
            Err(RwError::new(ErrorCode::NumericValueOutOfRange))
        },
        _ => Err(RwError::new(ErrorCode::ParseError("failed to parse an integer".to_owned()))),
    }
}

/// The key a column is looked up by: its name, lower-cased.
pub open spec fn column_key(c: SourceColumnDesc) -> Seq<char> {
    ascii_lowercase(c.name@)
}

/// The datum column `c` gets from the row object `obj`.
pub open spec fn column_value(obj: JsonModel, c: SourceColumnDesc) -> Option<DatumValue> {
    json_to_datum(c.data_type, member(obj, column_key(c)))
}

/// Every column converts.
pub open spec fn row_ok(obj: JsonModel, cols: Seq<SourceColumnDesc>) -> bool {
    forall|k: int| 0 <= k < cols.len() ==> (#[trigger] column_value(obj, cols[k])) is Some
}

/// The row that `obj` gives, one datum per column.
pub open spec fn row_values(obj: JsonModel, cols: Seq<SourceColumnDesc>) -> Seq<DatumValue> {
    Seq::new(cols.len(), |k: int| column_value(obj, cols[k])->Some_0)
}

/// `e` is the error of the first column of `cols` that does not convert.
pub open spec fn row_error(obj: JsonModel, cols: Seq<SourceColumnDesc>, e: RwError) -> bool {
    exists|k: int|
        0 <= k < cols.len() && (forall|j: int|
            0 <= j < k ==> (#[trigger] column_value(obj, cols[j])) is Some) && column_value(
            obj,
            cols[k],
        ) is None && datum_error(cols[k].data_type, member(obj, column_key(cols[k])), e)
}

/// `r` is the row of `obj` when every column converts, else the error of
/// the first column that does not.
pub open spec fn row_outcome(
    obj: JsonModel,
    cols: Seq<SourceColumnDesc>,
    r: Result<Vec<Datum>, RwError>,
) -> bool {
    match r {
        Ok(row) => row_ok(obj, cols) && values_of(row@) == row_values(obj, cols),
        Err(e) => !row_ok(obj, cols) && row_error(obj, cols, e),
    }
}

/// `r` is a protocol error.
pub open spec fn is_protocol_error<T>(r: Result<T, RwError>) -> bool {
    r matches Err(e) && e.code() is ProtocolError
}

/// The outcome of a write from the row object `obj`: the write that
/// `make` builds when every column converts, else the first column's error.
pub open spec fn one_row_outcome(
    obj: JsonModel,
    cols: Seq<SourceColumnDesc>,
    r: Result<RowChange, RwError>,
    insert: bool,
) -> bool {
    if !row_ok(obj, cols) {
        r matches Err(e) && row_error(obj, cols, e)
    } else if insert {
        r matches Ok(RowChange::Insert(row)) && values_of(row@) == row_values(obj, cols)
    } else {
        r matches Ok(RowChange::Delete(row)) && values_of(row@) == row_values(obj, cols)
    }
}

/// What a Debezium event `doc` gives with columns `cols`. The `payload`
/// member must be present and not null, and its `op` member a string:
/// `u` updates the `before` row to the `after` row, `c` and `r` insert the
/// `after` row, `d` deletes the `before` row. A missing envelope member, a
/// missing or null row the operation needs, or another operation is a
/// protocol error; a row whose columns do not all convert gives the error of
/// the first that does not (for an update, the `before` row first).
pub open spec fn change_outcome(
    doc: JsonModel,
    cols: Seq<SourceColumnDesc>,
    r: Result<RowChange, RwError>,
) -> bool {
    match non_null(member(doc, "payload"@)) {
        None => is_protocol_error(r),
        Some(p) => match member(p, "op"@) {
            Some(JsonModel::Str(op)) => {
                let before = non_null(member(p, "before"@));
                let after = non_null(member(p, "after"@));
                if op == "u"@ {
                    match (before, after) {
                        (Some(b), Some(a)) => if !row_ok(b, cols) {
                            r matches Err(e) && row_error(b, cols, e)
                        } else if !row_ok(a, cols) {
                            r matches Err(e) && row_error(a, cols, e)
                        } else {
                            r matches Ok(RowChange::Update(x, y)) && values_of(x@) == row_values(b, cols)
                                && values_of(y@) == row_values(a, cols)
                        },
                        _ => is_protocol_error(r),
                    }
                } else if op == "c"@ || op == "r"@ {
                    match after {
                        Some(a) => one_row_outcome(a, cols, r, true),
                        None => is_protocol_error(r),
                    }
                } else if op == "d"@ {
                    match before {
                        Some(b) => one_row_outcome(b, cols, r, false),
                        None => is_protocol_error(r),
                    }
                } else {
                    is_protocol_error(r)
                }
            },
            _ => is_protocol_error(r),
        },
    }
}

/// A well-formed event makes exactly one write: an insert of the `after`
/// row for `c` and `r`, an update from `before` to `after` for `u`, a delete
/// of the `before` row for `d`, each datum read from the row under the
/// column's lower-cased name.
pub proof fn lemma_one_write_per_event(
    doc: JsonModel,
    cols: Seq<SourceColumnDesc>,
    r: Result<RowChange, RwError>,
    op: Seq<char>,
)
    requires
        change_outcome(doc, cols, r),
        non_null(member(doc, "payload"@)) is Some,
        member(non_null(member(doc, "payload"@))->Some_0, "op"@) == Some(JsonModel::Str(op)),
        ({
            let p = non_null(member(doc, "payload"@))->Some_0;
            let before = non_null(member(p, "before"@));
            let after = non_null(member(p, "after"@));
            &&& (op == "u"@ || op == "d"@) ==> before is Some && row_ok(before->Some_0, cols)
            &&& (op == "u"@ || op == "c"@ || op == "r"@) ==> after is Some && row_ok(after->Some_0, cols)
        }),
    ensures
        ({
            let p = non_null(member(doc, "payload"@))->Some_0;
            let before = non_null(member(p, "before"@));
            let after = non_null(member(p, "after"@));
            &&& (op == "c"@ || op == "r"@) ==> (r matches Ok(RowChange::Insert(row)) && values_of(row@)
                == row_values(after->Some_0, cols))
            &&& op == "u"@ ==> (r matches Ok(RowChange::Update(x, y)) && values_of(x@) == row_values(
                before->Some_0,
                cols,
            ) && values_of(y@) == row_values(after->Some_0, cols))
            &&& op == "d"@ ==> (r matches Ok(RowChange::Delete(row)) && values_of(row@) == row_values(
                before->Some_0,
                cols,
            ))
        }),
{
    reveal_strlit("u");
    reveal_strlit("c");
    reveal_strlit("r");
    reveal_strlit("d");
    assert("u"@[0] == 'u' && "c"@[0] == 'c' && "r"@[0] == 'r' && "d"@[0] == 'd');
}

/// A protocol error with the given text.
fn protocol_error(msg: &str) -> (r: RwError)
    ensures
        r.code() is ProtocolError,
{
    RwError::new(ErrorCode::ProtocolError(msg.to_owned()))
}

/// Decodes Debezium change events into writes of rows of its columns.
#[derive(Debug)]
pub struct DebeziumJsonParser {
    pub rw_columns: Vec<SourceColumnDesc>,
}

impl DebeziumJsonParser {
    pub fn new(rw_columns: Vec<SourceColumnDesc>) -> (r: Result<Self, RwError>)
        ensures
            r matches Ok(p) && p.rw_columns == rw_columns,
    {
        Ok(Self { rw_columns })
    }

    /// One datum per column, found in `obj` under the lower-cased column
    /// name.
    pub fn parse_row(&self, obj: &JsonValue) -> (r: Result<Vec<Datum>, RwError>)
        ensures
            row_outcome(model_of(*obj), self.rw_columns@, r),
    {
        let ghost m = model_of(*obj);
        let ghost cols = self.rw_columns@;
        let mut row: Vec<Datum> = Vec::new();
        let mut k: usize = 0;
        while k < self.rw_columns.len()
            invariant
                m == model_of(*obj),
                cols == self.rw_columns@,
                k <= cols.len(),
                row.len() == k,
                forall|j: int| 0 <= j < k ==> (#[trigger] column_value(m, cols[j])) is Some,
                forall|j: int|
                    0 <= j < k ==> (#[trigger] row@[j])@ == column_value(m, cols[j])->Some_0,
            decreases cols.len() - k,
        {
            let column = &self.rw_columns[k];
            let key = to_ascii_lowercase(column.name.as_str());
            let value = find_member(obj, key.as_str());
            match datum_of(column.data_type, value) {
                Ok(d) => {
                    row.push(d);
                },
                Err(e) => {
                    assert(column_value(m, cols[k as int]) is None);
                    assert(!row_ok(m, cols));
                    return Err(e);
                },
            }
            k = k + 1;
        }
        assert(values_of(row@) =~= row_values(m, cols));
        Ok(row)
    }

    /// The write that a decoded Debezium event asks for.
    pub fn decode_document(&self, doc: &JsonValue) -> (r: Result<RowChange, RwError>)
        ensures
            change_outcome(model_of(*doc), self.rw_columns@, r),
    {
        proof {
            reveal_strlit("u");
            reveal_strlit("c");
            reveal_strlit("r");
            reveal_strlit("d");
            assert("u"@[0] == 'u' && "c"@[0] == 'c' && "r"@[0] == 'r' && "d"@[0] == 'd');
            assert("u"@ != "c"@ && "u"@ != "r"@ && "u"@ != "d"@ && "c"@ != "d"@ && "r"@ != "d"@);
        }
        let payload = match ensure_not_null(find_member(doc, "payload")) {
            Some(p) => p,
            None => {
                return Err(protocol_error("no payload in debezium event"));
            },
        };
        let op = match find_member(payload, "op") {
            Some(JsonValue::Str(s)) => s,
            _ => {
                return Err(protocol_error("op field not found in debezium json"));
            },
        };
        let before = ensure_not_null(find_member(payload, "before"));
        let after = ensure_not_null(find_member(payload, "after"));
        if String::eq(op, &"u".to_owned()) {
            let b = match before {
                Some(b) => b,
                None => {
                    return Err(
                        protocol_error(
                            "before is missing for updating event. If you are using postgres, you may want to try ALTER TABLE $TABLE_NAME REPLICA IDENTITY FULL;",
                        ),
                    );
                },
            };
            let a = match after {
                Some(a) => a,
                None => {
                    return Err(protocol_error("after is missing for updating event"));
                },
            };
            let brow = match self.parse_row(b) {
                Ok(row) => row,
                Err(e) => {
                    return Err(e);
                },
            };
            let arow = match self.parse_row(a) {
                Ok(row) => row,
                Err(e) => {
                    return Err(e);
                },
            };
            Ok(RowChange::Update(brow, arow))
        } else if String::eq(op, &"c".to_owned()) || String::eq(op, &"r".to_owned()) {
            match after {
                Some(a) => match self.parse_row(a) {
                    Ok(row) => Ok(RowChange::Insert(row)),
                    Err(e) => Err(e),
                },
                None => Err(protocol_error("after is missing for creating event")),
            }
        } else if String::eq(op, &"d".to_owned()) {
            match before {
                Some(b) => match self.parse_row(b) {
                    Ok(row) => Ok(RowChange::Delete(row)),
                    Err(e) => Err(e),
                },
                None => Err(protocol_error("before is missing for delete event")),
            }
        } else {
            Err(protocol_error("unknown debezium op"))
        }
    }

    /// The write of one Debezium event in JSON: a protocol error when the
    /// bytes are not JSON, else what `decode_document` gives.
    pub fn parse_inner(&self, payload: &[u8]) -> (r: Result<RowChange, RwError>)
        ensures
            json_doc_of(payload@) is None ==> is_protocol_error(r),
            json_doc_of(payload@) matches Some(doc) ==> change_outcome(doc, self.rw_columns@, r),
    {
        match parse_json(payload) {
            Some(doc) => self.decode_document(&doc),
            None => Err(protocol_error("payload is not valid json")),
        }
    }
}

} // verus!
