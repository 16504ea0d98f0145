//! Query results and row decoding: the result shape the transport hands
//! back, the column-name-to-position mapping, and the table-driven decoder
//! that populates record instances from rows of optional text cells.

use vstd::prelude::*;
use crate::convert::ValueFormatError;
use crate::mapping::FieldResolutionError;
use crate::schema::{FieldDescriptor, RecordType};
use crate::text::str_eq;
use crate::values::{
    default_value, default_value_spec, deserialize_opt_value, deserialize_opt_value_spec,
    deserialize_value, deserialize_value_spec, opt_value_view, Value, ValueV,
};

verus! {

/// One row of a query result: one optional text cell per column.
pub type RemoteRow = Vec<Option<String>>;

/// What a query execution hands back: the ordered column names and the
/// rows; either may be absent, meaning "no result set".
pub struct QueryResult {
    pub schema: Option<Vec<String>>,
    pub rows: Option<Vec<RemoteRow>>,
}

/// A fatal inconsistency between the mapping, the live remote schema and
/// the returned data.
#[derive(Clone, Copy, PartialEq, Eq, Structural, Debug)]
pub enum DataIntegrityError {
    /// A remote column the mapping expected is missing from the result.
    MissingColumn,
    /// A required field's cell was absent from the row.
    RequiredCellAbsent,
    /// The response carried no rows where one was expected.
    NoRows,
    /// The response carried another number of rows than the one expected.
    WrongRowCount,
    /// The response carried rows but no schema.
    MissingSchema,
    /// A cell that had to hold a value was absent.
    MissingCell,
    /// The existence probe counted something other than zero or one rows.
    BadCount,
}

/// Why a runtime table operation failed.
#[derive(Debug)]
pub enum TableError {
    /// An unknown field name was used in a by-field query.
    FieldResolution(FieldResolutionError),
    /// A remote cell value was malformed for its column type.
    ValueFormat(ValueFormatError),
    /// The result did not fit what the mapping promises.
    DataIntegrity(DataIntegrityError),
}

/// The view of one optional text cell.
pub open spec fn cell_view(c: Option<String>) -> Option<Seq<char>> {
    match c {
        Some(s) => Some(s@),
        None => None,
    }
}

/// The view of one row.
pub open spec fn row_view(r: Seq<Option<String>>) -> Seq<Option<Seq<char>>> {
    r.map_values(|c: Option<String>| cell_view(c))
}

/// The position of a column name in the schema: the last occurrence, as a
/// later column of the same name shadows an earlier one.
pub open spec fn col_index(names: Seq<Seq<char>>, name: Seq<char>) -> Option<int>
    decreases names.len(),
{
    if names.len() == 0 {
        None
    } else if names.last() == name {
        Some(names.len() - 1)
    } else {
        col_index(names.drop_last(), name)
    }
}

/// A name that matches nowhere past `i` is found, if at all, among the
/// first `i` columns.
proof fn lemma_col_index_take(names: Seq<Seq<char>>, name: Seq<char>, i: int)
    requires
        0 <= i <= names.len(),
        forall|j: int| i <= j < names.len() ==> (#[trigger] names[j]) != name,
    ensures
        col_index(names, name) == col_index(names.take(i), name),
    decreases names.len() - i,
{
    if i == names.len() {
        assert(names.take(i) =~= names);
    } else {
        lemma_col_index_take(names, name, i + 1);
        assert(names.take(i + 1).drop_last() =~= names.take(i));
        assert(names.take(i + 1).last() == names[i]);
    }
}

/// Translates remote column names to their positions in a row, derived from
/// the result's schema.
pub struct NameIndexMapping {
    pub names: Vec<String>,
}

/// Builds the name-to-position mapping of a result schema.
pub fn get_name_index_mapping(schema: &Vec<String>) -> (r: NameIndexMapping)
    ensures
        r.names@.len() == schema@.len(),
        forall|i: int| 0 <= i < schema@.len() ==> (#[trigger] r.names@[i])@ == schema@[i]@,
{
    let mut names: Vec<String> = Vec::new();
    let mut i: usize = 0;
    while i < schema.len()
        invariant
            i <= schema@.len(),
            names@.len() == i,
            forall|j: int| 0 <= j < i ==> (#[trigger] names@[j])@ == schema@[j]@,
        decreases schema@.len() - i,
    {
        names.push(schema[i].clone());
        i = i + 1;
    }
    NameIndexMapping { names }
}

impl NameIndexMapping {
    pub open spec fn names_view(self) -> Seq<Seq<char>> {
        crate::text::str_views(self.names@)
    }

    /// Finds the position of a remote column name, preferring the last
    /// occurrence.
    pub fn lookup(&self, name: &str) -> (r: Option<usize>)
        ensures
            (match r {
                Some(ix) => col_index(self.names_view(), name@) == Some(ix as int),
                None => col_index(self.names_view(), name@) is None,
            }),
    {
        let ghost ns = self.names_view();
        let mut i: usize = self.names.len();
        loop
            invariant
                i <= ns.len(),
                ns == self.names_view(),
                ns.len() == self.names@.len(),
                forall|j: int| i <= j < ns.len() ==> (#[trigger] ns[j]) != name@,
            decreases i,
        {
            proof {
                lemma_col_index_take(ns, name@, i as int);
            }
            if i == 0 {
                proof {
                    assert(ns.take(0).len() == 0);
                }
                return None;
            }
            i = i - 1;
            if str_eq(self.names[i].as_str(), name) {
                proof {
                    lemma_col_index_take(ns, name@, i + 1);
                    assert(ns.take(i + 1).last() == ns[i as int]);
                }
                return Some(i);
            }
        }
    }
}

/// One in-memory record: the values of its mapped fields, positionally
/// parallel to the record type's field list; the client-handle position is
/// always empty, as the handle lives outside the mapped data.
pub struct RecordInstance {
    pub values: Vec<Option<Value>>,
}

impl RecordInstance {
    /// The value of the field at `i`.
    pub open spec fn value_at(self, i: int) -> Option<ValueV> {
        opt_value_view(self.values@[i])
    }

    /// Conformance of an instance to its record type: one value slot per
    /// field, nothing in the client slot, every present value valid and of
    /// the field's type, and required fields never empty.
    pub open spec fn conforms_to(self, rt: RecordType) -> bool {
        let fs = rt.fields@;
        &&& self.values@.len() == fs.len()
        &&& forall|i: int|
            0 <= i < fs.len() && (#[trigger] fs[i]).is_client_handle ==> self.value_at(i) is None
        &&& forall|i: int|
            0 <= i < fs.len() && !(#[trigger] fs[i]).is_client_handle ==> (match self.value_at(i) {
                Some(v) => v.valid() && Some(v.type_of()) == fs[i].value_type,
                None => !fs[i].required,
            })
    }
}

impl RecordInstance {
    /// Decides conformance to a record type at run time, so that unverified
    /// callers can test it before using the mapping operations.
    pub fn check_conforms(&self, rt: &RecordType) -> (r: bool)
        ensures
            r == self.conforms_to(*rt),
    {
        let ghost fs = rt.fields@;
        if self.values.len() != rt.fields.len() {
            return false;
        }
        let n = rt.fields.len();
        let mut i: usize = 0;
        while i < n
            invariant
                i <= n,
                n == fs.len(),
                fs == rt.fields@,
                self.values@.len() == fs.len(),
                forall|j: int|
                    0 <= j < i && (#[trigger] fs[j]).is_client_handle ==> self.value_at(j) is None,
                forall|j: int|
                    0 <= j < i && !(#[trigger] fs[j]).is_client_handle ==> (match self.value_at(j) {
                        Some(v) => v.valid() && Some(v.type_of()) == fs[j].value_type,
                        None => !fs[j].required,
                    }),
            decreases n - i,
        {
            let f = &rt.fields[i];
            if f.is_client_handle {
                match &self.values[i] {
                    Some(_) => {
                        return false;
                    },
                    None => {},
                }
            } else {
                match &self.values[i] {
                    Some(v) => {
                        if !v.is_valid() {
                            return false;
                        }
                        match f.value_type {
                            Some(t) => {
                                if v.type_of() != t {
                                    return false;
                                }
                            },
                            None => {
                                return false;
                            },
                        }
                    },
                    None => {
                        if f.required {
                            return false;
                        }
                    },
                }
            }
            i = i + 1;
        }
        true
    }
}

/// Copies one value.
pub fn clone_value(v: &Value) -> (r: Value)
    ensures
        r@ == v@,
{
    match v {
        Value::Bool(b) => Value::Bool(*b),
        Value::Int64(i) => Value::Int64(*i),
        Value::Str(s) => Value::Str(s.clone()),
        Value::Datetime(dt) => Value::Datetime(*dt),
    }
}

/// Builds the unbound seed instance: the primary key set to the given
/// value, the client slot empty, every other required field at its type
/// default and every optional field empty.
pub fn create_with_pk(rt: &RecordType, pk: &Value) -> (r: RecordInstance)
    requires
        rt.well_formed(),
        pk@.valid(),
        Some(pk@.type_of()) == rt.fields@[rt.pk_index as int].value_type,
    ensures
        r.conforms_to(*rt),
        r.values@.len() == rt.fields@.len(),
        r.value_at(rt.pk_index as int) == Some(pk@),
        forall|i: int|
            0 <= i < rt.fields@.len() && i != rt.pk_index ==> r.value_at(i) == (
            if !(#[trigger] rt.fields@[i]).is_client_handle && rt.fields@[i].required {
                Some(default_value_spec(rt.fields@[i].value_type.unwrap()))
            } else {
                None::<ValueV>
            }),
{
    let ghost fs = rt.fields@;
    let mut values: Vec<Option<Value>> = Vec::new();
    let mut i: usize = 0;
    while i < rt.fields.len()
        invariant
            i <= fs.len(),
            fs == rt.fields@,
            rt.well_formed(),
            pk@.valid(),
            Some(pk@.type_of()) == fs[rt.pk_index as int].value_type,
            values@.len() == i,
            forall|j: int|
                0 <= j < i && j == rt.pk_index ==> opt_value_view(#[trigger] values@[j]) == Some(
                    pk@,
                ),
            forall|j: int|
                0 <= j < i && j != rt.pk_index ==> opt_value_view(#[trigger] values@[j]) == (
                if !fs[j].is_client_handle && fs[j].required {
                    Some(default_value_spec(fs[j].value_type.unwrap()))
                } else {
                    None::<ValueV>
                }),
        decreases fs.len() - i,
    {
        let f = &rt.fields[i];
        if f.is_primary_key {
            values.push(Some(clone_value(pk)));
        } else if !f.is_client_handle && f.required {
            match f.value_type {
                Some(t) => values.push(Some(default_value(t))),
                None => values.push(None),
            }
        } else {
            values.push(None);
        }
        i = i + 1;
    }
    RecordInstance { values }
}

/// What decoding one mapped field of a row yields: the cell at the field's
/// column position, decoded under the field's value type; required fields
/// fail on an absent cell or malformed text, optional fields decode absent
/// or unreadable text to "no value".
pub open spec fn decode_field(
    fd: FieldDescriptor,
    row: Seq<Option<Seq<char>>>,
    names: Seq<Seq<char>>,
) -> Result<Option<ValueV>, TableError> {
    match col_index(names, fd.remote_name@) {
        None => Err(TableError::DataIntegrity(DataIntegrityError::MissingColumn)),
        Some(ix) => if !(0 <= ix < row.len()) {
            Err(TableError::DataIntegrity(DataIntegrityError::MissingColumn))
        } else {
            match row[ix] {
                None => if fd.required {
                    Err(TableError::DataIntegrity(DataIntegrityError::RequiredCellAbsent))
                } else {
                    Ok(None)
                },
                Some(s) => if fd.required {
                    match deserialize_value_spec(fd.value_type.unwrap(), s) {
                        Ok(v) => Ok(Some(v)),
                        Err(e) => Err(TableError::ValueFormat(e)),
                    }
                } else {
                    Ok(deserialize_opt_value_spec(fd.value_type.unwrap(), s))
                },
            }
        },
    }
}

/// The first decoding failure of a row, in field declaration order; `None`
/// where every mapped field decodes.
pub open spec fn row_decode_error(
    fs: Seq<FieldDescriptor>,
    row: Seq<Option<Seq<char>>>,
    names: Seq<Seq<char>>,
) -> Option<TableError>
    decreases fs.len(),
{
    if fs.len() == 0 {
        None
    } else if fs[0].is_client_handle {
        row_decode_error(fs.drop_first(), row, names)
    } else {
        match decode_field(fs[0], row, names) {
            Err(e) => Some(e),
            Ok(_) => row_decode_error(fs.drop_first(), row, names),
        }
    }
}

/// The decoded value of every field of a row: empty for the client handle,
/// the decoded cell for every other field. Meaningful where
/// `row_decode_error` is `None`.
pub open spec fn decoded_values(
    fs: Seq<FieldDescriptor>,
    row: Seq<Option<Seq<char>>>,
    names: Seq<Seq<char>>,
) -> Seq<Option<ValueV>> {
    Seq::new(
        fs.len(),
        |i: int|
            if fs[i].is_client_handle {
                None
            } else {
                match decode_field(fs[i], row, names) {
                    Ok(v) => v,
                    Err(_) => None,
                }
            },
    )
}

/// Decoding is decided by the fields from `i` on when the first `i` fields
/// decode.
proof fn lemma_row_decode_skip(
    fs: Seq<FieldDescriptor>,
    row: Seq<Option<Seq<char>>>,
    names: Seq<Seq<char>>,
    i: int,
)
    requires
        0 <= i <= fs.len(),
        forall|j: int|
            0 <= j < i ==> (#[trigger] fs[j]).is_client_handle || decode_field(fs[j], row, names)
                is Ok,
    ensures
        row_decode_error(fs, row, names) == row_decode_error(fs.skip(i), row, names),
    decreases i,
{
    if i > 0 {
        lemma_row_decode_skip(fs.drop_first(), row, names, i - 1);
        assert(fs.drop_first().skip(i - 1) =~= fs.skip(i));
    } else {
        assert(fs.skip(0) =~= fs);
    }
}

/// Decodes every mapped field of one row into a fresh value list; fails on
/// the first field whose cell is missing where required or malformed.
pub fn decode_row_values(rt: &RecordType, row: &RemoteRow, mapping: &NameIndexMapping) -> (r:
    Result<Vec<Option<Value>>, TableError>)
    requires
        rt.well_formed(),
    ensures
        (match r {
            Ok(vals) => {
                &&& row_decode_error(rt.fields@, row_view(row@), mapping.names_view()) is None
                &&& vals@.len() == rt.fields@.len()
                &&& forall|i: int|
                    0 <= i < vals@.len() ==> opt_value_view(#[trigger] vals@[i]) == decoded_values(
                        rt.fields@,
                        row_view(row@),
                        mapping.names_view(),
                    )[i]
                &&& forall|i: int|
                    0 <= i < vals@.len() ==> (match opt_value_view(#[trigger] vals@[i]) {
                        Some(v) => v.valid() && Some(v.type_of()) == rt.fields@[i].value_type,
                        None => true,
                    })
            },
            Err(e) => row_decode_error(rt.fields@, row_view(row@), mapping.names_view()) == Some(
                e,
            ),
        }),
{
    let ghost fs = rt.fields@;
    let ghost rv = row_view(row@);
    let ghost ns = mapping.names_view();
    let mut vals: Vec<Option<Value>> = Vec::new();
    let mut i: usize = 0;
    while i < rt.fields.len()
        invariant
            i <= fs.len(),
            fs == rt.fields@,
            rt.well_formed(),
            rv == row_view(row@),
            ns == mapping.names_view(),
            vals@.len() == i,
            forall|j: int|
                0 <= j < i ==> (#[trigger] fs[j]).is_client_handle || decode_field(fs[j], rv, ns)
                    is Ok,
            forall|j: int|
                0 <= j < i ==> opt_value_view(#[trigger] vals@[j]) == decoded_values(fs, rv, ns)[j],
            forall|j: int|
                0 <= j < i ==> (match opt_value_view(#[trigger] vals@[j]) {
                    Some(v) => v.valid() && Some(v.type_of()) == fs[j].value_type,
                    None => true,
                }),
        decreases fs.len() - i,
    {
        let f = &rt.fields[i];
        if f.is_client_handle {
            vals.push(None);
        } else {
            let tag = match f.value_type {
                Some(t) => t,
                None => {
                    proof {
                        assert(false);
                    }
                    crate::values::BqType::Str
                },
            };
            let ix_opt = mapping.lookup(f.remote_name.as_str());
            match ix_opt {
                None => {
                    proof {
                        lemma_row_decode_skip(fs, rv, ns, i as int);
                        assert(fs.skip(i as int)[0] == fs[i as int]);
                    }
                    return Err(TableError::DataIntegrity(DataIntegrityError::MissingColumn));
                },
                Some(ix) => {
                    if ix >= row.len() {
                        proof {
                            lemma_row_decode_skip(fs, rv, ns, i as int);
                            assert(fs.skip(i as int)[0] == fs[i as int]);
                        }
                        return Err(TableError::DataIntegrity(DataIntegrityError::MissingColumn));
                    }
                    proof {
                        assert(rv[ix as int] == cell_view(row@[ix as int]));
                    }
                    match &row[ix] {
                        None => {
                            if f.required {
                                proof {
                                    lemma_row_decode_skip(fs, rv, ns, i as int);
                                    assert(fs.skip(i as int)[0] == fs[i as int]);
                                }
                                return Err(
                                    TableError::DataIntegrity(
                                        DataIntegrityError::RequiredCellAbsent,
                                    ),
                                );
                            }
                            vals.push(None);
                        },
                        Some(s) => {
                            if f.required {
                                match deserialize_value(tag, s) {
                                    Ok(v) => {
                                        vals.push(Some(v));
                                    },
                                    Err(e) => {
                                        proof {
                                            lemma_row_decode_skip(fs, rv, ns, i as int);
                                            assert(fs.skip(i as int)[0] == fs[i as int]);
                                        }
                                        return Err(TableError::ValueFormat(e));
                                    },
                                }
                            } else {
                                vals.push(deserialize_opt_value(tag, s));
                            }
                        },
                    }
                },
            }
        }
        i = i + 1;
    }
    proof {
        lemma_row_decode_skip(fs, rv, ns, fs.len() as int);
        assert(fs.skip(fs.len() as int).len() == 0);
    }
    Ok(vals)
}

impl RecordInstance {
    /// Overwrites this instance's fields from one fetched row; on failure
    /// the instance is left as it was.
    pub fn write_from_table_row(
        &mut self,
        rt: &RecordType,
        row: &RemoteRow,
        mapping: &NameIndexMapping,
    ) -> (r: Result<(), TableError>)
        requires
            rt.well_formed(),
        ensures
            (match r {
                Ok(()) => {
                    &&& row_decode_error(rt.fields@, row_view(row@), mapping.names_view()) is None
                    &&& final(self).conforms_to(*rt)
                    &&& final(self).values@.len() == rt.fields@.len()
                    &&& forall|i: int|
                        0 <= i < rt.fields@.len() ==> final(self).value_at(i) == decoded_values(
                            rt.fields@,
                            row_view(row@),
                            mapping.names_view(),
                        )[i]
                },
                Err(e) => {
                    &&& row_decode_error(rt.fields@, row_view(row@), mapping.names_view()) == Some(
                        e,
                    )
                    &&& *final(self) == *old(self)
                },
            }),
    {
        match decode_row_values(rt, row, mapping) {
            Ok(vals) => {
                self.values = vals;
                proof {
                    assert(self.conforms_to(*rt)) by {
                        assert forall|i: int|
                            0 <= i < rt.fields@.len() && (
                            #[trigger] rt.fields@[i]).is_client_handle implies self.value_at(i)
                            is None by {
                            assert(decoded_values(
                                rt.fields@,
                                row_view(row@),
                                mapping.names_view(),
                            )[i] is None);
                        }
                        assert forall|i: int|
                            0 <= i < rt.fields@.len() && !(
                            #[trigger] rt.fields@[i]).is_client_handle implies (match self.value_at(
                            i,
                        ) {
                            Some(v) => v.valid() && Some(v.type_of()) == rt.fields@[i].value_type,
                            None => !rt.fields@[i].required,
                        }) by {
                            lemma_row_decode_skip_point(
                                rt.fields@,
                                row_view(row@),
                                mapping.names_view(),
                                i,
                            );
                        }
                    }
                }
                Ok(())
            },
            Err(e) => Err(e),
        }
    }
}

/// Where a whole row decodes, each single mapped field decodes, and a
/// required field never decodes to "no value".
proof fn lemma_row_decode_skip_point(
    fs: Seq<FieldDescriptor>,
    row: Seq<Option<Seq<char>>>,
    names: Seq<Seq<char>>,
    i: int,
)
    requires
        0 <= i < fs.len(),
        row_decode_error(fs, row, names) is None,
    ensures
        fs[i].is_client_handle || (match decode_field(fs[i], row, names) {
            Ok(v) => fs[i].required ==> v is Some,
            Err(_) => false,
        }),
    decreases fs.len(),
{
    if i > 0 {
        lemma_row_decode_skip_point(fs.drop_first(), row, names, i - 1);
        assert(fs.drop_first()[i - 1] == fs[i]);
    }
}

/// Decodes one fetched row into a fresh record instance.
pub fn create_from_table_row(rt: &RecordType, row: &RemoteRow, mapping: &NameIndexMapping) -> (r:
    Result<RecordInstance, TableError>)
    requires
        rt.well_formed(),
    ensures
        (match r {
            Ok(inst) => {
                &&& row_decode_error(rt.fields@, row_view(row@), mapping.names_view()) is None
                &&& inst.conforms_to(*rt)
                &&& inst.values@.len() == rt.fields@.len()
                &&& forall|i: int|
                    0 <= i < rt.fields@.len() ==> inst.value_at(i) == decoded_values(
                        rt.fields@,
                        row_view(row@),
                        mapping.names_view(),
                    )[i]
            },
            Err(e) => row_decode_error(rt.fields@, row_view(row@), mapping.names_view()) == Some(
                e,
            ),
        }),
{
    let seed: Vec<Option<Value>> = Vec::new();
    let mut inst = RecordInstance { values: seed };
    match inst.write_from_table_row(rt, row, mapping) {
        Ok(()) => Ok(inst),
        Err(e) => Err(e),
    }
}

} // verus!
