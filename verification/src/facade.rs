//! The record-access operations, as pure planning and decision steps: each
//! network round-trip of a load or save is prepared here as query text plus
//! parameters, and its response is decoded or judged here. The caller runs
//! the prepared query against the remote service between the two steps.

use vstd::prelude::*;
use vstd::string::*;
use crate::convert::ValueFormatError;
use crate::mapping::{
    assignments_of, placeholders_of, queryable_remote_names, resolve_local,
    updatable_remote_names, where_part,
};
use crate::numbers::{dec_str, parse_i64, parse_i64_str, u64_to_dec};
use crate::params::{param_of, QueryParameter};
use crate::rows::{
    create_from_table_row, decoded_values, get_name_index_mapping, row_decode_error, row_view,
    DataIntegrityError, QueryResult, RecordInstance, TableError,
};
use crate::schema::RecordType;
use crate::text::{join_comma, sort_strs, str_views};
use crate::values::{opt_value_view, serialize_value_spec, Value};

verus! {

/// The text of the point-lookup query of one record by its primary key.
pub open spec fn load_query_text(rt: RecordType, dataset_id: Seq<char>) -> Seq<char> {
    "select "@ + join_comma(sort_strs(queryable_remote_names(rt.fields@))) + " from "@ + dataset_id
        + "."@ + rt.table_name@ + " where "@ + where_part(
        rt.fields@[rt.pk_index as int].remote_name@,
        false,
    ) + " limit 1"@
}

impl RecordType {
    /// Builds the query that fetches the one row of a record by its primary
    /// key.
    pub fn load_from_bigquery_query(&self, dataset_id: &str) -> (r: String)
        requires
            self.well_formed(),
        ensures
            r@ == load_query_text(*self, dataset_id@),
    {
        let mut q = String::from_str("select ");
        q.append(self.get_query_fields_str().as_str());
        q.append(" from ");
        q.append(self.get_identifier(dataset_id).as_str());
        q.append(" where ");
        q.append(self.get_base_where().as_str());
        q.append(" limit 1");
        q
    }

    /// The one-element parameter list binding the primary key, used by the
    /// point lookup and by the existence probe.
    pub fn pk_only_params(&self, inst: &RecordInstance) -> (r: Vec<QueryParameter>)
        requires
            self.well_formed(),
            inst.conforms_to(*self),
        ensures
            r@.len() == 1,
            r@[0]@ == param_of(
                self.fields@[self.pk_index as int],
                inst.value_at(self.pk_index as int),
            ),
    {
        let mut r: Vec<QueryParameter> = Vec::new();
        r.push(self.get_pk_param(inst));
        r
    }

    /// Applies the point-lookup response to the instance: exactly one row is
    /// expected, and its cells overwrite every mapped field.
    pub fn load_from_bigquery_apply(&self, inst: &mut RecordInstance, res: &QueryResult) -> (r:
        Result<(), TableError>)
        requires
            self.well_formed(),
        ensures
            (match res.rows {
                None => r matches Err(TableError::DataIntegrity(DataIntegrityError::NoRows))
                    && *final(inst) == *old(inst),
                Some(ref rows) => if rows@.len() != 1 {
                    r matches Err(TableError::DataIntegrity(DataIntegrityError::WrongRowCount))
                        && *final(inst) == *old(inst)
                } else {
                    match res.schema {
                        None => r matches Err(
                            TableError::DataIntegrity(DataIntegrityError::MissingSchema),
                        ) && *final(inst) == *old(inst),
                        Some(ref schema) => {
                            let names = str_views(schema@);
                            match row_decode_error(self.fields@, row_view(rows@[0]@), names) {
                                Some(e) => r == Err::<(), TableError>(e) && *final(inst) == *old(
                                    inst,
                                ),
                                None => {
                                    &&& r is Ok
                                    &&& final(inst).conforms_to(*self)
                                    &&& final(inst).values@.len() == self.fields@.len()
                                    &&& forall|i: int|
                                        0 <= i < self.fields@.len() ==> final(inst).value_at(i)
                                            == decoded_values(
                                            self.fields@,
                                            row_view(rows@[0]@),
                                            names,
                                        )[i]
                                },
                            }
                        },
                    }
                },
            }),
    {
        match &res.rows {
            None => Err(TableError::DataIntegrity(DataIntegrityError::NoRows)),
            Some(rows) => {
                if rows.len() != 1 {
                    return Err(TableError::DataIntegrity(DataIntegrityError::WrongRowCount));
                }
                match &res.schema {
                    None => Err(TableError::DataIntegrity(DataIntegrityError::MissingSchema)),
                    Some(schema) => {
                        let mapping = get_name_index_mapping(schema);
                        proof {
                            assert(mapping.names_view() =~= str_views(schema@));
                        }
                        inst.write_from_table_row(self, &rows[0], &mapping)
                    },
                }
            },
        }
    }

    /// Builds the existence probe of a save: counts the rows carrying the
    /// instance's primary key.
    pub fn save_probe_query(&self, dataset_id: &str) -> (r: String)
        requires
            self.well_formed(),
        ensures
            r@ == "select count(*) from "@ + dataset_id@ + "."@ + self.table_name@ + " where "@
                + where_part(self.fields@[self.pk_index as int].remote_name@, false)
                + " limit 1"@,
    {
        let mut q = String::from_str("select count(*) from ");
        q.append(self.get_identifier(dataset_id).as_str());
        q.append(" where ");
        q.append(self.get_base_where().as_str());
        q.append(" limit 1");
        q
    }

    /// Builds the write statement of a save: an update of every mapped
    /// non-key column where the row exists, an insert of the full column and
    /// placeholder lists where it does not.
    pub fn save_statement(&self, row_exists: bool, dataset_id: &str) -> (r: String)
        requires
            self.well_formed(),
        ensures
            row_exists ==> r@ == "update "@ + dataset_id@ + "."@ + self.table_name@ + " set "@
                + join_comma(assignments_of(sort_strs(updatable_remote_names(self.fields@))))
                + " where "@ + where_part(
                self.fields@[self.pk_index as int].remote_name@,
                false,
            ),
            !row_exists ==> r@ == "insert into "@ + dataset_id@ + "."@ + self.table_name@ + " ("@
                + join_comma(sort_strs(queryable_remote_names(self.fields@))) + ") values("@
                + join_comma(placeholders_of(sort_strs(queryable_remote_names(self.fields@))))
                + ")"@,
    {
        if row_exists {
            let mut q = String::from_str("update ");
            q.append(self.get_identifier(dataset_id).as_str());
            q.append(" set ");
            q.append(self.get_query_fields_update_str().as_str());
            q.append(" where ");
            q.append(self.get_base_where().as_str());
            q
        } else {
            let mut q = String::from_str("insert into ");
            q.append(self.get_identifier(dataset_id).as_str());
            q.append(" (");
            q.append(self.get_query_fields_str().as_str());
            q.append(") values(");
            q.append(self.get_query_fields_insert_str().as_str());
            q.append(")");
            q
        }
    }

    /// Builds the by-field filter query and its parameter list: the IS-NULL
    /// where-form with no parameter where the comparand is absent, the
    /// placeholder equality with one bound parameter otherwise. An unknown
    /// field name is answered with the list of valid local names.
    pub fn load_by_field_plan(
        &self,
        dataset_id: &str,
        field_name: &str,
        field_value: &Option<Value>,
        max_amount: usize,
    ) -> (r: Result<(String, Vec<QueryParameter>), TableError>)
        requires
            self.well_formed(),
            (match field_value {
                Some(v) => v@.valid(),
                None => true,
            }),
        ensures
            (match r {
                Ok((q, ps)) => {
                    &&& resolve_local(self.fields@, field_name@) is Some
                    &&& q@ == by_field_query_text(
                        *self,
                        dataset_id@,
                        resolve_local(self.fields@, field_name@).unwrap(),
                        field_value is None,
                        max_amount as nat,
                    )
                    &&& (match opt_value_view(*field_value) {
                        Some(v) => ps@.len() == 1 && ps@[0]@.name == "__"@ + resolve_local(
                            self.fields@,
                            field_name@,
                        ).unwrap() && ps@[0]@.param_type == crate::values::bq_type_tag_spec(
                            v.type_of(),
                        ) && ps@[0]@.value == Some(serialize_value_spec(v)),
                        None => ps@.len() == 0,
                    })
                },
                Err(TableError::FieldResolution(e)) => {
                    &&& resolve_local(self.fields@, field_name@) is None
                    &&& e.valid_fields@.len() == crate::mapping::queryable(self.fields@).len()
                    &&& forall|i: int|
                        0 <= i < e.valid_fields@.len() ==> (#[trigger] e.valid_fields@[i])@
                            == crate::mapping::queryable(self.fields@)[i].local_name@
                },
                Err(_) => false,
            }),
    {
        let remote = match self.get_field_name(field_name) {
            Ok(n) => n,
            Err(e) => {
                return Err(TableError::FieldResolution(e));
            },
        };
        let where_clause = crate::mapping::get_where_part(remote.as_str(), field_value.is_none());
        let mut q = String::from_str("select ");
        q.append(self.get_query_fields_str().as_str());
        q.append(" from ");
        q.append(self.get_identifier(dataset_id).as_str());
        q.append(" where ");
        q.append(where_clause.as_str());
        q.append(" limit ");
        q.append(u64_to_dec(max_amount as u64).as_str());
        let mut ps: Vec<QueryParameter> = Vec::new();
        match field_value {
            Some(v) => {
                let tag = v.type_of();
                ps.push(crate::params::get_query_param(remote.as_str(), tag, field_value));
            },
            None => {},
        }
        Ok((q, ps))
    }

    /// Decodes an arbitrary query's response into fresh record instances:
    /// an absent result set is an empty collection, not an error; otherwise
    /// each row becomes one instance, and the first undecodable row fails
    /// the whole operation.
    #[verifier::loop_isolation(false)]
    pub fn load_by_custom_query_apply(&self, res: &QueryResult) -> (r: Result<
        Vec<RecordInstance>,
        TableError,
    >)
        requires
            self.well_formed(),
        ensures
            (match res.rows {
                None => r matches Ok(out) && out@.len() == 0,
                Some(ref rows) => match res.schema {
                    None => r matches Err(
                        TableError::DataIntegrity(DataIntegrityError::MissingSchema),
                    ),
                    Some(ref schema) => {
                        let names = str_views(schema@);
                        match r {
                            Ok(out) => {
                                &&& out@.len() == rows@.len()
                                &&& rows_first_error(self.fields@, rows@, names) is None
                                &&& forall|k: int|
                                    0 <= k < rows@.len() ==> row_decode_error(
                                        self.fields@,
                                        row_view((#[trigger] rows@[k])@),
                                        names,
                                    ) is None
                                &&& forall|k: int|
                                    0 <= k < rows@.len() ==> (#[trigger] out@[k]).conforms_to(
                                        *self,
                                    ) && out@[k].values@.len() == self.fields@.len()
                                &&& forall|k: int, i: int|
                                    0 <= k < rows@.len() && 0 <= i < self.fields@.len()
                                        ==> (#[trigger] out@[k].value_at(i)) == decoded_values(
                                        self.fields@,
                                        row_view(rows@[k]@),
                                        names,
                                    )[i]
                            },
                            Err(e) => rows_first_error(self.fields@, rows@, names) == Some(e),
                        }
                    },
                },
            }),
    {
        match &res.rows {
            None => Ok(Vec::new()),
            Some(rows) => {
                match &res.schema {
                    None => Err(TableError::DataIntegrity(DataIntegrityError::MissingSchema)),
                    Some(schema) => {
                        let mapping = get_name_index_mapping(schema);
                        proof {
                            assert(mapping.names_view() =~= str_views(schema@));
                        }
                        let mut out: Vec<RecordInstance> = Vec::new();
                        let mut k: usize = 0;
                        while k < rows.len()
                            invariant
                                k <= rows@.len(),
                                self.well_formed(),
                                mapping.names_view() == str_views(schema@),
                                out@.len() == k,
                                forall|j: int|
                                    0 <= j < k ==> row_decode_error(
                                        self.fields@,
                                        row_view((#[trigger] rows@[j])@),
                                        str_views(schema@),
                                    ) is None,
                                forall|j: int|
                                    0 <= j < k ==> (#[trigger] out@[j]).conforms_to(*self)
                                        && out@[j].values@.len() == self.fields@.len(),
                                forall|j: int, i: int|
                                    0 <= j < k && 0 <= i < self.fields@.len() ==> (
                                    #[trigger] out@[j].value_at(i)) == decoded_values(
                                        self.fields@,
                                        row_view(rows@[j]@),
                                        str_views(schema@),
                                    )[i],
                            decreases rows@.len() - k,
                        {
                            match create_from_table_row(self, &rows[k], &mapping) {
                                Ok(inst) => {
                                    out.push(inst);
                                },
                                Err(e) => {
                                    proof {
                                        let names = str_views(schema@);
                                        lemma_rows_first_error_skip(
                                            self.fields@,
                                            rows@,
                                            names,
                                            k as int,
                                        );
                                        assert(rows@.skip(k as int)[0] == rows@[k as int]);
                                    }
                                    return Err(e);
                                },
                            }
                            k = k + 1;
                        }
                        proof {
                            lemma_rows_first_error_skip(
                                self.fields@,
                                rows@,
                                str_views(schema@),
                                rows@.len() as int,
                            );
                            assert(rows@.skip(rows@.len() as int).len() == 0);
                        }
                        Ok(out)
                    },
                }
            },
        }
    }
}

/// The first decoding failure among the rows, in row order; `None` where
/// every row decodes.
pub open spec fn rows_first_error(
    fs: Seq<crate::schema::FieldDescriptor>,
    rows: Seq<crate::rows::RemoteRow>,
    names: Seq<Seq<char>>,
) -> Option<TableError>
    decreases rows.len(),
{
    if rows.len() == 0 {
        None
    } else {
        match row_decode_error(fs, row_view(rows[0]@), names) {
            Some(e) => Some(e),
            None => rows_first_error(fs, rows.drop_first(), names),
        }
    }
}

/// The first row failure is decided by the rows from `i` on when the first
/// `i` rows decode.
proof fn lemma_rows_first_error_skip(
    fs: Seq<crate::schema::FieldDescriptor>,
    rows: Seq<crate::rows::RemoteRow>,
    names: Seq<Seq<char>>,
    i: int,
)
    requires
        0 <= i <= rows.len(),
        forall|j: int|
            0 <= j < i ==> row_decode_error(fs, row_view((#[trigger] rows[j])@), names) is None,
    ensures
        rows_first_error(fs, rows, names) == rows_first_error(fs, rows.skip(i), names),
    decreases i,
{
    if i > 0 {
        lemma_rows_first_error_skip(fs, rows.drop_first(), names, i - 1);
        assert(rows.drop_first().skip(i - 1) =~= rows.skip(i));
    } else {
        assert(rows.skip(0) =~= rows);
    }
}

/// The text of a by-field filter query.
pub open spec fn by_field_query_text(
    rt: RecordType,
    dataset_id: Seq<char>,
    remote: Seq<char>,
    is_null: bool,
    max_amount: nat,
) -> Seq<char> {
    "select "@ + join_comma(sort_strs(queryable_remote_names(rt.fields@))) + " from "@ + dataset_id
        + "."@ + rt.table_name@ + " where "@ + where_part(remote, is_null) + " limit "@ + dec_str(
        max_amount,
    )
}

/// What the existence probe's response means: the single cell of the single
/// row, read as a count that must be zero (the row is new) or one (the row
/// exists); anything else is a fatal inconsistency.
pub open spec fn save_probe_outcome(res: QueryResult) -> Result<bool, TableError> {
    match res.rows {
        None => Err(TableError::DataIntegrity(DataIntegrityError::NoRows)),
        Some(rows) => if rows@.len() != 1 {
            Err(TableError::DataIntegrity(DataIntegrityError::WrongRowCount))
        } else if rows@[0]@.len() == 0 {
            Err(TableError::DataIntegrity(DataIntegrityError::MissingCell))
        } else {
            match rows@[0]@[0] {
                None => Err(TableError::DataIntegrity(DataIntegrityError::MissingCell)),
                Some(s) => match parse_i64_str(s@) {
                    None => Err(TableError::ValueFormat(ValueFormatError::InvalidInt64)),
                    Some(0) => Ok(false),
                    Some(1) => Ok(true),
                    Some(_) => Err(TableError::DataIntegrity(DataIntegrityError::BadCount)),
                },
            }
        },
    }
}

/// Judges the existence probe's response: whether the row to be saved
/// already exists.
pub fn save_row_exists(res: &QueryResult) -> (r: Result<bool, TableError>)
    ensures
        (match save_probe_outcome(*res) {
            Ok(b) => r matches Ok(rb) && rb == b,
            Err(e) => r matches Err(re) && re == e,
        }),
{
    match &res.rows {
        None => Err(TableError::DataIntegrity(DataIntegrityError::NoRows)),
        Some(rows) => {
            if rows.len() != 1 {
                return Err(TableError::DataIntegrity(DataIntegrityError::WrongRowCount));
            }
            let row = &rows[0];
            if row.len() == 0 {
                return Err(TableError::DataIntegrity(DataIntegrityError::MissingCell));
            }
            match &row[0] {
                None => Err(TableError::DataIntegrity(DataIntegrityError::MissingCell)),
                Some(s) => {
                    match parse_i64(s.as_str()) {
                        None => Err(TableError::ValueFormat(ValueFormatError::InvalidInt64)),
                        Some(n) => {
                            if n == 0 {
                                Ok(false)
                            } else if n == 1 {
                                Ok(true)
                            } else {
                                Err(TableError::DataIntegrity(DataIntegrityError::BadCount))
                            }
                        },
                    }
                },
            }
        },
    }
}

} // verus!
