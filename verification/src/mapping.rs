//! Name resolution and query-text synthesis over a `RecordType`: the
//! local-to-remote name resolver and the sorted column, placeholder and
//! assignment lists that the query builders splice into statements.

use vstd::prelude::*;
use vstd::string::*;
use crate::schema::{FieldDescriptor, RecordType};
use crate::text::{
    join_comma, join_comma_strings, lemma_sort_strs_multiset, lemma_sort_strs_sorted, sort_strings,
    sort_strs, sorted_strs, str_eq, str_views,
};

verus! {

/// A by-field query named a field that the record type does not map.
#[derive(Debug)]
pub struct FieldResolutionError {
    /// The local names a caller may use: one per mapped field.
    pub valid_fields: Vec<String>,
}

/// The mapped fields: every field but the client handle, the primary key
/// included.
pub open spec fn queryable(fs: Seq<FieldDescriptor>) -> Seq<FieldDescriptor> {
    fs.filter(|f: FieldDescriptor| !f.is_client_handle)
}

/// The remote column names of the mapped fields, in declaration order.
pub open spec fn queryable_remote_names(fs: Seq<FieldDescriptor>) -> Seq<Seq<char>> {
    queryable(fs).map_values(|f: FieldDescriptor| f.remote_name@)
}

/// The mapped fields that an update assigns: everything but the client
/// handle and the primary key.
pub open spec fn updatable(fs: Seq<FieldDescriptor>) -> Seq<FieldDescriptor> {
    fs.filter(|f: FieldDescriptor| !f.is_client_handle && !f.is_primary_key)
}

pub open spec fn updatable_remote_names(fs: Seq<FieldDescriptor>) -> Seq<Seq<char>> {
    updatable(fs).map_values(|f: FieldDescriptor| f.remote_name@)
}

/// The parameter placeholder of a remote column name.
pub open spec fn placeholder_of(n: Seq<char>) -> Seq<char> {
    "@__"@ + n
}

/// The placeholders of a list of remote column names.
pub open spec fn placeholders_of(names: Seq<Seq<char>>) -> Seq<Seq<char>> {
    names.map_values(|n: Seq<char>| placeholder_of(n))
}

/// The update assignment of a remote column name.
pub open spec fn assignment_of(n: Seq<char>) -> Seq<char> {
    n + " = @__"@ + n
}

/// The assignments of a list of remote column names.
pub open spec fn assignments_of(names: Seq<Seq<char>>) -> Seq<Seq<char>> {
    names.map_values(|n: Seq<char>| assignment_of(n))
}

/// Appending a name appends its placeholder and its assignment.
proof fn lemma_maps_push(names: Seq<Seq<char>>, x: Seq<char>)
    ensures
        placeholders_of(names.push(x)) == placeholders_of(names).push(placeholder_of(x)),
        assignments_of(names.push(x)) == assignments_of(names).push(assignment_of(x)),
{
    assert forall|j: int| 0 <= j < names.len() + 1 implies placeholders_of(names.push(x))[j]
        == placeholders_of(names).push(placeholder_of(x))[j] && assignments_of(names.push(x))[j]
        == assignments_of(names).push(assignment_of(x))[j] by {
        if j < names.len() {
            assert(names.push(x)[j] == names[j]);
        } else {
            assert(names.push(x)[j] == x);
        }
    }
    assert(placeholders_of(names.push(x)) =~= placeholders_of(names).push(placeholder_of(x)));
    assert(assignments_of(names.push(x)) =~= assignments_of(names).push(assignment_of(x)));
}

/// Appending a field appends its remote name to the name lists it is part
/// of.
proof fn lemma_remote_names_push(fs: Seq<FieldDescriptor>, x: FieldDescriptor)
    ensures
        queryable_remote_names(fs.push(x)) == if !x.is_client_handle {
            queryable_remote_names(fs).push(x.remote_name@)
        } else {
            queryable_remote_names(fs)
        },
        updatable_remote_names(fs.push(x)) == if !x.is_client_handle && !x.is_primary_key {
            updatable_remote_names(fs).push(x.remote_name@)
        } else {
            updatable_remote_names(fs)
        },
{
    lemma_queryable_push(fs, x);
    if !x.is_client_handle {
        let q = queryable(fs);
        assert forall|j: int| 0 <= j < q.len() + 1 implies queryable_remote_names(fs.push(x))[j]
            == queryable_remote_names(fs).push(x.remote_name@)[j] by {
            if j < q.len() {
                assert(q.push(x)[j] == q[j]);
            } else {
                assert(q.push(x)[j] == x);
            }
        }
        assert(queryable_remote_names(fs.push(x)) =~= queryable_remote_names(fs).push(
            x.remote_name@,
        ));
    } else {
        assert(queryable_remote_names(fs.push(x)) =~= queryable_remote_names(fs));
    }
    if !x.is_client_handle && !x.is_primary_key {
        let u = updatable(fs);
        assert forall|j: int| 0 <= j < u.len() + 1 implies updatable_remote_names(fs.push(x))[j]
            == updatable_remote_names(fs).push(x.remote_name@)[j] by {
            if j < u.len() {
                assert(u.push(x)[j] == u[j]);
            } else {
                assert(u.push(x)[j] == x);
            }
        }
        assert(updatable_remote_names(fs.push(x)) =~= updatable_remote_names(fs).push(
            x.remote_name@,
        ));
    } else {
        assert(updatable_remote_names(fs.push(x)) =~= updatable_remote_names(fs));
    }
}

/// The remote name the resolver gives a local field name: that of the first
/// mapped field with this local name.
pub open spec fn resolve_local(fs: Seq<FieldDescriptor>, name: Seq<char>) -> Option<Seq<char>>
    decreases fs.len(),
{
    if fs.len() == 0 {
        None
    } else if !fs[0].is_client_handle && fs[0].local_name@ == name {
        Some(fs[0].remote_name@)
    } else {
        resolve_local(fs.drop_first(), name)
    }
}

/// Appending one field extends the mapped-field lists in the evident way.
proof fn lemma_queryable_push(fs: Seq<FieldDescriptor>, x: FieldDescriptor)
    ensures
        queryable(fs.push(x)) == if !x.is_client_handle {
            queryable(fs).push(x)
        } else {
            queryable(fs)
        },
        updatable(fs.push(x)) == if !x.is_client_handle && !x.is_primary_key {
            updatable(fs).push(x)
        } else {
            updatable(fs)
        },
{
    reveal(Seq::<_>::filter);
    assert(fs.push(x).drop_last() =~= fs);
    assert(fs.push(x).last() == x);
}

/// Resolution is decided by the fields from `i` on when none of the first
/// `i` fields matches.
proof fn lemma_resolve_skip(fs: Seq<FieldDescriptor>, name: Seq<char>, i: int)
    requires
        0 <= i <= fs.len(),
        forall|j: int|
            0 <= j < i ==> !(!(#[trigger] fs[j]).is_client_handle && fs[j].local_name@ == name),
    ensures
        resolve_local(fs, name) == resolve_local(fs.skip(i), name),
    decreases i,
{
    if i > 0 {
        lemma_resolve_skip(fs.drop_first(), name, i - 1);
        assert(fs.drop_first().skip(i - 1) =~= fs.skip(i));
    } else {
        assert(fs.skip(0) =~= fs);
    }
}

impl RecordType {
    /// Resolves a local field name to its remote column name; an unknown
    /// name is answered with the list of valid local names.
    pub fn get_field_name(&self, field_name: &str) -> (r: Result<String, FieldResolutionError>)
        ensures
            (match r {
                Ok(remote) => resolve_local(self.fields@, field_name@) == Some(remote@),
                Err(e) => {
                    &&& resolve_local(self.fields@, field_name@) is None
                    &&& e.valid_fields@.len() == queryable(self.fields@).len()
                    &&& forall|i: int|
                        0 <= i < e.valid_fields@.len() ==> (#[trigger] e.valid_fields@[i])@
                            == queryable(self.fields@)[i].local_name@
                },
            }),
    {
        let ghost fs = self.fields@;
        let mut i: usize = 0;
        while i < self.fields.len()
            invariant
                i <= fs.len(),
                fs == self.fields@,
                forall|j: int|
                    0 <= j < i ==> !(!(#[trigger] fs[j]).is_client_handle && fs[j].local_name@
                        == field_name@),
            decreases fs.len() - i,
        {
            let f = &self.fields[i];
            if !f.is_client_handle && str_eq(f.local_name.as_str(), field_name) {
                proof {
                    lemma_resolve_skip(fs, field_name@, i as int);
                    assert(fs.skip(i as int)[0] == fs[i as int]);
                }
                return Ok(f.remote_name.clone());
            }
            i = i + 1;
        }
        proof {
            lemma_resolve_skip(fs, field_name@, fs.len() as int);
            assert(fs.skip(fs.len() as int).len() == 0);
        }
        let mut valid: Vec<String> = Vec::new();
        let mut j: usize = 0;
        while j < self.fields.len()
            invariant
                j <= fs.len(),
                fs == self.fields@,
                valid@.len() == queryable(fs.take(j as int)).len(),
                forall|x: int|
                    0 <= x < valid@.len() ==> (#[trigger] valid@[x])@ == queryable(
                        fs.take(j as int),
                    )[x].local_name@,
            decreases fs.len() - j,
        {
            let f = &self.fields[j];
            proof {
                assert(fs.take(j + 1int) =~= fs.take(j as int).push(fs[j as int]));
                lemma_queryable_push(fs.take(j as int), fs[j as int]);
            }
            if !f.is_client_handle {
                valid.push(f.local_name.clone());
            }
            j = j + 1;
        }
        proof {
            assert(fs.take(fs.len() as int) =~= fs);
        }
        Err(FieldResolutionError { valid_fields: valid })
    }

    /// The remote column name of the primary-key field.
    pub fn get_pk_name(&self) -> (r: String)
        requires
            self.well_formed(),
        ensures
            r@ == self.fields@[self.pk_index as int].remote_name@,
    {
        self.fields[self.pk_index].remote_name.clone()
    }

    /// The name of the remote table.
    pub fn get_table_name(&self) -> (r: String)
        ensures
            r@ == self.table_name@,
    {
        self.table_name.clone()
    }

    /// The local-to-remote name mapping of every mapped field, the primary
    /// key included, in declaration order.
    pub fn get_query_fields(&self) -> (r: Vec<(String, String)>)
        ensures
            r@.len() == queryable(self.fields@).len(),
            forall|i: int|
                0 <= i < r@.len() ==> (#[trigger] r@[i]).0@ == queryable(
                    self.fields@,
                )[i].local_name@ && r@[i].1@ == queryable(self.fields@)[i].remote_name@,
    {
        let ghost fs = self.fields@;
        let mut r: Vec<(String, String)> = Vec::new();
        let mut i: usize = 0;
        while i < self.fields.len()
            invariant
                i <= fs.len(),
                fs == self.fields@,
                r@.len() == queryable(fs.take(i as int)).len(),
                forall|x: int|
                    0 <= x < r@.len() ==> (#[trigger] r@[x]).0@ == queryable(
                        fs.take(i as int),
                    )[x].local_name@ && r@[x].1@ == queryable(fs.take(i as int))[x].remote_name@,
            decreases fs.len() - i,
        {
            let f = &self.fields[i];
            proof {
                assert(fs.take(i + 1int) =~= fs.take(i as int).push(fs[i as int]));
                lemma_queryable_push(fs.take(i as int), fs[i as int]);
            }
            if !f.is_client_handle {
                r.push((f.local_name.clone(), f.remote_name.clone()));
            }
            i = i + 1;
        }
        proof {
            assert(fs.take(fs.len() as int) =~= fs);
        }
        r
    }

    /// The remote names of the mapped fields as strings, declaration order.
    fn queryable_remote_strings(&self) -> (v: Vec<String>)
        ensures
            str_views(v@) == queryable_remote_names(self.fields@),
    {
        let ghost fs = self.fields@;
        let mut v: Vec<String> = Vec::new();
        let mut i: usize = 0;
        while i < self.fields.len()
            invariant
                i <= fs.len(),
                fs == self.fields@,
                str_views(v@) == queryable_remote_names(fs.take(i as int)),
            decreases fs.len() - i,
        {
            let f = &self.fields[i];
            proof {
                assert(fs.take(i + 1int) =~= fs.take(i as int).push(fs[i as int]));
                lemma_remote_names_push(fs.take(i as int), fs[i as int]);
            }
            if !f.is_client_handle {
                proof {
                    crate::text::lemma_str_views_push(v@, fs[i as int].remote_name);
                }
                v.push(f.remote_name.clone());
            }
            i = i + 1;
        }
        proof {
            assert(fs.take(fs.len() as int) =~= fs);
        }
        v
    }

    /// The select column list: the remote names of all mapped fields,
    /// lexically sorted and comma-joined, so that the query text is the same
    /// on every call.
    pub fn get_query_fields_str(&self) -> (r: String)
        ensures
            r@ == join_comma(sort_strs(queryable_remote_names(self.fields@))),
    {
        let names = self.queryable_remote_strings();
        let sorted = sort_strings(&names);
        join_comma_strings(&sorted)
    }

    /// The insert placeholder list: one `@__<name>` placeholder per mapped
    /// field, in the same sort order as the column list.
    pub fn get_query_fields_insert_str(&self) -> (r: String)
        ensures
            r@ == join_comma(placeholders_of(sort_strs(queryable_remote_names(self.fields@)))),
    {
        let names = self.queryable_remote_strings();
        let sorted = sort_strings(&names);
        let ghost cols = sort_strs(queryable_remote_names(self.fields@));
        let mut phs: Vec<String> = Vec::new();
        let mut i: usize = 0;
        while i < sorted.len()
            invariant
                i <= sorted@.len(),
                str_views(sorted@) == cols,
                str_views(phs@) == placeholders_of(cols.take(i as int)),
            decreases sorted@.len() - i,
        {
            let mut p = String::from_str("@__");
            p.append(sorted[i].as_str());
            proof {
                assert(cols.take(i + 1int) =~= cols.take(i as int).push(cols[i as int]));
                lemma_maps_push(cols.take(i as int), cols[i as int]);
                crate::text::lemma_str_views_push(phs@, p);
                assert(sorted@[i as int]@ == cols[i as int]);
                assert(p@ == placeholder_of(cols[i as int]));
            }
            phs.push(p);
            i = i + 1;
        }
        proof {
            assert(cols.take(cols.len() as int) =~= cols);
        }
        join_comma_strings(&phs)
    }

    /// The remote names of the updatable fields as strings.
    fn updatable_remote_strings(&self) -> (v: Vec<String>)
        ensures
            str_views(v@) == updatable_remote_names(self.fields@),
    {
        let ghost fs = self.fields@;
        let mut v: Vec<String> = Vec::new();
        let mut i: usize = 0;
        while i < self.fields.len()
            invariant
                i <= fs.len(),
                fs == self.fields@,
                str_views(v@) == updatable_remote_names(fs.take(i as int)),
            decreases fs.len() - i,
        {
            let f = &self.fields[i];
            proof {
                assert(fs.take(i + 1int) =~= fs.take(i as int).push(fs[i as int]));
                lemma_remote_names_push(fs.take(i as int), fs[i as int]);
            }
            if !f.is_client_handle && !f.is_primary_key {
                proof {
                    crate::text::lemma_str_views_push(v@, fs[i as int].remote_name);
                }
                v.push(f.remote_name.clone());
            }
            i = i + 1;
        }
        proof {
            assert(fs.take(fs.len() as int) =~= fs);
        }
        v
    }

    /// The update assignment list: `<name> = @__<name>` per mapped field,
    /// the primary key excluded, lexically sorted and comma-joined.
    pub fn get_query_fields_update_str(&self) -> (r: String)
        ensures
            r@ == join_comma(assignments_of(sort_strs(updatable_remote_names(self.fields@)))),
    {
        let names = self.updatable_remote_strings();
        let sorted = sort_strings(&names);
        let ghost cols = sort_strs(updatable_remote_names(self.fields@));
        let mut parts: Vec<String> = Vec::new();
        let mut i: usize = 0;
        while i < sorted.len()
            invariant
                i <= sorted@.len(),
                str_views(sorted@) == cols,
                str_views(parts@) == assignments_of(cols.take(i as int)),
            decreases sorted@.len() - i,
        {
            let mut p = sorted[i].clone();
            p.append(" = @__");
            p.append(sorted[i].as_str());
            proof {
                assert(cols.take(i + 1int) =~= cols.take(i as int).push(cols[i as int]));
                lemma_maps_push(cols.take(i as int), cols[i as int]);
                crate::text::lemma_str_views_push(parts@, p);
                assert(sorted@[i as int]@ == cols[i as int]);
                assert(p@ == assignment_of(cols[i as int]));
            }
            parts.push(p);
            i = i + 1;
        }
        proof {
            assert(cols.take(cols.len() as int) =~= cols);
        }
        join_comma_strings(&parts)
    }

    /// The table identifier a query names: `<dataset>.<table>`.
    pub fn get_identifier(&self, dataset_id: &str) -> (r: String)
        ensures
            r@ == dataset_id@ + "."@ + self.table_name@,
    {
        let mut r = String::from_str(dataset_id);
        r.append(".");
        r.append(self.table_name.as_str());
        r
    }

    /// The where clause of the primary-key equality.
    pub fn get_base_where(&self) -> (r: String)
        requires
            self.well_formed(),
        ensures
            r@ == where_part(self.fields@[self.pk_index as int].remote_name@, false),
    {
        let pk = self.get_pk_name();
        get_where_part(pk.as_str(), false)
    }
}

/// The where clause that filters one column: the IS-NULL form where the
/// comparand is absent, the placeholder equality otherwise.
pub open spec fn where_part(field_name: Seq<char>, is_comparing_to_null: bool) -> Seq<char> {
    if is_comparing_to_null {
        field_name + " IS NULL"@
    } else {
        field_name + " = @__"@ + field_name
    }
}

/// Builds the where clause that filters one remote column.
pub fn get_where_part(field_name: &str, is_comparing_to_null: bool) -> (r: String)
    ensures
        r@ == where_part(field_name@, is_comparing_to_null),
{
    let mut r = String::from_str(field_name);
    if is_comparing_to_null {
        r.append(" IS NULL");
    } else {
        r.append(" = @__");
        r.append(field_name);
    }
    r
}

/// Sort determinism and positional correspondence: the select column list
/// and the insert placeholder list are drawn from one sorted sequence, whose
/// order is lexicographic and whose contents are exactly the mapped remote
/// names; the placeholder at any position is the placeholder of the column
/// at the same position.
pub proof fn lemma_column_placeholder_alignment(fs: Seq<FieldDescriptor>)
    ensures
        sorted_strs(sort_strs(queryable_remote_names(fs))),
        sort_strs(queryable_remote_names(fs)).to_multiset() == queryable_remote_names(
            fs,
        ).to_multiset(),
        placeholders_of(sort_strs(queryable_remote_names(fs))).len() == sort_strs(
            queryable_remote_names(fs),
        ).len(),
        forall|i: int|
            0 <= i < sort_strs(queryable_remote_names(fs)).len() ==> placeholders_of(
                sort_strs(queryable_remote_names(fs)),
            )[i] == "@__"@ + (#[trigger] sort_strs(queryable_remote_names(fs))[i]),
{
    lemma_sort_strs_sorted(queryable_remote_names(fs));
    lemma_sort_strs_multiset(queryable_remote_names(fs));
}

} // verus!
