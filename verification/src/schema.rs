//! The field metadata extractor: turns a structural description of a record
//! type (named fields, each carrying declarative markers) into the immutable
//! `RecordType` descriptor that drives query synthesis and row decoding.

use vstd::prelude::*;
use crate::text::str_eq;
use crate::values::BqType;

verus! {

/// How a field's declared local type relates to a mapped value type.
#[derive(Clone, Copy, PartialEq, Eq, Structural, Debug)]
pub enum LocalType {
    /// The field holds the value type directly.
    Plain(BqType),
    /// The field holds an optional wrapping of the value type.
    Optional(BqType),
    /// The field's type is no mapped value type (such as the client handle).
    Unmapped,
}

/// One named field of a record definition, with its declarative markers.
pub struct FieldDef {
    pub local_name: String,
    pub ty: LocalType,
    /// Marks the single primary-key field; implies `required`.
    pub primary_key: bool,
    /// Requires the remote cell to be present; the field then holds the
    /// value type directly rather than an optional wrapping.
    pub required: bool,
    /// Marks the single client-handle field.
    pub client: bool,
    /// Explicit remote column name; the local name is used where absent.
    pub db_name: Option<String>,
    /// Excludes the field from mapping entirely.
    pub db_ignore: bool,
}

/// One mapped field of a record type.
pub struct FieldDescriptor {
    pub local_name: String,
    /// The resolved remote column name.
    pub remote_name: String,
    /// The remote value type; absent exactly for the client handle, which is
    /// metadata about where the record lives, not data in the record.
    pub value_type: Option<BqType>,
    /// Whether decoding fails when the remote cell is absent.
    pub required: bool,
    pub is_primary_key: bool,
    pub is_client_handle: bool,
}

/// The descriptor of one mappable record type: its mapped fields, its table
/// name, and the positions of the two distinguished fields.
pub struct RecordType {
    pub table_name: String,
    pub fields: Vec<FieldDescriptor>,
    /// Position of the primary-key field in `fields`.
    pub pk_index: usize,
    /// Position of the client-handle field in `fields`.
    pub client_index: usize,
}

/// A fatal flaw in a record-type definition, found at generation time.
#[derive(Clone, Copy, PartialEq, Eq, Structural, Debug)]
pub enum SchemaDefinitionError {
    /// No field carries the primary-key marker.
    MissingPrimaryKey,
    /// More than one field carries the primary-key marker.
    MultiplePrimaryKeys,
    /// No field carries the client marker.
    MissingClientHandle,
    /// More than one field carries the client marker.
    MultipleClientHandles,
    /// One field carries both the primary-key and the client marker.
    ConflictingRoles,
    /// A mapped field's local type does not fit its markers: a required
    /// field must hold the value type directly, any other an optional
    /// wrapping of it.
    UnresolvableType,
    /// Two mapped fields resolve to the same remote column name.
    DuplicateRemoteName,
}

/// Whether the markers imply presence: the primary key is always required.
pub open spec fn effective_required(d: FieldDef) -> bool {
    d.primary_key || d.required
}

/// The remote column name a field resolves to.
pub open spec fn resolved_remote(d: FieldDef) -> Seq<char> {
    match d.db_name {
        Some(n) => n@,
        None => d.local_name@,
    }
}

/// The remote value type of a mapped field, by its markers and local type.
pub open spec fn resolved_value_type(d: FieldDef) -> Option<BqType> {
    if d.client {
        None
    } else {
        match d.ty {
            LocalType::Plain(t) => Some(t),
            LocalType::Optional(t) => Some(t),
            LocalType::Unmapped => None,
        }
    }
}

/// Whether a mapped (non-client) field's local type fits its markers.
pub open spec fn type_resolves(d: FieldDef) -> bool {
    if effective_required(d) {
        d.ty is Plain
    } else {
        d.ty is Optional
    }
}

/// The fields that take part in mapping: every field not marked `db_ignore`.
pub open spec fn kept_fields(defs: Seq<FieldDef>) -> Seq<FieldDef> {
    defs.filter(|d: FieldDef| !d.db_ignore)
}

/// How many fields of `s` carry the primary-key marker.
pub open spec fn pk_count_of(s: Seq<FieldDef>) -> int {
    s.filter(|d: FieldDef| d.primary_key).len() as int
}

/// How many fields of `s` carry the client marker.
pub open spec fn client_count_of(s: Seq<FieldDef>) -> int {
    s.filter(|d: FieldDef| d.client).len() as int
}

pub open spec fn pk_marker_count(defs: Seq<FieldDef>) -> int {
    pk_count_of(kept_fields(defs))
}

pub open spec fn client_marker_count(defs: Seq<FieldDef>) -> int {
    client_count_of(kept_fields(defs))
}

/// The kept field at `j` carries both role markers.
pub open spec fn role_conflict_at(defs: Seq<FieldDef>, j: int) -> bool {
    0 <= j < kept_fields(defs).len() && kept_fields(defs)[j].primary_key && kept_fields(
        defs,
    )[j].client
}

/// The kept field at `j` is mapped but its local type fits no decoding.
pub open spec fn unresolvable_at(defs: Seq<FieldDef>, j: int) -> bool {
    0 <= j < kept_fields(defs).len() && !kept_fields(defs)[j].client && !type_resolves(
        kept_fields(defs)[j],
    )
}

/// Two distinct mapped kept fields resolve to the same remote name.
pub open spec fn remote_collision_at(defs: Seq<FieldDef>, i: int, j: int) -> bool {
    0 <= i < kept_fields(defs).len() && 0 <= j < kept_fields(defs).len() && i != j && !kept_fields(
        defs,
    )[i].client && !kept_fields(defs)[j].client && resolved_remote(kept_fields(defs)[i])
        == resolved_remote(kept_fields(defs)[j])
}

/// The flaw a record definition is rejected for, in the order the checks
/// run; `None` where the definition is accepted.
pub open spec fn schema_error_of(defs: Seq<FieldDef>) -> Option<SchemaDefinitionError> {
    if pk_marker_count(defs) == 0 {
        Some(SchemaDefinitionError::MissingPrimaryKey)
    } else if pk_marker_count(defs) != 1 {
        Some(SchemaDefinitionError::MultiplePrimaryKeys)
    } else if client_marker_count(defs) == 0 {
        Some(SchemaDefinitionError::MissingClientHandle)
    } else if client_marker_count(defs) != 1 {
        Some(SchemaDefinitionError::MultipleClientHandles)
    } else if exists|j: int| role_conflict_at(defs, j) {
        Some(SchemaDefinitionError::ConflictingRoles)
    } else if exists|j: int| unresolvable_at(defs, j) {
        Some(SchemaDefinitionError::UnresolvableType)
    } else if exists|i: int, j: int| remote_collision_at(defs, i, j) {
        Some(SchemaDefinitionError::DuplicateRemoteName)
    } else {
        None
    }
}

impl RecordType {
    /// The invariant every constructed descriptor satisfies: one primary
    /// key, one client handle, the two distinct, the primary key required, a
    /// value type on every mapped field and on no other, and remote names
    /// unique among mapped fields.
    pub open spec fn well_formed(self) -> bool {
        let fs = self.fields@;
        &&& self.pk_index < fs.len()
        &&& self.client_index < fs.len()
        &&& self.pk_index != self.client_index
        &&& forall|i: int|
            0 <= i < fs.len() ==> ((#[trigger] fs[i]).is_primary_key <==> i == self.pk_index)
        &&& forall|i: int|
            0 <= i < fs.len() ==> ((#[trigger] fs[i]).is_client_handle <==> i
                == self.client_index)
        &&& forall|i: int|
            0 <= i < fs.len() ==> ((#[trigger] fs[i]).value_type is None <==> fs[i].is_client_handle)
        &&& fs[self.pk_index as int].required
        &&& forall|i: int, j: int|
            0 <= i < fs.len() && 0 <= j < fs.len() && i != j && !(#[trigger] fs[i]).is_client_handle
                && !(#[trigger] fs[j]).is_client_handle ==> fs[i].remote_name@ != fs[j].remote_name@
    }
}

impl RecordType {
    /// Decides the descriptor invariant at run time, so that unverified
    /// callers can test it before using the mapping operations.
    pub fn check_well_formed(&self) -> (r: bool)
        ensures
            r == self.well_formed(),
    {
        let ghost fs = self.fields@;
        let n = self.fields.len();
        if self.pk_index >= n || self.client_index >= n || self.pk_index == self.client_index {
            return false;
        }
        if !self.fields[self.pk_index].required {
            return false;
        }
        let mut i: usize = 0;
        while i < n
            invariant
                i <= n,
                n == fs.len(),
                fs == self.fields@,
                forall|j: int|
                    0 <= j < i ==> ((#[trigger] fs[j]).is_primary_key <==> j == self.pk_index),
                forall|j: int|
                    0 <= j < i ==> ((#[trigger] fs[j]).is_client_handle <==> j
                        == self.client_index),
                forall|j: int|
                    0 <= j < i ==> ((#[trigger] fs[j]).value_type is None
                        <==> fs[j].is_client_handle),
            decreases n - i,
        {
            let f = &self.fields[i];
            if f.is_primary_key != (i == self.pk_index) {
                return false;
            }
            if f.is_client_handle != (i == self.client_index) {
                return false;
            }
            if f.value_type.is_none() != f.is_client_handle {
                return false;
            }
            i = i + 1;
        }
        let mut a: usize = 0;
        while a < n
            invariant
                a <= n,
                n == fs.len(),
                fs == self.fields@,
                forall|x: int, y: int|
                    0 <= x < a && 0 <= y < fs.len() && x != y && !(
                    #[trigger] fs[x]).is_client_handle && !(#[trigger] fs[y]).is_client_handle
                        ==> fs[x].remote_name@ != fs[y].remote_name@,
            decreases n - a,
        {
            let mut b: usize = a + 1;
            while b < n
                invariant
                    a < n,
                    a < b <= n,
                    n == fs.len(),
                    fs == self.fields@,
                    forall|y: int|
                        a < y < b && !(#[trigger] fs[a as int]).is_client_handle
                            && !fs[y].is_client_handle
                            ==> fs[a as int].remote_name@ != fs[y].remote_name@,
                decreases n - b,
            {
                if !self.fields[a].is_client_handle && !self.fields[b].is_client_handle && str_eq(
                    self.fields[a].remote_name.as_str(),
                    self.fields[b].remote_name.as_str(),
                ) {
                    return false;
                }
                b = b + 1;
            }
            a = a + 1;
        }
        proof {
            assert forall|x: int, y: int|
                0 <= x < fs.len() && 0 <= y < fs.len() && x != y && !(
            #[trigger] fs[x]).is_client_handle && !(#[trigger] fs[y]).is_client_handle implies
                fs[x].remote_name@ != fs[y].remote_name@ by {
                if x > y {
                }
            }
        }
        true
    }
}

/// How one built descriptor corresponds to the definition it came from.
pub open spec fn descriptor_matches(fd: FieldDescriptor, d: FieldDef) -> bool {
    &&& fd.local_name@ == d.local_name@
    &&& fd.remote_name@ == resolved_remote(d)
    &&& fd.value_type == resolved_value_type(d)
    &&& fd.required == (effective_required(d) && !d.client)
    &&& fd.is_primary_key == d.primary_key
    &&& fd.is_client_handle == d.client
}

/// Appending one field changes the kept fields and the marker counts in
/// the evident way.
proof fn lemma_counts_push(s: Seq<FieldDef>, x: FieldDef)
    ensures
        kept_fields(s.push(x)) == if !x.db_ignore {
            kept_fields(s).push(x)
        } else {
            kept_fields(s)
        },
        pk_count_of(kept_fields(s).push(x)) == pk_count_of(kept_fields(s)) + if x.primary_key {
            1int
        } else {
            0int
        },
        client_count_of(kept_fields(s).push(x)) == client_count_of(kept_fields(s))
            + if x.client {
            1int
        } else {
            0int
        },
{
    reveal(Seq::<_>::filter);
    assert(s.push(x).drop_last() =~= s);
    assert(s.push(x).last() == x);
    let ks = kept_fields(s);
    assert(ks.push(x).drop_last() =~= ks);
    assert(ks.push(x).last() == x);
}

/// A positive primary-key count has a witness.
proof fn lemma_pk_exists(s: Seq<FieldDef>)
    requires
        pk_count_of(s) > 0,
    ensures
        exists|i: int| 0 <= i < s.len() && (#[trigger] s[i]).primary_key,
    decreases s.len(),
{
    reveal(Seq::<_>::filter);
    if s.len() > 0 {
        if s.last().primary_key {
            assert(0 <= s.len() - 1 < s.len() && s[s.len() - 1].primary_key);
        } else {
            lemma_pk_exists(s.drop_last());
            let i = choose|i: int| 0 <= i < s.drop_last().len() && (#[trigger] s.drop_last()[i]).primary_key;
            assert(0 <= i < s.len() && s[i].primary_key);
        }
    }
}

/// A positive client-marker count has a witness.
proof fn lemma_client_exists(s: Seq<FieldDef>)
    requires
        client_count_of(s) > 0,
    ensures
        exists|i: int| 0 <= i < s.len() && (#[trigger] s[i]).client,
    decreases s.len(),
{
    reveal(Seq::<_>::filter);
    if s.len() > 0 {
        if s.last().client {
            assert(0 <= s.len() - 1 < s.len() && s[s.len() - 1].client);
        } else {
            lemma_client_exists(s.drop_last());
            let i = choose|i: int| 0 <= i < s.drop_last().len() && (#[trigger] s.drop_last()[i]).client;
            assert(0 <= i < s.len() && s[i].client);
        }
    }
}

/// One marked field makes the count at least one.
proof fn lemma_pk_at_least_one(s: Seq<FieldDef>, i: int)
    requires
        0 <= i < s.len(),
        s[i].primary_key,
    ensures
        pk_count_of(s) >= 1,
    decreases s.len(),
{
    reveal(Seq::<_>::filter);
    if i < s.len() - 1 {
        lemma_pk_at_least_one(s.drop_last(), i);
    }
}

proof fn lemma_client_at_least_one(s: Seq<FieldDef>, i: int)
    requires
        0 <= i < s.len(),
        s[i].client,
    ensures
        client_count_of(s) >= 1,
    decreases s.len(),
{
    reveal(Seq::<_>::filter);
    if i < s.len() - 1 {
        lemma_client_at_least_one(s.drop_last(), i);
    }
}

/// Two distinct marked fields make the count at least two.
proof fn lemma_pk_at_least_two(s: Seq<FieldDef>, i: int, j: int)
    requires
        0 <= i < j < s.len(),
        s[i].primary_key,
        s[j].primary_key,
    ensures
        pk_count_of(s) >= 2,
    decreases s.len(),
{
    reveal(Seq::<_>::filter);
    if j == s.len() - 1 {
        lemma_pk_at_least_one(s.drop_last(), i);
    } else {
        lemma_pk_at_least_two(s.drop_last(), i, j);
    }
}

proof fn lemma_client_at_least_two(s: Seq<FieldDef>, i: int, j: int)
    requires
        0 <= i < j < s.len(),
        s[i].client,
        s[j].client,
    ensures
        client_count_of(s) >= 2,
    decreases s.len(),
{
    reveal(Seq::<_>::filter);
    if j == s.len() - 1 {
        lemma_client_at_least_one(s.drop_last(), i);
    } else {
        lemma_client_at_least_two(s.drop_last(), i, j);
    }
}

/// A kept field at a position within a prefix is the same element of the
/// whole kept sequence.
proof fn lemma_kept_prefix(defs: Seq<FieldDef>, i: int, w: int)
    requires
        0 <= i <= defs.len(),
        0 <= w < kept_fields(defs.take(i)).len(),
    ensures
        kept_fields(defs).len() >= kept_fields(defs.take(i)).len(),
        kept_fields(defs)[w] == kept_fields(defs.take(i))[w],
    decreases defs.len() - i,
{
    if i == defs.len() {
        assert(defs.take(i) =~= defs);
    } else {
        assert(defs.take(i + 1) =~= defs.take(i).push(defs[i]));
        lemma_counts_push(defs.take(i), defs[i]);
        lemma_kept_prefix(defs, i + 1, w);
    }
}

/// Builds the `RecordType` of a record definition: resolves each remote
/// name, drops ignored fields, and rejects definitions without exactly one
/// primary key and exactly one client handle, with an ill-typed mapped
/// field, or with colliding remote names.
#[verifier::loop_isolation(false)]
pub fn build_record_type(record_name: String, table_override: Option<String>, defs: Vec<FieldDef>)
    -> (r: Result<RecordType, SchemaDefinitionError>)
    ensures
        (r is Ok <==> schema_error_of(defs@) is None),
        (match r {
            Ok(rt) => {
                &&& rt.well_formed()
                &&& rt.table_name@ == (match table_override {
                    Some(o) => o@,
                    None => record_name@,
                })
                &&& rt.fields@.len() == kept_fields(defs@).len()
                &&& forall|i: int|
                    0 <= i < kept_fields(defs@).len() ==> descriptor_matches(
                        #[trigger] rt.fields@[i],
                        kept_fields(defs@)[i],
                    )
            },
            Err(e) => schema_error_of(defs@) == Some(e),
        }),
{
    let ghost k = kept_fields(defs@);
    // First pass: count the role markers among the kept fields.
    let mut pk_count: usize = 0;
    let mut client_count: usize = 0;
    let mut conflict = false;
    let mut i: usize = 0;
    while i < defs.len()
        invariant
            i <= defs@.len(),
            pk_count == pk_marker_count(defs@.take(i as int)),
            client_count == client_marker_count(defs@.take(i as int)),
            conflict == exists|j: int| role_conflict_at(defs@.take(i as int), j),
            pk_count <= i,
            client_count <= i,
        decreases defs@.len() - i,
    {
        let d = &defs[i];
        proof {
            assert(defs@.take(i + 1int) =~= defs@.take(i as int).push(defs@[i as int]));
            lemma_counts_push(defs@.take(i as int), defs@[i as int]);
        }
        let ghost prev = kept_fields(defs@.take(i as int));
        let ghost cur = kept_fields(defs@.take(i + 1int));
        if !d.db_ignore {
            proof {
                assert(cur == prev.push(defs@[i as int]));
                assert forall|j: int| #[trigger] role_conflict_at(defs@.take(i as int), j) implies
                    role_conflict_at(defs@.take(i + 1int), j) by {
                    assert(cur[j] == prev[j]);
                }
            }
            if d.primary_key {
                pk_count = pk_count + 1;
            }
            if d.client {
                client_count = client_count + 1;
            }
            if d.primary_key && d.client {
                conflict = true;
                proof {
                    assert(role_conflict_at(defs@.take(i + 1int), cur.len() - 1));
                }
            } else {
                proof {
                    assert forall|j: int| #[trigger] role_conflict_at(defs@.take(i + 1int), j) implies
                        role_conflict_at(defs@.take(i as int), j) by {
                        if j < cur.len() - 1 {
                            assert(cur[j] == prev[j]);
                        } else {
                            assert(cur[j] == defs@[i as int]);
                        }
                    }
                }
            }
        } else {
            proof {
                assert(cur == prev);
                assert forall|j: int| #[trigger] role_conflict_at(defs@.take(i + 1int), j) implies
                    role_conflict_at(defs@.take(i as int), j) by {
                    assert(cur[j] == prev[j]);
                }
                assert forall|j: int| #[trigger] role_conflict_at(defs@.take(i as int), j) implies
                    role_conflict_at(defs@.take(i + 1int), j) by {
                    assert(cur[j] == prev[j]);
                }
            }
        }
        i = i + 1;
    }
    proof {
        assert(defs@.take(defs@.len() as int) =~= defs@);
    }
    if pk_count == 0 {
        proof {
            assert(pk_marker_count(defs@) == 0);
        }
        return Err(SchemaDefinitionError::MissingPrimaryKey);
    }
    if pk_count != 1 {
        return Err(SchemaDefinitionError::MultiplePrimaryKeys);
    }
    if client_count == 0 {
        return Err(SchemaDefinitionError::MissingClientHandle);
    }
    if client_count != 1 {
        return Err(SchemaDefinitionError::MultipleClientHandles);
    }
    if conflict {
        return Err(SchemaDefinitionError::ConflictingRoles);
    }
    // Second pass: build one descriptor per kept field, checking that each
    // mapped field's local type fits its markers.
    let mut fields: Vec<FieldDescriptor> = Vec::new();
    let mut pk_index: usize = 0;
    let mut client_index: usize = 0;
    let mut pk_seen = false;
    let mut client_seen = false;
    let mut i: usize = 0;
    while i < defs.len()
        invariant
            i <= defs@.len(),
            fields@.len() == kept_fields(defs@.take(i as int)).len(),
            forall|j: int|
                0 <= j < fields@.len() ==> descriptor_matches(
                    #[trigger] fields@[j],
                    kept_fields(defs@.take(i as int))[j],
                ),
            forall|j: int| !(#[trigger] unresolvable_at(defs@.take(i as int), j)),
            pk_seen ==> pk_index < fields@.len() && fields@[pk_index as int].is_primary_key,
            client_seen ==> client_index < fields@.len()
                && fields@[client_index as int].is_client_handle,
            pk_seen == exists|j: int|
                0 <= j < fields@.len() && (#[trigger] fields@[j]).is_primary_key,
            client_seen == exists|j: int|
                0 <= j < fields@.len() && (#[trigger] fields@[j]).is_client_handle,
        decreases defs@.len() - i,
    {
        let d = &defs[i];
        proof {
            assert(defs@.take(i + 1int) =~= defs@.take(i as int).push(defs@[i as int]));
            lemma_counts_push(defs@.take(i as int), defs@[i as int]);
        }
        let ghost prev = kept_fields(defs@.take(i as int));
        let ghost cur = kept_fields(defs@.take(i + 1int));
        if !d.db_ignore {
            proof {
                assert(cur == prev.push(defs@[i as int]));
            }
            let required = d.primary_key || d.required;
            if !d.client {
                let resolves = if required {
                    matches!(d.ty, LocalType::Plain(_))
                } else {
                    matches!(d.ty, LocalType::Optional(_))
                };
                if !resolves {
                    proof {
                        let w = prev.len() as int;
                        assert(cur[w] == defs@[i as int]);
                        assert(unresolvable_at(defs@.take(i + 1int), w));
                        lemma_kept_prefix(defs@, i + 1, w);
                        assert(unresolvable_at(defs@, w));
                    }
                    return Err(SchemaDefinitionError::UnresolvableType);
                }
            }
            proof {
                assert forall|j: int| !(#[trigger] unresolvable_at(defs@.take(i + 1int), j)) by {
                    if 0 <= j < cur.len() - 1 {
                        assert(cur[j] == prev[j]);
                        assert(!unresolvable_at(defs@.take(i as int), j));
                    } else if j == cur.len() - 1 {
                        assert(cur[j] == defs@[i as int]);
                    }
                }
            }
            let remote: String = match &d.db_name {
                Some(n) => n.clone(),
                None => d.local_name.clone(),
            };
            let value_type: Option<BqType> = if d.client {
                None
            } else {
                match d.ty {
                    LocalType::Plain(t) => Some(t),
                    LocalType::Optional(t) => Some(t),
                    LocalType::Unmapped => None,
                }
            };
            let fd = FieldDescriptor {
                local_name: d.local_name.clone(),
                remote_name: remote,
                value_type,
                required: required && !d.client,
                is_primary_key: d.primary_key,
                is_client_handle: d.client,
            };
            if d.primary_key {
                pk_index = fields.len();
                pk_seen = true;
            }
            if d.client {
                client_index = fields.len();
                client_seen = true;
            }
            fields.push(fd);
        } else {
            proof {
                assert(cur == prev);
                assert forall|j: int| !(#[trigger] unresolvable_at(defs@.take(i + 1int), j)) by {
                    if 0 <= j < cur.len() {
                        assert(cur[j] == prev[j]);
                        assert(!unresolvable_at(defs@.take(i as int), j));
                    }
                }
            }
        }
        i = i + 1;
    }
    proof {
        assert(defs@.take(defs@.len() as int) =~= defs@);
    }
    // The single primary key and single client handle carry over from the
    // marker counts to the built descriptors.
    proof {
        lemma_pk_exists(k);
        lemma_client_exists(k);
        assert(pk_seen) by {
            let w = choose|w: int| 0 <= w < k.len() && (#[trigger] k[w]).primary_key;
            assert(descriptor_matches(fields@[w], k[w]));
            assert(fields@[w].is_primary_key);
        }
        assert(client_seen) by {
            let w = choose|w: int| 0 <= w < k.len() && (#[trigger] k[w]).client;
            assert(descriptor_matches(fields@[w], k[w]));
            assert(fields@[w].is_client_handle);
        }
        assert forall|x: int, y: int|
            0 <= x < fields@.len() && 0 <= y < fields@.len() && x < y implies !((
        #[trigger] fields@[x]).is_primary_key && (#[trigger] fields@[y]).is_primary_key) by {
            if fields@[x].is_primary_key && fields@[y].is_primary_key {
                lemma_pk_at_least_two(k, x, y);
            }
        }
        assert forall|x: int, y: int|
            0 <= x < fields@.len() && 0 <= y < fields@.len() && x < y implies !((
        #[trigger] fields@[x]).is_client_handle && (#[trigger] fields@[y]).is_client_handle) by {
            if fields@[x].is_client_handle && fields@[y].is_client_handle {
                lemma_client_at_least_two(k, x, y);
            }
        }
        assert(!fields@[pk_index as int].is_client_handle) by {
            if fields@[pk_index as int].is_client_handle {
                assert(role_conflict_at(defs@, pk_index as int));
            }
        }
    }
    // Third pass: remote names of mapped fields must not collide.
    let m = fields.len();
    let mut a: usize = 0;
    while a < m
        invariant
            m == fields@.len(),
            a <= m,
            fields@.len() == k.len(),
            forall|j: int| 0 <= j < k.len() ==> descriptor_matches(#[trigger] fields@[j], k[j]),
            forall|x: int, y: int|
                0 <= x < a && 0 <= y < fields@.len() && x != y && !(
                #[trigger] fields@[x]).is_client_handle && !(#[trigger] fields@[y]).is_client_handle
                    ==> fields@[x].remote_name@ != fields@[y].remote_name@,
        decreases m - a,
    {
        let mut b: usize = a + 1;
        while b < m
            invariant
                m == fields@.len(),
                a < m,
                a < b <= m,
                fields@.len() == k.len(),
                forall|j: int| 0 <= j < k.len() ==> descriptor_matches(#[trigger] fields@[j], k[j]),
                forall|y: int|
                    a < y < b && !(#[trigger] fields@[a as int]).is_client_handle
                        && !fields@[y].is_client_handle
                        ==> fields@[a as int].remote_name@ != fields@[y].remote_name@,
            decreases m - b,
        {
            if !fields[a].is_client_handle && !fields[b].is_client_handle && str_eq(
                fields[a].remote_name.as_str(),
                fields[b].remote_name.as_str(),
            ) {
                proof {
                    assert(remote_collision_at(defs@, a as int, b as int));
                }
                return Err(SchemaDefinitionError::DuplicateRemoteName);
            }
            b = b + 1;
        }
        a = a + 1;
    }
    let table_name: String = match table_override {
        Some(o) => o,
        None => record_name,
    };
    let rt = RecordType { table_name, fields, pk_index, client_index };
    proof {
        assert forall|x: int, y: int|
            0 <= x < rt.fields@.len() && 0 <= y < rt.fields@.len() && x != y && !(
        #[trigger] rt.fields@[x]).is_client_handle && !(
        #[trigger] rt.fields@[y]).is_client_handle implies rt.fields@[x].remote_name@
            != rt.fields@[y].remote_name@ by {
            if x > y {
            }
        }
        assert(rt.pk_index < rt.fields@.len());
        assert(rt.client_index < rt.fields@.len());
        assert(rt.pk_index != rt.client_index);
        assert(forall|i: int|
            0 <= i < rt.fields@.len() ==> ((#[trigger] rt.fields@[i]).is_primary_key <==> i
                == rt.pk_index));
        assert(forall|i: int|
            0 <= i < rt.fields@.len() ==> ((#[trigger] rt.fields@[i]).is_client_handle <==> i
                == rt.client_index));
        assert forall|i: int| 0 <= i < rt.fields@.len() implies ((
        #[trigger] rt.fields@[i]).value_type is None <==> rt.fields@[i].is_client_handle) by {
            assert(descriptor_matches(rt.fields@[i], k[i]));
            assert(!unresolvable_at(defs@, i));
            if !k[i].client {
                assert(type_resolves(k[i]));
            }
        }
        assert(rt.fields@[rt.pk_index as int].required);
        assert(rt.well_formed());
        assert(schema_error_of(defs@) is None) by {
            if exists|i0: int, j0: int| remote_collision_at(defs@, i0, j0) {
                let (i0, j0) = choose|i0: int, j0: int| remote_collision_at(defs@, i0, j0);
                assert(rt.fields@[i0].remote_name@ == resolved_remote(k[i0]));
                assert(rt.fields@[j0].remote_name@ == resolved_remote(k[j0]));
            }
        }
    }
    Ok(rt)
}

} // verus!
