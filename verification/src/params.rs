//! Typed query parameters: one `(name, type tag, serialized value-or-null)`
//! triple per bound placeholder, built per field at save and filter time.

use vstd::prelude::*;
use vstd::string::*;
use crate::rows::RecordInstance;
use crate::schema::{FieldDescriptor, RecordType};
use crate::values::{
    bq_type_tag, bq_type_tag_spec, opt_value_view, serialize_opt_value_spec, serialize_value,
    serialize_value_spec, BqType, Value, ValueV,
};

verus! {

/// One parameter bound into a parameterized query. The name is `__` plus
/// the remote field name, matching the `@__<name>` placeholder syntax; an
/// absent value binds the SQL null.
#[derive(Debug)]
pub struct QueryParameter {
    pub name: String,
    pub param_type: String,
    pub value: Option<String>,
}

/// The mathematical form of one query parameter.
pub struct ParamV {
    pub name: Seq<char>,
    pub param_type: Seq<char>,
    pub value: Option<Seq<char>>,
}

impl View for QueryParameter {
    type V = ParamV;

    open spec fn view(&self) -> ParamV {
        ParamV {
            name: self.name@,
            param_type: self.param_type@,
            value: match self.value {
                Some(ref s) => Some(s@),
                None => None,
            },
        }
    }
}

/// The parameter a field binds: named after the remote column, tagged with
/// the field's remote type, holding the serialized value or null.
pub open spec fn param_of(fd: FieldDescriptor, val: Option<ValueV>) -> ParamV {
    ParamV {
        name: "__"@ + fd.remote_name@,
        param_type: bq_type_tag_spec(fd.value_type.unwrap()),
        value: match val {
            Some(v) => Some(serialize_value_spec(v)),
            None => None,
        },
    }
}

/// The views of a parameter list.
pub open spec fn param_views(ps: Seq<QueryParameter>) -> Seq<ParamV> {
    ps.map_values(|p: QueryParameter| p@)
}

/// The parameters of every mapped field of an instance, in declaration
/// order.
pub open spec fn params_of(fs: Seq<FieldDescriptor>, vals: Seq<Option<ValueV>>) -> Seq<ParamV>
    decreases fs.len(),
{
    if fs.len() == 0 {
        Seq::empty()
    } else {
        let rest = params_of(fs.drop_last(), vals.drop_last());
        if fs.last().is_client_handle {
            rest
        } else {
            rest.push(param_of(fs.last(), vals.last()))
        }
    }
}

/// The values of an instance, viewed.
pub open spec fn values_view(vals: Seq<Option<Value>>) -> Seq<Option<ValueV>> {
    vals.map_values(|v: Option<Value>| opt_value_view(v))
}

/// Builds the parameter that binds one field's placeholder.
pub fn get_query_param(field_name: &str, ty: BqType, field_value: &Option<Value>) -> (r:
    QueryParameter)
    requires
        (match field_value {
            Some(v) => v@.valid(),
            None => true,
        }),
    ensures
        r@.name == "__"@ + field_name@,
        r@.param_type == bq_type_tag_spec(ty),
        r@.value == (match opt_value_view(*field_value) {
            Some(v) => Some(serialize_value_spec(v)),
            None => None::<Seq<char>>,
        }),
{
    let mut name = String::from_str("__");
    name.append(field_name);
    let value: Option<String> = match field_value {
        Some(v) => Some(serialize_value(v)),
        None => None,
    };
    QueryParameter { name, param_type: bq_type_tag(ty), value }
}

impl RecordType {
    /// Builds the full parameter list of an instance: one parameter per
    /// mapped field, the primary key included, in declaration order.
    pub fn get_all_query_parameters(&self, inst: &RecordInstance) -> (r: Vec<QueryParameter>)
        requires
            self.well_formed(),
            inst.conforms_to(*self),
        ensures
            param_views(r@) == params_of(self.fields@, values_view(inst.values@)),
    {
        let ghost fs = self.fields@;
        let ghost vv = values_view(inst.values@);
        let mut r: Vec<QueryParameter> = Vec::new();
        let mut i: usize = 0;
        while i < self.fields.len()
            invariant
                i <= fs.len(),
                fs == self.fields@,
                vv == values_view(inst.values@),
                vv.len() == fs.len(),
                self.well_formed(),
                inst.conforms_to(*self),
                param_views(r@) == params_of(fs.take(i as int), vv.take(i as int)),
            decreases fs.len() - i,
        {
            let f = &self.fields[i];
            proof {
                assert(fs.take(i + 1int).drop_last() =~= fs.take(i as int));
                assert(vv.take(i + 1int).drop_last() =~= vv.take(i as int));
                assert(fs.take(i + 1int).last() == fs[i as int]);
                assert(vv.take(i + 1int).last() == vv[i as int]);
            }
            if !f.is_client_handle {
                let tag = match f.value_type {
                    Some(t) => t,
                    None => {
                        proof {
                            assert(false);
                        }
                        BqType::Str
                    },
                };
                let p = get_query_param(f.remote_name.as_str(), tag, &inst.values[i]);
                proof {
                    assert(vv[i as int] == opt_value_view(inst.values@[i as int]));
                    assert(p@ == param_of(fs[i as int], vv[i as int]));
                    lemma_param_views_push(r@, p);
                }
                r.push(p);
            }
            i = i + 1;
        }
        proof {
            assert(fs.take(fs.len() as int) =~= fs);
            assert(vv.take(vv.len() as int) =~= vv);
        }
        r
    }

    /// Builds the parameter that binds the primary key's placeholder.
    pub fn get_pk_param(&self, inst: &RecordInstance) -> (r: QueryParameter)
        requires
            self.well_formed(),
            inst.conforms_to(*self),
        ensures
            r@ == param_of(
                self.fields@[self.pk_index as int],
                inst.value_at(self.pk_index as int),
            ),
    {
        let f = &self.fields[self.pk_index];
        let tag = match f.value_type {
            Some(t) => t,
            None => {
                proof {
                    assert(false);
                }
                BqType::Str
            },
        };
        get_query_param(f.remote_name.as_str(), tag, &inst.values[self.pk_index])
    }
}

/// Appending a parameter appends its view.
proof fn lemma_param_views_push(ps: Seq<QueryParameter>, p: QueryParameter)
    ensures
        param_views(ps.push(p)) == param_views(ps).push(p@),
{
    assert forall|j: int| 0 <= j < ps.len() + 1 implies param_views(ps.push(p))[j] == param_views(
        ps,
    ).push(p@)[j] by {
        if j < ps.len() {
            assert(ps.push(p)[j] == ps[j]);
        } else {
            assert(ps.push(p)[j] == p);
        }
    }
    assert(param_views(ps.push(p)) =~= param_views(ps).push(p@));
}

} // verus!
