//! The interface a concrete record type offers over its primary key. The
//! mapping engine works on `RecordType` descriptors; a typed record wrapper
//! implements this trait to expose its key field uniformly.

use vstd::prelude::*;

verus! {

/// Access to the distinguished primary-key field of a record type.
pub trait BigDataTableHasPk<TPK> {
    /// The remote name of the primary-key column.
    spec fn pk_name_spec() -> Seq<char>;

    /// The key this record carries.
    spec fn pk_value_spec(&self) -> TPK;

    /// Returns the remote name of the primary-key column.
    fn get_pk_name() -> (r: String)
        ensures
            r@ == Self::pk_name_spec(),
    ;

    /// Returns the key this record carries.
    fn get_pk_value(&self) -> (r: TPK)
        ensures
            r == self.pk_value_spec(),
    ;
}

} // verus!
