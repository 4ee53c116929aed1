//! The outcome of inserting into the mods' shared string-keyed map, whose
//! storage lives in a native library: a refused insert means the key is
//! taken, unless the map ran out of memory.

use vstd::prelude::*;

verus! {

broadcast use vstd::string::group_string_axioms;

/// Why an insert into the shared map was refused.
#[derive(Clone, Copy, PartialEq, Eq, Structural, Debug)]
pub enum TMapInsertError {
    AlreadyExist,
}

impl TMapInsertError {
    /// The error's name, as printed.
    pub fn to_string(&self) -> (r: String)
        ensures
            r@ == "AlreadyExist"@,
    {
        match self {
            TMapInsertError::AlreadyExist => "AlreadyExist".to_string(),
        }
    }
}

/// The result of an insert, from whether the native insert failed and, if
/// it did, whether the key was already present. A failed insert of an absent
/// key means the native map could not allocate, which stops the program, so
/// it is left out.
pub fn insert_result(insert_failed: bool, key_present: bool) -> (r: Result<(), TMapInsertError>)
    requires
        insert_failed ==> key_present,
    ensures
        r == if insert_failed {
            Err::<(), TMapInsertError>(TMapInsertError::AlreadyExist)
        } else {
            Ok(())
        },
{
    if insert_failed {
        Err(TMapInsertError::AlreadyExist)
    } else {
        Ok(())
    }
}

} // verus!
