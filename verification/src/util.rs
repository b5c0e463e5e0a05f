//! Collecting the error of a `Result` into a list and going on without it.

use vstd::prelude::*;
use vstd::std_specs::convert::FromSpec;

verus! {

/// Moves the error of a result into a list of errors.
pub trait ResultExt<T, E> {
    /// The value where there is one; otherwise the error, converted, joins `errors`.
    fn take_err<EE>(self, errors: &mut Vec<EE>) -> Option<T> where EE: From<E>;
}

impl<T, E> ResultExt<T, E> for Result<T, E> {
    fn take_err<EE>(self, errors: &mut Vec<EE>) -> (r: Option<T>) where EE: From<E>
        ensures
            match self {
                Ok(v) => r == Some(v) && final(errors)@ == old(errors)@,
                Err(e) => {
                    &&& r is None
                    &&& final(errors)@.len() == old(errors)@.len() + 1
                    &&& final(errors)@.drop_last() == old(errors)@
                    &&& <EE as FromSpec<E>>::obeys_from_spec() ==> final(errors)@.last()
                        == <EE as FromSpec<E>>::from_spec(e)
                },
            },
    {
        match self {
            Ok(v) => Some(v),
            Err(e) => {
                errors.push(EE::from(e));
                None
            },
        }
    }
}

} // verus!
