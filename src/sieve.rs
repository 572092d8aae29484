//! Checks on the names of Sieve scripts.
use vstd::prelude::*;
use vstd::string::StringSliceAdditionalSpecFns;

use crate::structure::{eq_ci, eq_ignore_ascii_case};

verus! {

/// Why a script name is refused.
#[derive(Clone, Copy, Debug, PartialEq, Eq, Structural)]
pub enum ScriptNameError {
    Empty,
    TooLong,
    /// `vacation`, in any case, is kept for the vacation extension.
    Reserved,
}

pub open spec fn vacation_name() -> Seq<u8> {
    seq![118u8, 97, 99, 97, 116, 105, 111, 110]
}

/// Checks a script name: it must not be empty, be longer than `max_len` bytes,
/// or be `vacation` in any case.
pub fn check_script_name(name: &str, max_len: usize) -> (r: Result<(), ScriptNameError>)
    ensures
        name@.len() == 0 ==> r == Err::<(), ScriptNameError>(ScriptNameError::Empty),
        name@.len() != 0 && name.spec_bytes().len() > max_len ==> r == Err::<(), ScriptNameError>(
            ScriptNameError::TooLong,
        ),
        name@.len() != 0 && name.spec_bytes().len() <= max_len && eq_ci(
            name.spec_bytes(),
            vacation_name(),
        ) ==> r == Err::<(), ScriptNameError>(ScriptNameError::Reserved),
        name@.len() != 0 && name.spec_bytes().len() <= max_len && !eq_ci(
            name.spec_bytes(),
            vacation_name(),
        ) ==> r is Ok,
{
    if name.is_empty() {
        return Err(ScriptNameError::Empty);
    }
    let bytes = name.as_bytes();
    if bytes.len() > max_len {
        return Err(ScriptNameError::TooLong);
    }
    let reserved: Vec<u8> = vec![118u8, 97, 99, 97, 116, 105, 111, 110];
    assert(reserved@ == vacation_name());
    if eq_ignore_ascii_case(bytes, reserved.as_slice()) {
        return Err(ScriptNameError::Reserved);
    }
    Ok(())
}

} // verus!
