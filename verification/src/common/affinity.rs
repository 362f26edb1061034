//! The `-A` option: the processor to run on.

use vstd::prelude::*;
use vstd::string::StringExecFns;

use super::text::{number, parse_number, to_chars};

verus! {

/// The processor that a text names: a single number. Lists and ranges are
/// not understood, and the result then is the warning to print.
pub fn parse_affinity(spec: &str) -> (r: Result<usize, String>)
    ensures
        match number(spec@, 10, usize::MAX as int) {
            Ok(cpu) => r == Ok::<usize, String>(cpu as usize) && 0 <= cpu <= usize::MAX,
            Err(_) => r is Err && r->Err_0@ == "warning: invalid -A value '"@ + spec@
                + "', expected integer CPU id"@,
        },
{
    let chars = to_chars(spec);
    match parse_number(&chars, 10, usize::MAX as u64) {
        Ok(cpu) => Ok(cpu as usize),
        Err(_) => {
            let mut text = "warning: invalid -A value '".to_owned();
            text.append(spec);
            text.append("', expected integer CPU id");
            Err(text)
        },
    }
}

} // verus!
