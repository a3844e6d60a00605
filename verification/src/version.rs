//! The target version, as given on the command line.

use vstd::prelude::*;
use crate::error::Error;

verus! {

/// The version that an argument stands for: the argument without its first
/// character where that is a `v`, else the argument itself. Only one `v`
/// is taken off.
pub open spec fn stripped(arg: Seq<char>) -> Seq<char> {
    if arg.len() > 0 && arg[0] == 'v' {
        arg.subrange(1, arg.len() as int)
    } else {
        arg
    }
}

/// The target version that the argument `arg` stands for. A missing
/// argument is a usage error.
pub fn target_version(arg: Option<String>) -> (res: Result<String, Error>)
    ensures
        match arg {
            Some(given) => res matches Ok(version) && version@ == stripped(given@),
            None => res matches Err(e) && e == Error::Usage,
        },
{
    match arg {
        None => Err(Error::Usage),
        Some(given) => {
            let text: &str = given.as_str();
            let n: usize = text.unicode_len();
            if n > 0 && text.get_char(0) == 'v' {
                Ok(text.substring_char(1, n).to_owned())
            } else {
                Ok(given)
            }
        },
    }
}

} // verus!
