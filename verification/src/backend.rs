use vstd::prelude::*;
use vstd::string::StringExecFns;

use crate::keychain::joined_message;
use crate::text::{chars_of, chars_eq};

verus! {

/// Which password store a run uses.
#[derive(Debug, Clone, PartialEq, Eq)]
pub enum BackendChoice {
    /// 1Password, through its `op` command.
    OnePassword,
    /// The JSON store file at this path.
    File(String),
    /// The platform credential store.
    Keychain,
}

/// The backend names that select 1Password.
pub open spec fn names_one_password(name: Seq<char>) -> bool {
    name == "op"@ || name == "1password"@
}

/// The backend a run uses, given the backend variable and the store-file
/// variable: 1Password when the backend variable names it; otherwise the
/// store file when one is named, else the platform credential store.
pub open spec fn backend_of(backend: Option<Seq<char>>, store_file: Option<Seq<char>>) -> (
    bool,
    Option<Seq<char>>,
) {
    if backend matches Some(b) && names_one_password(b) {
        (true, None)
    } else {
        (false, store_file)
    }
}

/// Chooses the backend from the value of the backend variable and of the
/// store-file variable, with the warning for a backend name that is not
/// known (the default is used then).
pub fn choose_backend(backend: Option<String>, store_file: Option<String>) -> (r: (
    BackendChoice,
    Option<String>,
))
    ensures
        ({
            let (op, file) = backend_of(
                match backend {
                    Some(b) => Some(b@),
                    None => None,
                },
                match store_file {
                    Some(f) => Some(f@),
                    None => None,
                },
            );
            &&& op ==> r.0 == BackendChoice::OnePassword
            &&& !op ==> match file {
                Some(f) => r.0 matches BackendChoice::File(p) && p@ == f,
                None => r.0 == BackendChoice::Keychain,
            }
            &&& match backend {
                Some(b) => if names_one_password(b@) {
                    r.1 is None
                } else {
                    r.1 matches Some(w) && w@ == "unknown backend '"@ + b@ + "'"@
                },
                None => r.1 is None,
            }
        }),
{
    let fallback = match store_file {
        Some(path) => BackendChoice::File(path),
        None => BackendChoice::Keychain,
    };
    match backend {
        None => (fallback, None),
        Some(name) => {
            let chars = chars_of(name.as_str());
            let op = chars_of("op");
            let one = chars_of("1password");
            if chars_eq(chars.as_slice(), op.as_slice()) || chars_eq(chars.as_slice(), one.as_slice()) {
                (BackendChoice::OnePassword, None)
            } else {
                let mut warning = joined_message("unknown backend '", name.as_str());
                warning.append("'");
                (fallback, Some(warning))
            }
        },
    }
}

} // verus!
