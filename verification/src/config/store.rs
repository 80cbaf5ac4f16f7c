//! Names of the files in which configuration is kept.
use vstd::prelude::*;
use vstd::string::*;

use crate::paths::{file_name, path_name};
use crate::text::{decimal, decimal_text};

verus! {

broadcast use vstd::string::group_string_axioms;

/// The name of the file that is written before it takes the place of a file.
/// No two saves of a process use the same number.
pub fn temp_file_name(path: &str, pid: u32, seq: u64) -> (r: String)
    ensures
        r@ == (match file_name(path@) {
            Some(n) => n,
            None => "store.json"@,
        }) + "."@ + decimal(pid as nat) + "."@ + decimal(seq as nat) + ".tmp"@,
{
    let name = match path_name(path) {
        Some(n) => n,
        None => "store.json".to_owned(),
    };
    name.concat(".").concat(decimal_text(pid as u64).as_str()).concat(".").concat(
        decimal_text(seq).as_str(),
    ).concat(".tmp")
}

} // verus!
