use vstd::prelude::*;

use crate::text::{padded_decimal_chars, push_padded_decimal};

pub mod example;
pub mod file_reader;
pub mod ibsen_imon;

verus! {

/// Automatic saves are numbered from 0 up to this bound (excluded).
pub const AUTO_SAVE_LIMIT: u32 = 100_000;

/// Name of the `i`-th automatically saved spectrum file.
pub fn auto_save_file_name(i: u32) -> (name: String)
    ensures
        name@ == "spectrum"@ + padded_decimal_chars(i as nat, 3) + ".txt"@,
{
    let mut name = "spectrum".to_owned();
    push_padded_decimal(&mut name, i as u64, 3);
    name.append(".txt");
    name
}

} // verus!
