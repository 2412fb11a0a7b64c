//! Decades from years.

use vstd::prelude::*;
use crate::text::{decimal, push_decimal, string_of};

verus! {

/// The decade label of a year: its decimal digits without the last one, then "0s".
pub open spec fn decade_label(year: nat) -> Seq<char> {
    decimal(year / 10) + seq!['0', 's']
}

/// `to_decade(1997) == "1990s"`.
pub fn to_decade(year: u32) -> (s: String)
    ensures
        s@ == decade_label(year as nat),
{
    let mut v: Vec<char> = Vec::new();
    push_decimal(&mut v, year / 10);
    v.push('0');
    v.push('s');
    assert(v@ =~= decade_label(year as nat));
    string_of(&v)
}

} // verus!
