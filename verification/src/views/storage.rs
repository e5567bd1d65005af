//! Text for the storage tab.
use vstd::prelude::*;

use crate::views::fmt::{bytes, bytes_text};

verus! {

/// Partition sizes as MB below a gibibyte, GB above it: the same text as
/// everywhere else in the popup.
pub fn format_bytes(count: u64) -> (text: String)
    ensures
        text@ == bytes_text(count as nat),
{
    bytes(count)
}

} // verus!
