//! Files made of sections.

use vstd::prelude::*;

use crate::text::trim;

verus! {

/// Whether the line after some lines stands in the section with the given
/// header. A line that begins with a bracket begins a section.
pub open spec fn in_section(lines: Seq<Seq<char>>, header: Seq<char>) -> bool
    decreases lines.len(),
{
    if lines.len() == 0 {
        false
    } else {
        let line = trim(lines.last());
        if line.len() > 0 && line[0] == '[' {
            line == header
        } else {
            in_section(lines.drop_last(), header)
        }
    }
}

} // verus!
