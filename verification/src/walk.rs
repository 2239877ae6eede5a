//! What to do with one entry of a directory while looking for the leaves of
//! a result tree.

use crate::text::same_text;
use vstd::prelude::*;

verus! {

/// What the walk does with an entry of the directory it is in.
#[derive(Clone, Copy, Debug, PartialEq, Eq, Structural)]
pub enum Visit {
    /// The directory is a leaf: record the run that it holds.
    Record,
    /// Look for leaves below the entry.
    Descend,
    /// Nothing to do.
    Pass,
}

/// The name of the file that holds the exit code of a run.
pub open spec fn retcode_name() -> Seq<char> {
    "retcode"@
}

/// An entry named `retcode` marks its directory as a leaf, whatever else the
/// entry is; any other directory is searched; any other file is passed over.
pub open spec fn visit_of(name: Seq<char>, is_dir: bool) -> Visit {
    if name == retcode_name() {
        Visit::Record
    } else if is_dir {
        Visit::Descend
    } else {
        Visit::Pass
    }
}

/// Decides what the walk does with the entry named `name`.
pub fn visit(name: &str, is_dir: bool) -> (v: Visit)
    ensures
        v == visit_of(name@, is_dir),
{
    if same_text(name, "retcode") {
        Visit::Record
    } else if is_dir {
        Visit::Descend
    } else {
        Visit::Pass
    }
}

} // verus!
