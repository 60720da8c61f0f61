//! Derived file names of the on-disk layout.
//!
//! Beside the history snapshot `<history-file>` live two derived paths: the
//! plaintext sidecar `<history-file>.meta.json` and the transient write
//! target `<history-file>.tmp`, which a save writes first and then atomically
//! renames over the snapshot.  Resolving the history path itself (config
//! directory, environment override) is the surrounding application's job.

use vstd::prelude::*;
use vstd::string::StringExecFns;

verus! {

/// The sidecar path beside a history path.
pub fn meta_path(history_path: &str) -> (r: String)
    ensures
        r@ == history_path@ + ".meta.json"@,
{
    let mut s = String::from_str(history_path);
    s.append(".meta.json");
    s
}

/// The transient write target beside a history path.
pub fn tmp_path(history_path: &str) -> (r: String)
    ensures
        r@ == history_path@ + ".tmp"@,
{
    let mut s = String::from_str(history_path);
    s.append(".tmp");
    s
}

} // verus!
