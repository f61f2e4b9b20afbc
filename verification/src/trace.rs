//! Where the record of a run goes.

use crate::calendar::{append_utc_stamp, utc_stamp};
use vstd::prelude::*;
use vstd::string::*;

verus! {

/// The name of the file that holds the record of a run: the date and time in UTC at its start,
/// given by the seconds since the beginning of 1970, and its tag.
pub fn trace_file_name(now_secs: u64, tag: &str) -> (name: String)
    ensures
        name@ == utc_stamp(now_secs as int) + "_"@ + tag@ + ".ndjson"@,
{
    let mut name = String::new();
    append_utc_stamp(&mut name, now_secs);
    name.append("_");
    name.append(tag);
    name.append(".ndjson");
    assert(name@ =~= utc_stamp(now_secs as int) + "_"@ + tag@ + ".ndjson"@);
    name
}

} // verus!
