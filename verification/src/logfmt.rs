//! Formatting for the append-only save log: a compact day-count
//! timestamp derived from seconds since the Unix epoch.

use vstd::prelude::*;
use crate::strutil::dec2_str;
use crate::strutil::dec_str;
use crate::strutil::u64_to_dec2_string;
use crate::strutil::u64_to_dec_string;

verus! {

/// The text of a log timestamp: the day count since the epoch and the
/// time of day, hours, minutes and seconds two digits each.
pub open spec fn timestamp_seq(secs: int) -> Seq<char> {
    let days = secs / 86400;
    let time = secs % 86400;
    let h = time / 3600;
    let mn = (time % 3600) / 60;
    let s = time % 60;
    seq!['D'] + dec_str(days) + seq!['_'] + dec2_str(h) + seq![':'] + dec2_str(mn) + seq![':']
        + dec2_str(s)
}

/// Renders the timestamp for a number of seconds since the epoch.
pub fn format_timestamp(secs: u64) -> (r: String)
    ensures
        r@ == timestamp_seq(secs as int),
{
    let days = secs / 86400;
    let time = secs % 86400;
    let h = time / 3600;
    let mn = (time % 3600) / 60;
    let s = time % 60;
    proof {
        reveal_strlit("D");
        reveal_strlit("_");
        reveal_strlit(":");
    }
    let mut out = "D".to_owned();
    out.append(u64_to_dec_string(days).as_str());
    out.append("_");
    out.append(u64_to_dec2_string(h).as_str());
    out.append(":");
    out.append(u64_to_dec2_string(mn).as_str());
    out.append(":");
    out.append(u64_to_dec2_string(s).as_str());
    proof {
        assert(out@ =~= timestamp_seq(secs as int));
    }
    out
}

} // verus!
