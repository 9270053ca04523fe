//! Small decisions of the request scheduling: when to wait for the next
//! interval, and how long a simulated payload delays a request.
use vstd::prelude::*;

verus! {

/// After sending the request `seq_num` of `ping_count`, the scheduler waits
/// for the next interval tick unless that request was the last one.
pub fn needs_interval_tick(seq_num: u16, ping_count: u16) -> (res: bool)
    requires
        ping_count >= 1,
    ensures
        res == (seq_num + 1 < ping_count),
{
    seq_num < ping_count - 1
}

/// The delay, in seconds, with which a simulated payload holds back the
/// request `seq`: a fixed table for the first ten requests, none afterwards.
pub open spec fn spec_payload_delay_seconds(seq: u16) -> Option<u64> {
    let table = seq![3u64, 1, 6, 1, 2, 2, 2, 4, 2, 2];
    if seq < 10 {
        Some(table[seq as int])
    } else {
        None
    }
}

/// The delay, in seconds, of the simulated payload of request `seq`.
pub fn payload_delay_seconds(seq: u16) -> (res: Option<u64>)
    ensures
        res == spec_payload_delay_seconds(seq),
{
    let delay: u64 = match seq {
        0 => 3,
        1 => 1,
        2 => 6,
        3 => 1,
        4 => 2,
        5 => 2,
        6 => 2,
        7 => 4,
        8 => 2,
        9 => 2,
        _ => return None,
    };
    Some(delay)
}

} // verus!
