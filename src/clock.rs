use crate::task::Timestamp;
use vstd::prelude::*;

verus! {

/// Relies on chrono::Local::now, read through DateTime::timestamp,
/// DateTime::timestamp_subsec_nanos and FixedOffset::local_minus_utc: the
/// sub-second part is below two seconds (a leap second exceeds one) and a
/// FixedOffset is built only strictly within one day of UTC.
#[verifier::external_body]
pub(crate) fn now() -> (r: Timestamp)
    ensures
        r.wf(),
{
    let t = chrono::Local::now();
    Timestamp {
        secs: t.timestamp(),
        nanos: t.timestamp_subsec_nanos(),
        offset_secs: t.offset().local_minus_utc(),
    }
}

} // verus!
