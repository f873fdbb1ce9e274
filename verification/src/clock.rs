use vstd::prelude::*;

verus! {

/// An instant, as seconds and nanoseconds since the Unix epoch, together with the UTC offset
/// (in seconds east of UTC) of the local time zone in which it was observed.
#[derive(Debug, Clone, Copy, PartialEq, Eq, Structural)]
pub struct Timestamp {
    pub secs: i64,
    pub nanos: u32,
    pub offset_secs: i32,
}

/// The local calendar day of `t`, counted in days since 1970-01-01 in `t`'s own offset.
pub open spec fn local_day(t: Timestamp) -> int {
    (t.secs + t.offset_secs) / 86400
}

impl Timestamp {
    /// The current local time, from `chrono::Local::now()`, taken apart into seconds,
    /// nanoseconds and UTC offset. Its value depends on the clock and the time zone, so
    /// nothing is stated of it.
    #[verifier::external_body]
    pub(crate) fn now() -> (t: Timestamp) {
        let now = chrono::Local::now();
        Timestamp {
            secs: now.timestamp(),
            nanos: now.timestamp_subsec_nanos(),
            offset_secs: now.offset().local_minus_utc(),
        }
    }

    /// The local calendar day of this instant (days since 1970-01-01).
    pub fn local_day(&self) -> (d: i64)
        ensures
            d == local_day(*self),
    {
        let x: i128 = self.secs as i128 + self.offset_secs as i128;
        if x >= 0 {
            let u = x as u128;
            let q = u / 86400;
            proof {
                assert(q == x / 86400);
            }
            q as i64
        } else {
            let u = (-(x + 1)) as u128;
            let q = u / 86400;
            proof {
                let y = -(x + 1);
                assert(0 <= y);
                assert(q == y / 86400);
                assert(y == 86400 * q + y % 86400) by (nonlinear_arith)
                    requires
                        q == y / 86400,
                        y >= 0,
                ;
                assert(0 <= y % 86400 < 86400);
                let r = y % 86400;
                assert(x == 86400 * (-q - 1) + (86399 - r)) by (nonlinear_arith)
                    requires
                        y == 86400 * q + r,
                        y == -(x + 1),
                ;
                assert(x / 86400 == -q - 1) by (nonlinear_arith)
                    requires
                        x == 86400 * (-q - 1) + (86399 - r),
                        0 <= 86399 - r < 86400,
                ;
            }
            -(q as i64) - 1
        }
    }
}

} // verus!
