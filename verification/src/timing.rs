//! The timestamp reconciler: picks the round timestamp, enforces the
//! intra-round skew bound, and rounds nanoseconds to the emitted millisecond
//! grid.

use crate::error::RoundError;
use vstd::arithmetic::div_mod::lemma_div_is_ordered;
use vstd::arithmetic::div_mod::lemma_fundamental_div_mod;
use vstd::prelude::*;

verus! {

/// The least element of a non-empty sequence of timestamps.
pub open spec fn seq_min(s: Seq<i64>) -> int
    decreases s.len(),
{
    if s.len() <= 1 {
        s[0] as int
    } else {
        let m = seq_min(s.drop_last());
        if s.last() < m {
            s.last() as int
        } else {
            m
        }
    }
}

/// The greatest element of a non-empty sequence of timestamps.
pub open spec fn seq_max(s: Seq<i64>) -> int
    decreases s.len(),
{
    if s.len() <= 1 {
        s[0] as int
    } else {
        let m = seq_max(s.drop_last());
        if s.last() > m {
            s.last() as int
        } else {
            m
        }
    }
}

/// A round is tight when its timestamps span strictly less than one second.
pub open spec fn skew_ok(ts: Seq<i64>) -> bool {
    seq_max(ts) - seq_min(ts) < 1_000_000_000
}

/// Chooses the round timestamp from the four meter timestamps.
///
/// The round timestamp is the earliest of the four. The round is rejected
/// when the span between earliest and latest reaches one second, and
/// otherwise when the earliest instant predates the Unix epoch.
pub fn reconcile(timestamps: &[i64; 4]) -> (r: Result<i64, RoundError>)
    ensures
        r == (if !skew_ok(timestamps@) {
            Err::<i64, RoundError>(RoundError::SkewExceeded)
        } else if seq_min(timestamps@) < 0 {
            Err::<i64, RoundError>(RoundError::TimeBeforeEpoch)
        } else {
            Ok::<i64, RoundError>(seq_min(timestamps@) as i64)
        }),
{
    let t0 = timestamps[0];
    let t1 = timestamps[1];
    let t2 = timestamps[2];
    let t3 = timestamps[3];
    let mut lo = t0;
    if t1 < lo {
        lo = t1;
    }
    if t2 < lo {
        lo = t2;
    }
    if t3 < lo {
        lo = t3;
    }
    let mut hi = t0;
    if t1 > hi {
        hi = t1;
    }
    if t2 > hi {
        hi = t2;
    }
    if t3 > hi {
        hi = t3;
    }
    proof {
        let s = timestamps@;
        let s1 = s.drop_last();
        let s2 = s1.drop_last();
        let s3 = s2.drop_last();
        assert(s3.len() == 1 && s3[0] == t0);
        assert(seq_min(s3) == t0 as int && seq_max(s3) == t0 as int);
        assert(s2.last() == t1 && s1.last() == t2 && s.last() == t3);
        assert(seq_min(s2) == if t1 < seq_min(s3) {
            t1 as int
        } else {
            seq_min(s3)
        });
        assert(seq_min(s1) == if t2 < seq_min(s2) {
            t2 as int
        } else {
            seq_min(s2)
        });
        assert(seq_min(s) == if t3 < seq_min(s1) {
            t3 as int
        } else {
            seq_min(s1)
        });
        assert(seq_max(s2) == if t1 > seq_max(s3) {
            t1 as int
        } else {
            seq_max(s3)
        });
        assert(seq_max(s1) == if t2 > seq_max(s2) {
            t2 as int
        } else {
            seq_max(s2)
        });
        assert(seq_max(s) == if t3 > seq_max(s1) {
            t3 as int
        } else {
            seq_max(s1)
        });
        assert(seq_min(s) == lo as int);
        assert(seq_max(s) == hi as int);
    }
    if (hi as i128) - (lo as i128) >= 1_000_000_000i128 {
        Err(RoundError::SkewExceeded)
    } else if lo < 0 {
        Err(RoundError::TimeBeforeEpoch)
    } else {
        Ok(lo)
    }
}

/// The emitted value of a nanosecond quantity on the three-decimal output
/// grid: the nearest millisecond, half-milliseconds rounding up.
pub open spec fn nanos_to_millis(n: int) -> int {
    (n + 500_000) / 1_000_000
}

/// Rounds a nanosecond quantity to the nearest millisecond, half up.
pub fn nanos_to_millis_exec(n: i64) -> (m: i64)
    ensures
        m == nanos_to_millis(n as int),
{
    let a: i128 = (n as i128) + 500_000;
    let q: i128 = a / 1_000_000;
    let r: i128 = a % 1_000_000;
    let f: i128 = if a < 0 && r != 0 {
        q - 1
    } else {
        q
    };
    proof {
        lemma_fundamental_div_mod(a as int, 1_000_000);
        assert(f == nanos_to_millis(n as int));
        assert(-10_000_000_000_000 <= f <= 10_000_000_000_000);
    }
    f as i64
}

/// The emitted grid respects order: an earlier instant never rounds to a
/// later millisecond.
pub proof fn lemma_millis_monotonic(n1: int, n2: int)
    requires
        n1 <= n2,
    ensures
        nanos_to_millis(n1) <= nanos_to_millis(n2),
{
    lemma_div_is_ordered(n1 + 500_000, n2 + 500_000, 1_000_000);
}

/// The round timestamp respects per-meter order: when every meter's
/// timestamp in a later round is at or after its timestamp in an earlier
/// round, the later round's timestamp is at or after the earlier round's.
pub proof fn lemma_seq_min_monotonic(a: Seq<i64>, b: Seq<i64>)
    requires
        a.len() == b.len(),
        a.len() > 0,
        forall|k: int| 0 <= k < a.len() ==> a[k] <= b[k],
    ensures
        seq_min(a) <= seq_min(b),
    decreases a.len(),
{
    if a.len() > 1 {
        lemma_seq_min_monotonic(a.drop_last(), b.drop_last());
    }
}

} // verus!
