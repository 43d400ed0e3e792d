//! The per-round pipeline: fuse the four readings, reconcile the round
//! timestamp, apply the relative-origin policy, and render one CSV line.

use crate::error::RoundError;
use crate::fmt3::fixed3_shape;
use crate::fmt3::fmt_fixed3;
use crate::fmt3::format_fixed3;
use crate::fmt3::lemma_fmt_fixed3_shape;
use crate::fuse::Reading;
use crate::fuse::claims;
use crate::fuse::contribs;
use crate::fuse::covered;
use crate::fuse::fuse;
use crate::fuse::has_collision;
use crate::fuse::is_first_collision;
use crate::fuse::pos_covered;
use crate::timing::nanos_to_millis;
use crate::timing::nanos_to_millis_exec;
use crate::timing::reconcile;
use crate::timing::seq_min;
use crate::timing::skew_ok;
use vstd::prelude::*;

verus! {

/// The timestamps of a round, in meter order.
pub open spec fn timestamps_of(rs: Seq<Reading>) -> Seq<i64> {
    rs.map_values(|r: Reading| r.timestamp_nanos)
}

/// The value fused at output position `pos`; meaningful when some reading
/// claims `pos` and no position is claimed twice.
pub open spec fn fused_value(c: Seq<Option<(i64, int)>>, pos: int) -> i64 {
    let (k, v) = choose|k: int, v: i64| 0 <= k < c.len() && c[k] == Some((v, pos));
    v
}

/// The four-column sample of a fused round.
pub open spec fn fused_sample(c: Seq<Option<(i64, int)>>) -> Seq<i64> {
    seq![fused_value(c, 0), fused_value(c, 1), fused_value(c, 2), fused_value(c, 3)]
}

/// The timestamp origin after one round whose chosen timestamp is `t`:
/// in relative mode the first round whose offset is still zero anchors it.
pub open spec fn next_offset(relative: bool, offset: int, t: int) -> int {
    if relative && offset == 0 {
        t
    } else {
        offset
    }
}

/// One CSV line: the round timestamp and the four column values, each in
/// thousandths, comma-separated.
pub open spec fn csv_line(t_millis: int, sample: Seq<i64>) -> Seq<char> {
    fmt_fixed3(t_millis) + seq![','] + fmt_fixed3(sample[0] as int) + seq![','] + fmt_fixed3(
        sample[1] as int,
    ) + seq![','] + fmt_fixed3(sample[2] as int) + seq![','] + fmt_fixed3(sample[3] as int)
}

/// Renders one CSV line from the emitted milliseconds and the fused sample.
pub fn format_line(t_millis: i64, sample: &[i64; 4]) -> (out: String)
    ensures
        out@ == csv_line(t_millis as int, sample@),
{
    let mut s = format_fixed3(t_millis);
    proof {
        reveal_strlit(",");
        assert(","@ =~= seq![',']);
    }
    s.append(",");
    let f0 = format_fixed3(sample[0]);
    s.append(f0.as_str());
    s.append(",");
    let f1 = format_fixed3(sample[1]);
    s.append(f1.as_str());
    s.append(",");
    let f2 = format_fixed3(sample[2]);
    s.append(f2.as_str());
    s.append(",");
    let f3 = format_fixed3(sample[3]);
    s.append(f3.as_str());
    proof {
        assert(s@ =~= csv_line(t_millis as int, sample@));
    }
    s
}

/// The run's configuration and origin state: the four port identifiers, the
/// relative-timestamp flag, and the nanosecond origin subtracted from every
/// emitted timestamp (zero until anchored, and always zero in absolute
/// mode).
pub struct RunContext {
    pub ports: Vec<String>,
    pub relative_timestamps: bool,
    pub offset_nanos: i64,
}

impl RunContext {
    /// The origin never precedes the epoch.
    pub open spec fn wf(&self) -> bool {
        self.offset_nanos >= 0
    }

    /// Builds the run configuration: exactly four port identifiers are
    /// accepted, any other count is a usage error.
    pub fn new(relative_timestamps: bool, ports: Vec<String>) -> (r: Option<RunContext>)
        ensures
            r is Some <==> ports@.len() == 4,
            r matches Some(ctx) ==> ctx.wf() && ctx.relative_timestamps == relative_timestamps
                && ctx.offset_nanos == 0 && ctx.ports == ports,
    {
        if ports.len() == 4 {
            Some(RunContext { ports, relative_timestamps, offset_nanos: 0 })
        } else {
            None
        }
    }

    /// Runs one round: fuses the four readings, reconciles the round
    /// timestamp, anchors the origin in relative mode, and renders the CSV
    /// line. Errors leave the origin untouched and abort the run.
    pub fn process_round(&mut self, readings: &[Reading; 4]) -> (r: Result<String, RoundError>)
        requires
            old(self).wf(),
        ensures
            final(self).wf(),
            final(self).relative_timestamps == old(self).relative_timestamps,
            final(self).ports == old(self).ports,
            ({
                let c = contribs(readings@);
                let ts = timestamps_of(readings@);
                let t = seq_min(ts);
                match r {
                    Ok(line) => {
                        &&& !has_collision(c)
                        &&& covered(c)
                        &&& skew_ok(ts)
                        &&& t >= 0
                        &&& final(self).offset_nanos == next_offset(
                            old(self).relative_timestamps,
                            old(self).offset_nanos as int,
                            t,
                        )
                        &&& line@ == csv_line(
                            nanos_to_millis(t - final(self).offset_nanos),
                            fused_sample(c),
                        )
                    },
                    Err(e) => *final(self) == *old(self) && (match e {
                        RoundError::PositionCollision { position } => 1 <= position <= 4 && (
                        exists|k: int| is_first_collision(c, k) && claims(c, k, position - 1)),
                        RoundError::IncompleteRound => !has_collision(c) && !covered(c),
                        RoundError::SkewExceeded => !has_collision(c) && covered(c) && !skew_ok(
                            ts,
                        ),
                        RoundError::TimeBeforeEpoch => !has_collision(c) && covered(c) && skew_ok(
                            ts,
                        ) && t < 0,
                    }),
                }
            }),
    {
        let ghost c = contribs(readings@);
        let sample = match fuse(readings) {
            Ok(s) => s,
            Err(e) => {
                return Err(e);
            },
        };
        let ts: [i64; 4] = [
            readings[0].timestamp_nanos,
            readings[1].timestamp_nanos,
            readings[2].timestamp_nanos,
            readings[3].timestamp_nanos,
        ];
        proof {
            assert(ts@ =~= timestamps_of(readings@));
        }
        let t = match reconcile(&ts) {
            Ok(t) => t,
            Err(e) => {
                return Err(e);
            },
        };
        if self.relative_timestamps && self.offset_nanos == 0 {
            self.offset_nanos = t;
        }
        let emitted = t - self.offset_nanos;
        let millis = nanos_to_millis_exec(emitted);
        proof {
            assert forall|pos: int| 0 <= pos < 4 implies sample@[pos] == fused_value(c, pos) by {
                assert(pos_covered(c, pos));
                let k0 = choose|k0: int| 0 <= k0 < c.len() && #[trigger] claims(c, k0, pos);
                let p = c[k0]->0;
                assert(c[k0] == Some((p.0, pos)));
                let (k, v) = choose|k: int, v: i64| 0 <= k < c.len() && c[k] == Some((v, pos));
                assert(c[k] == Some((v, pos)));
            }
            assert(sample@ =~= fused_sample(c));
        }
        Ok(format_line(millis, &sample))
    }
}

/// Relative-origin idempotence: in relative mode, a first round at instant
/// `t1` after the epoch anchors the origin at `t1`, so its own emitted
/// timestamp is exactly zero (rendered `0.000`), and the next round's
/// emitted timestamp is exactly `t2 - t1`.
pub proof fn lemma_relative_origin(t1: int, t2: int)
    requires
        t1 > 0,
    ensures
        ({
            let o1 = next_offset(true, 0, t1);
            let o2 = next_offset(true, o1, t2);
            &&& t1 - o1 == 0
            &&& nanos_to_millis(t1 - o1) == 0
            &&& fmt_fixed3(nanos_to_millis(t1 - o1)) == seq!['0', '.', '0', '0', '0']
            &&& o2 == o1
            &&& t2 - o2 == t2 - t1
        }),
{
    assert(nanos_to_millis(0) == 0);
    assert(crate::fmt3::dec_digits(0) =~= seq!['0']);
    assert(fmt_fixed3(0) =~= seq!['0', '.', '0', '0', '0']);
}

/// Absolute-origin monotonicity: without the relative flag the origin stays
/// zero, and when every meter's timestamp in a later round is at or after
/// its timestamp in an earlier round, the emitted milliseconds never
/// decrease across the two rounds.
pub proof fn lemma_absolute_monotonic(ta: Seq<i64>, tb: Seq<i64>, offset: int)
    requires
        ta.len() == 4,
        tb.len() == 4,
        forall|k: int| 0 <= k < 4 ==> #[trigger] ta[k] <= tb[k],
    ensures
        next_offset(false, offset, seq_min(ta)) == offset,
        seq_min(ta) <= seq_min(tb),
        nanos_to_millis(seq_min(ta) - offset) <= nanos_to_millis(seq_min(tb) - offset),
{
    crate::timing::lemma_seq_min_monotonic(ta, tb);
    crate::timing::lemma_millis_monotonic(seq_min(ta) - offset, seq_min(tb) - offset);
}

/// The shape of one emitted line: five fields separated by four commas,
/// each field an optional minus sign, one or more digits, a point, and
/// exactly three digits.
pub open spec fn csv_line_shape(s: Seq<char>) -> bool {
    exists|i1: int, i2: int, i3: int, i4: int|
        #![trigger s[i1], s[i2], s[i3], s[i4]]
        {
            &&& 0 < i1 < i2 < i3 < i4 < s.len()
            &&& s[i1] == ','
            &&& s[i2] == ','
            &&& s[i3] == ','
            &&& s[i4] == ','
            &&& fixed3_shape(s.subrange(0, i1))
            &&& fixed3_shape(s.subrange(i1 + 1, i2))
            &&& fixed3_shape(s.subrange(i2 + 1, i3))
            &&& fixed3_shape(s.subrange(i3 + 1, i4))
            &&& fixed3_shape(s.subrange(i4 + 1, s.len() as int))
        }
}

/// Output format: every emitted line has the comma-separated five-field
/// three-decimal shape.
pub proof fn lemma_output_format(t_millis: int, sample: Seq<i64>)
    requires
        sample.len() == 4,
    ensures
        csv_line_shape(csv_line(t_millis, sample)),
{
    let s = csv_line(t_millis, sample);
    let f0 = fmt_fixed3(t_millis);
    let f1 = fmt_fixed3(sample[0] as int);
    let f2 = fmt_fixed3(sample[1] as int);
    let f3 = fmt_fixed3(sample[2] as int);
    let f4 = fmt_fixed3(sample[3] as int);
    lemma_fmt_fixed3_shape(t_millis);
    lemma_fmt_fixed3_shape(sample[0] as int);
    lemma_fmt_fixed3_shape(sample[1] as int);
    lemma_fmt_fixed3_shape(sample[2] as int);
    lemma_fmt_fixed3_shape(sample[3] as int);
    let i1 = f0.len() as int;
    let i2 = i1 + 1 + f1.len();
    let i3 = i2 + 1 + f2.len();
    let i4 = i3 + 1 + f3.len();
    assert(s.subrange(0, i1) =~= f0);
    assert(s.subrange(i1 + 1, i2) =~= f1);
    assert(s.subrange(i2 + 1, i3) =~= f2);
    assert(s.subrange(i3 + 1, i4) =~= f3);
    assert(s.subrange(i4 + 1, s.len() as int) =~= f4);
    assert(s[i1] == ',' && s[i2] == ',' && s[i3] == ',' && s[i4] == ',');
}

} // verus!
