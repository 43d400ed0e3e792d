//! The sample fuser: merges four per-meter readings into one positional
//! sample, enforcing the one-meter-one-position deployment invariant.

use crate::error::RoundError;
use vstd::prelude::*;

verus! {

/// One decoded meter reading: an acquisition instant in nanoseconds since the
/// Unix epoch (negative means before the epoch) and the four channel
/// temperatures in milli-degrees Celsius, `None` marking a missing channel.
#[derive(Clone, Copy, Debug)]
pub struct Reading {
    pub timestamp_nanos: i64,
    pub temps_milli_c: [Option<i64>; 4],
}

/// How many channel slots hold a finite value.
pub open spec fn count_some(s: Seq<Option<i64>>) -> nat
    decreases s.len(),
{
    if s.len() == 0 {
        0
    } else {
        count_some(s.drop_last()) + if s.last() is Some {
            1nat
        } else {
            0nat
        }
    }
}

proof fn lemma_count_some_take_step(s: Seq<Option<i64>>, i: int)
    requires
        0 <= i < s.len(),
    ensures
        count_some(s.take(i + 1)) == count_some(s.take(i)) + if s[i] is Some {
            1nat
        } else {
            0nat
        },
{
    assert(s.take(i + 1).drop_last() =~= s.take(i));
    assert(s.take(i + 1).last() == s[i]);
}

proof fn lemma_count_some_pos(s: Seq<Option<i64>>)
    requires
        count_some(s) > 0,
    ensures
        exists|i: int| 0 <= i < s.len() && s[i] is Some,
    decreases s.len(),
{
    if s.last() is Some {
        assert(s[s.len() - 1] is Some);
    } else {
        lemma_count_some_pos(s.drop_last());
        let i = choose|i: int| 0 <= i < s.len() - 1 && s.drop_last()[i] is Some;
        assert(s[i] is Some);
    }
}

proof fn lemma_count_some_zero(s: Seq<Option<i64>>, i: int)
    requires
        count_some(s) == 0,
        0 <= i < s.len(),
    ensures
        s[i] is None,
    decreases s.len(),
{
    if i == s.len() - 1 {
    } else {
        lemma_count_some_zero(s.drop_last(), i);
    }
}

/// What a reading contributes to the round: the value and index of its
/// unique finite channel, or nothing when zero or several channels are
/// finite.
pub open spec fn unique_channel(temps: Seq<Option<i64>>) -> Option<(i64, int)> {
    if count_some(temps) == 1 {
        let (v, i) = choose|v: i64, i: int| 0 <= i < temps.len() && temps[i] == Some(v);
        Some((v, i))
    } else {
        None
    }
}

/// Finds the unique finite channel of a four-slot array: `Some((value, index))`
/// when exactly one slot is finite, `None` when zero or several are.
pub fn find_unique_channel(temps: &[Option<i64>; 4]) -> (r: Option<(i64, usize)>)
    ensures
        r is Some <==> count_some(temps@) == 1,
        r matches Some((v, i)) ==> i < 4 && temps@[i as int] == Some(v) && (forall|j: int|
            0 <= j < 4 && j != i ==> temps@[j] is None),
        r matches Some((v, i)) ==> unique_channel(temps@) == Some((v, i as int)),
        r is None ==> unique_channel(temps@) is None,
{
    let mut count: usize = 0;
    let mut found: Option<(i64, usize)> = None;
    let mut k: usize = 0;
    while k < 4
        invariant
            0 <= k <= 4,
            count <= k,
            count == count_some(temps@.take(k as int)),
            count == 1 ==> (found matches Some((v, i)) && i < k && temps@[i as int] == Some(v)
                && (forall|j: int| 0 <= j < k && j != i ==> temps@[j] is None)),
        decreases 4 - k,
    {
        proof {
            lemma_count_some_take_step(temps@, k as int);
        }
        match temps[k] {
            Some(v) => {
                count = count + 1;
                found = Some((v, k));
                proof {
                    if count == 1 {
                        assert forall|j: int| 0 <= j < k + 1 && j != k implies temps@[j]
                            is None by {
                            lemma_count_some_zero(temps@.take(k as int), j);
                        }
                    }
                }
            },
            None => {
            },
        }
        k = k + 1;
    }
    proof {
        assert(temps@.take(4) =~= temps@);
    }
    if count == 1 {
        proof {
            let (v0, i0) = found->0;
            assert(0 <= i0 < temps@.len() && temps@[i0 as int] == Some(v0));
            let (cv, ci) = choose|v: i64, i: int| 0 <= i < temps@.len() && temps@[i] == Some(v);
            assert(temps@[ci] is Some);
            assert(ci == i0 as int);
        }
        found
    } else {
        None
    }
}

/// The per-reading contributions of a round, in meter order.
pub open spec fn contribs(rs: Seq<Reading>) -> Seq<Option<(i64, int)>> {
    rs.map_values(|r: Reading| unique_channel(r.temps_milli_c@))
}

/// The `k`th reading contributes a value at output position `pos`.
pub open spec fn claims(c: Seq<Option<(i64, int)>>, k: int, pos: int) -> bool {
    c[k] matches Some(p) && p.1 == pos
}

/// Some earlier reading already claimed the position that reading `k` claims.
pub open spec fn collision_at(c: Seq<Option<(i64, int)>>, k: int) -> bool {
    exists|j: int, pos: int| 0 <= j < k && claims(c, j, pos) && claims(c, k, pos)
}

/// Two readings of the round claim the same output position.
pub open spec fn has_collision(c: Seq<Option<(i64, int)>>) -> bool {
    exists|k: int| 0 <= k < c.len() && collision_at(c, k)
}

/// Reading `k` is the earliest, in meter order, to re-claim a position.
pub open spec fn is_first_collision(c: Seq<Option<(i64, int)>>, k: int) -> bool {
    &&& 0 <= k < c.len()
    &&& collision_at(c, k)
    &&& forall|k2: int| 0 <= k2 < k ==> !collision_at(c, k2)
}

/// Output position `pos` is claimed by some reading of the round.
pub open spec fn pos_covered(c: Seq<Option<(i64, int)>>, pos: int) -> bool {
    exists|k: int| 0 <= k < c.len() && #[trigger] claims(c, k, pos)
}

/// Every output position is claimed by some reading of the round.
pub open spec fn covered(c: Seq<Option<(i64, int)>>) -> bool {
    forall|pos: int| 0 <= pos < 4 ==> #[trigger] pos_covered(c, pos)
}

/// Fuses one round of four readings into the four-column sample.
///
/// Each reading with a unique finite channel contributes its value at that
/// channel's index; a reading with zero or several finite channels
/// contributes nothing. The round fails on the first position claimed twice,
/// and otherwise on any position left unclaimed.
pub fn fuse(readings: &[Reading; 4]) -> (r: Result<[i64; 4], RoundError>)
    ensures
        ({
            let c = contribs(readings@);
            match r {
                Ok(sample) => !has_collision(c) && covered(c) && (forall|k: int, v: i64, pos: int|
                    0 <= k < 4 && c[k] == Some((v, pos)) ==> 0 <= pos < 4 && sample@[pos] == v),
                Err(RoundError::PositionCollision { position }) => 1 <= position <= 4
                    && (exists|k: int|
                    is_first_collision(c, k) && claims(c, k, position - 1)),
                Err(RoundError::IncompleteRound) => !has_collision(c) && !covered(c),
                Err(_) => false,
            }
        }),
{
    let ghost c = contribs(readings@);
    let mut buf: [Option<i64>; 4] = [None, None, None, None];
    let mut k: usize = 0;
    while k < 4
        invariant
            0 <= k <= 4,
            c == contribs(readings@),
            c.len() == 4,
            forall|k2: int| 0 <= k2 < k ==> !collision_at(c, k2),
            forall|k2: int, v: i64, pos: int| 0 <= k2 < k && c[k2] == Some((v, pos)) ==> 0 <= pos
                < 4 && buf@[pos] == Some(v),
            forall|pos: int| #![trigger buf@[pos]] 0 <= pos < 4 && buf@[pos] is Some ==> (exists|k2: int|
                0 <= k2 < k && c[k2] == Some((buf@[pos]->0, pos))),
        decreases 4 - k,
    {
        let r = find_unique_channel(&readings[k].temps_milli_c);
        proof {
            assert(c[k as int] == unique_channel(readings@[k as int].temps_milli_c@));
        }
        if let Some((v, i)) = r {
            if buf[i].is_none() {
                buf[i] = Some(v);
            } else {
                proof {
                    assert(claims(c, k as int, i as int));
                    let k2 = choose|k2: int| 0 <= k2 < k && c[k2] == Some((buf@[i as int]->0, i as int));
                    assert(claims(c, k2, i as int));
                    assert(collision_at(c, k as int));
                    assert(is_first_collision(c, k as int) && claims(c, k as int, i as int));
                }
                return Err(RoundError::PositionCollision { position: i + 1 });
            }
        }
        k = k + 1;
    }
    match (buf[0], buf[1], buf[2], buf[3]) {
        (Some(v0), Some(v1), Some(v2), Some(v3)) => {
            let sample: [i64; 4] = [v0, v1, v2, v3];
            proof {
                assert forall|pos: int| 0 <= pos < 4 implies pos_covered(c, pos) by {
                    assert(buf@[pos] is Some);
                    let k2 = choose|k2: int| 0 <= k2 < 4 && c[k2] == Some((buf@[pos]->0, pos));
                    assert(claims(c, k2, pos));
                }
                assert(!has_collision(c));
            }
            Ok(sample)
        },
        _ => {
            proof {
                assert(buf@[0] is None || buf@[1] is None || buf@[2] is None || buf@[3] is None);
                let badpos = choose|pos: int| 0 <= pos < 4 && buf@[pos] is None;
                assert forall|k2: int| !(0 <= k2 < c.len() && #[trigger] claims(c, k2, badpos)) by {
                    if 0 <= k2 < c.len() && claims(c, k2, badpos) {
                        let p = c[k2]->0;
                        assert(c[k2] == Some((p.0, badpos)));
                    }
                }
                assert(!pos_covered(c, badpos));
                assert(!covered(c));
                assert(!has_collision(c));
            }
            Err(RoundError::IncompleteRound)
        },
    }
}

proof fn lemma_unique_channel_some(s: Seq<Option<i64>>)
    requires
        count_some(s) == 1,
    ensures
        unique_channel(s) matches Some(p) && 0 <= p.1 < s.len() && s[p.1] == Some(p.0),
{
    lemma_count_some_pos(s);
    let i = choose|i: int| 0 <= i < s.len() && s[i] is Some;
    let v = s[i]->0;
    assert(0 <= i < s.len() && s[i] == Some(v));
}

/// Fuser uniqueness: when each of the four readings has exactly one finite
/// channel and the four finite channels sit at pairwise distinct indices,
/// the round has no collision, covers all four positions, and every reading
/// contributes. By the fuser's contract it then succeeds and places each
/// value at its source index.
pub proof fn lemma_fuser_uniqueness(rs: Seq<Reading>)
    requires
        rs.len() == 4,
        forall|k: int| 0 <= k < 4 ==> count_some(#[trigger] rs[k].temps_milli_c@) == 1,
        forall|j: int, k: int, pos: int|
            #![trigger claims(contribs(rs), j, pos), claims(contribs(rs), k, pos)]
            0 <= j < k < 4 && claims(contribs(rs), j, pos) ==> !claims(contribs(rs), k, pos),
    ensures
        !has_collision(contribs(rs)),
        covered(contribs(rs)),
        forall|k: int| 0 <= k < 4 ==> (#[trigger] contribs(rs)[k]) is Some,
{
    let c = contribs(rs);
    assert forall|k: int| 0 <= k < 4 implies (#[trigger] c[k]) is Some by {
        lemma_unique_channel_some(rs[k].temps_milli_c@);
    }
    assert forall|k: int| 0 <= k < c.len() implies !collision_at(c, k) by {
        if collision_at(c, k) {
            let (j, pos) = choose|j: int, pos: int|
                0 <= j < k && claims(c, j, pos) && claims(c, k, pos);
        }
    }
    let i0 = (c[0]->0).1;
    let i1 = (c[1]->0).1;
    let i2 = (c[2]->0).1;
    let i3 = (c[3]->0).1;
    assert forall|k: int| 0 <= k < 4 implies 0 <= ((#[trigger] c[k])->0).1 < 4 by {
        lemma_unique_channel_some(rs[k].temps_milli_c@);
    }
    assert(claims(c, 0, i0) && claims(c, 1, i1) && claims(c, 2, i2) && claims(c, 3, i3));
    assert(i0 != i1 && i0 != i2 && i0 != i3 && i1 != i2 && i1 != i3 && i2 != i3);
    assert forall|pos: int| 0 <= pos < 4 implies pos_covered(c, pos) by {
        assert(pos == i0 || pos == i1 || pos == i2 || pos == i3);
    }
}

/// Fuser collision: when two readings claim the same output position the
/// round has a collision, so by the fuser's contract it fails with the
/// position-collision error; and when that position is the only one claimed
/// twice, the error names exactly that position (1-based).
pub proof fn lemma_fuser_collision(rs: Seq<Reading>, j: int, k: int, pos: int)
    requires
        rs.len() == 4,
        0 <= j < k < 4,
        claims(contribs(rs), j, pos),
        claims(contribs(rs), k, pos),
        forall|j2: int, k2: int, pos2: int|
            #![trigger claims(contribs(rs), j2, pos2), claims(contribs(rs), k2, pos2)]
            0 <= j2 < k2 < 4 && claims(contribs(rs), j2, pos2) && claims(contribs(rs), k2, pos2)
                ==> pos2 == pos,
    ensures
        has_collision(contribs(rs)),
        forall|k2: int| #[trigger] is_first_collision(contribs(rs), k2) ==> claims(
            contribs(rs),
            k2,
            pos,
        ),
{
    let c = contribs(rs);
    assert(collision_at(c, k));
    assert forall|k2: int| #[trigger] is_first_collision(c, k2) implies claims(c, k2, pos) by {
        let (j2, pos2) = choose|j2: int, pos2: int|
            0 <= j2 < k2 && claims(c, j2, pos2) && claims(c, k2, pos2);
        assert(pos2 == pos);
    }
}

/// Fuser incompleteness: when no position is claimed twice but some position
/// is claimed by no reading, the round has no collision and is not covered,
/// so by the fuser's contract it fails with the incomplete-round error.
pub proof fn lemma_fuser_incompleteness(rs: Seq<Reading>, pos: int)
    requires
        rs.len() == 4,
        0 <= pos < 4,
        forall|j: int, k: int, pos2: int|
            #![trigger claims(contribs(rs), j, pos2), claims(contribs(rs), k, pos2)]
            0 <= j < k < 4 && claims(contribs(rs), j, pos2) ==> !claims(contribs(rs), k, pos2),
        forall|k: int| 0 <= k < 4 ==> !#[trigger] claims(contribs(rs), k, pos),
    ensures
        !has_collision(contribs(rs)),
        !covered(contribs(rs)),
{
    let c = contribs(rs);
    assert forall|k: int| 0 <= k < c.len() implies !collision_at(c, k) by {
        if collision_at(c, k) {
            let (j, p) = choose|j: int, p: int| 0 <= j < k && claims(c, j, p) && claims(c, k, p);
        }
    }
    assert(!pos_covered(c, pos));
}

} // verus!
