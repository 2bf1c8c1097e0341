//! Evaluation of a series of control points at an instant.
use crate::protocol::{ControlMode, ControlPoint, Timestamp, Value};
use vstd::prelude::*;

verus! {

/// The index of the latest point at or before `at`; among points with equal
/// times, the one that comes last.
pub open spec fn before_index(s: Seq<ControlPoint>, at: int) -> Option<int>
    decreases s.len(),
{
    if s.len() == 0 {
        None
    } else {
        let prev = before_index(s.drop_last(), at);
        let i = s.len() - 1;
        if s[i].time <= at && (prev is None || s[i].time >= s[prev->0].time) {
            Some(i)
        } else {
            prev
        }
    }
}

/// The index of the earliest point after `at`; among points with equal
/// times, the one that comes first.
pub open spec fn after_index(s: Seq<ControlPoint>, at: int) -> Option<int>
    decreases s.len(),
{
    if s.len() == 0 {
        None
    } else {
        let prev = after_index(s.drop_last(), at);
        let i = s.len() - 1;
        if s[i].time > at && (prev is None || s[i].time < s[prev->0].time) {
            Some(i)
        } else {
            prev
        }
    }
}

/// The value `elapsed / total` of the way from `start` to `end`, rounded
/// towards `start`.
pub open spec fn interpolated(start: int, end: int, elapsed: int, total: int) -> int {
    if end >= start {
        start + (end - start) * elapsed / total
    } else {
        start - (start - end) * elapsed / total
    }
}

/// The value of a series at `at`: the point in force (the latest at or before
/// `at`, else the first after it), moved towards the next point when it
/// interpolates and both values are numbers.
pub open spec fn evaluate_spec(s: Seq<ControlPoint>, at: int) -> Option<Value> {
    let before = before_index(s, at);
    let after = after_index(s, at);
    if before is None && after is None {
        None
    } else {
        let p = if before is Some { s[before->0] } else { s[after->0] };
        if p.mode == ControlMode::Interpolate && after is Some && s[after->0].time - p.time > 0
            && p.value is Number && s[after->0].value is Number {
            let q = s[after->0];
            let elapsed = if at - p.time > 0 { at - p.time } else { 0 };
            let e = if elapsed < q.time - p.time { elapsed } else { q.time - p.time };
            Some(Value::Number(interpolated(p.value->Number_0 as int, q.value->Number_0 as int, e, q.time - p.time) as i64))
        } else {
            Some(p.value)
        }
    }
}

spec fn as_index(o: Option<usize>) -> Option<int> {
    match o {
        Some(k) => Some(k as int),
        None => None,
    }
}

proof fn lemma_scaled_fraction(d: int, e: int, t: int)
    requires
        0 <= d,
        0 <= e <= t,
        0 < t,
    ensures
        0 <= d * e / t <= d,
{
    vstd::arithmetic::mul::lemma_mul_inequality(e, t, d);
    vstd::arithmetic::mul::lemma_mul_nonnegative(d, e);
    vstd::arithmetic::div_mod::lemma_div_is_ordered(d * e, d * t, t);
    vstd::arithmetic::div_mod::lemma_div_by_multiple(d, t);
    vstd::arithmetic::div_mod::lemma_div_pos_is_pos(d * e, t);
    assert(e * d == d * e) by (nonlinear_arith);
    assert(t * d == d * t) by (nonlinear_arith);
}

fn interpolate_numbers(start: i64, end: i64, elapsed: i128, total: i128) -> (r: i64)
    requires
        0 <= elapsed <= total,
        0 < total,
        total <= u64::MAX,
    ensures
        r as int == interpolated(start as int, end as int, elapsed as int, total as int),
{
    if end >= start {
        let d: u128 = (end as i128 - start as i128) as u128;
        proof {
            lemma_scaled_fraction(d as int, elapsed as int, total as int);
            assert(d as int * elapsed as int <= u64::MAX as int * u64::MAX as int) by (nonlinear_arith)
                requires
                    d <= u64::MAX,
                    0 <= elapsed <= u64::MAX,
            ;
        }
        let step: u128 = d * (elapsed as u128) / (total as u128);
        (start as i128 + step as i128) as i64
    } else {
        let d: u128 = (start as i128 - end as i128) as u128;
        proof {
            lemma_scaled_fraction(d as int, elapsed as int, total as int);
            assert(d as int * elapsed as int <= u64::MAX as int * u64::MAX as int) by (nonlinear_arith)
                requires
                    d <= u64::MAX,
                    0 <= elapsed <= u64::MAX,
            ;
        }
        let step: u128 = d * (elapsed as u128) / (total as u128);
        (start as i128 - step as i128) as i64
    }
}

/// Evaluates a series of control points at `at`.
pub fn evaluate_control_points(points: &Vec<ControlPoint>, at: Timestamp) -> (r: Option<Value>)
    ensures
        r == evaluate_spec(points@, at as int),
{
    let mut before: Option<usize> = None;
    let mut after: Option<usize> = None;
    let mut i: usize = 0;
    while i < points.len()
        invariant
            0 <= i <= points.len(),
            as_index(before) == before_index(points@.take(i as int), at as int),
            as_index(after) == after_index(points@.take(i as int), at as int),
            before_index(points@.take(i as int), at as int) is Some ==> 0 <= before_index(points@.take(i as int), at as int)->0 < i,
            after_index(points@.take(i as int), at as int) is Some ==> 0 <= after_index(points@.take(i as int), at as int)->0 < i,
        decreases points.len() - i,
    {
        let ghost s = points@.take(i as int + 1);
        assert(s.drop_last() =~= points@.take(i as int));
        let t = points[i].time;
        if t <= at {
            let take = match before {
                None => true,
                Some(b) => t >= points[b].time,
            };
            if take {
                before = Some(i);
            }
        } else {
            let take = match after {
                None => true,
                Some(a) => t < points[a].time,
            };
            if take {
                after = Some(i);
            }
        }
        i = i + 1;
    }
    assert(points@.take(points.len() as int) =~= points@);
    let current = match before {
        Some(b) => b,
        None => match after {
            Some(a) => a,
            None => {
                return None;
            },
        },
    };
    let p = &points[current];
    if p.mode == ControlMode::Interpolate {
        if let Some(a) = after {
            let q = &points[a];
            let total: i128 = q.time as i128 - p.time as i128;
            if total > 0 {
                if let (Value::Number(pv), Value::Number(qv)) = (&p.value, &q.value) {
                    let raw: i128 = at as i128 - p.time as i128;
                    let elapsed: i128 = if raw > 0 { raw } else { 0 };
                    let e: i128 = if elapsed < total { elapsed } else { total };
                    return Some(Value::Number(interpolate_numbers(*pv, *qv, e, total)));
                }
            }
        }
    }
    Some(p.value.clone())
}

/// Times never decrease along the series.
pub open spec fn sorted_by_time(s: Seq<ControlPoint>) -> bool {
    forall|i: int, j: int| 0 <= i <= j < s.len() ==> s[i].time <= s[j].time
}

/// The series without the points named `id`.
pub open spec fn without_id(s: Seq<ControlPoint>, id: Seq<char>) -> Seq<ControlPoint>
    decreases s.len(),
{
    if s.len() == 0 {
        s
    } else if s.last().id@ == id {
        without_id(s.drop_last(), id)
    } else {
        without_id(s.drop_last(), id).push(s.last())
    }
}

/// The series with `cp` placed after every point whose time is at or before
/// its own.
pub open spec fn sorted_insert(s: Seq<ControlPoint>, cp: ControlPoint) -> Seq<ControlPoint>
    decreases s.len(),
{
    if s.len() == 0 {
        seq![cp]
    } else if s.last().time <= cp.time {
        s.push(cp)
    } else {
        sorted_insert(s.drop_last(), cp).push(s.last())
    }
}

proof fn lemma_sorted_insert(s: Seq<ControlPoint>, cp: ControlPoint, k: int)
    requires
        sorted_by_time(s),
        0 <= k <= s.len(),
        forall|j: int| 0 <= j < k ==> s[j].time <= cp.time,
        forall|j: int| k <= j < s.len() ==> s[j].time > cp.time,
    ensures
        sorted_insert(s, cp) == s.insert(k, cp),
    decreases s.len(),
{
    if s.len() == 0 {
        assert(s.insert(k, cp) =~= seq![cp]);
    } else if s.last().time <= cp.time {
        assert(k == s.len());
        assert(s.insert(k, cp) =~= s.push(cp));
    } else {
        let t = s.drop_last();
        assert(sorted_by_time(t));
        lemma_sorted_insert(t, cp, k);
        assert(t.insert(k, cp).push(s.last()) =~= s.insert(k, cp));
    }
}

/// Inserts `cp` after every point whose time is at or before its own, and
/// returns where it went.
pub fn insert_sorted(points: &mut Vec<ControlPoint>, cp: ControlPoint) -> (k: usize)
    ensures
        k <= old(points).len(),
        final(points)@ == old(points)@.insert(k as int, cp),
        forall|j: int| 0 <= j < k ==> old(points)@[j].time <= cp.time,
        sorted_by_time(old(points)@) ==> forall|j: int| k <= j < old(points).len() ==> old(points)@[j].time > cp.time,
        sorted_by_time(old(points)@) ==> sorted_by_time(final(points)@),
        sorted_by_time(old(points)@) ==> final(points)@ == sorted_insert(old(points)@, cp),
{
    let mut k: usize = 0;
    while k < points.len() && points[k].time <= cp.time
        invariant
            k <= points.len(),
            forall|j: int| 0 <= j < k ==> points@[j].time <= cp.time,
        decreases points.len() - k,
    {
        k = k + 1;
    }
    let ghost before = points@;
    points.insert(k, cp);
    proof {
        if sorted_by_time(before) && k < before.len() {
            assert forall|j: int| k <= j < before.len() implies before[j].time > cp.time by {
                assert(before[k as int].time <= before[j].time);
            }
        }
        if sorted_by_time(before) {
            lemma_sorted_insert(before, cp, k as int);
        }
    }
    k
}

/// Removes every point named `id`, keeping the order of the others.
pub fn remove_points_with_id(points: &mut Vec<ControlPoint>, id: &String)
    ensures
        final(points)@ == without_id(old(points)@, id@),
{
    let mut kept: Vec<ControlPoint> = Vec::new();
    let mut i: usize = 0;
    while i < points.len()
        invariant
            i <= points.len(),
            kept@ == without_id(points@.take(i as int), id@),
        decreases points.len() - i,
    {
        assert(points@.take(i as int + 1).drop_last() =~= points@.take(i as int));
        if points[i].id != *id {
            kept.push(points[i].clone());
        }
        i = i + 1;
    }
    assert(points@.take(points.len() as int) =~= points@);
    *points = kept;
}

/// Dropping points keeps a series sorted, and keeps only points it had.
pub proof fn lemma_without_id_sorted(s: Seq<ControlPoint>, id: Seq<char>)
    requires
        sorted_by_time(s),
    ensures
        sorted_by_time(without_id(s, id)),
        forall|i: int| 0 <= i < without_id(s, id).len() ==> exists|j: int| 0 <= j < s.len() && #[trigger] without_id(s, id)[i] == #[trigger] s[j],
    decreases s.len(),
{
    if s.len() > 0 {
        let t = s.drop_last();
        assert(sorted_by_time(t));
        lemma_without_id_sorted(t, id);
        let w = without_id(t, id);
        if s.last().id@ != id {
            let w2 = w.push(s.last());
            assert forall|i: int| 0 <= i < w2.len() implies exists|j: int| 0 <= j < s.len() && #[trigger] w2[i] == #[trigger] s[j] by {
                if i < w.len() {
                    let j = choose|j: int| 0 <= j < t.len() && #[trigger] w[i] == #[trigger] t[j];
                    assert(w2[i] == s[j]);
                } else {
                    assert(w2[i] == s[s.len() - 1]);
                }
            }
            assert forall|a: int, b: int| 0 <= a <= b < w2.len() implies w2[a].time <= w2[b].time by {
                if b == w.len() {
                    if a < w.len() {
                        let j = choose|j: int| 0 <= j < t.len() && #[trigger] w[a] == #[trigger] t[j];
                        assert(s[j].time <= s[s.len() - 1].time);
                    }
                }
            }
        } else {
            assert forall|i: int| 0 <= i < w.len() implies exists|j: int| 0 <= j < s.len() && #[trigger] w[i] == #[trigger] s[j] by {
                let j = choose|j: int| 0 <= j < t.len() && #[trigger] w[i] == #[trigger] t[j];
                assert(w[i] == s[j]);
            }
        }
    }
}

/// An empty series has no value.
pub proof fn law_empty_series(at: int)
    ensures
        evaluate_spec(Seq::empty(), at) is None,
{
}

/// A series of one point has that point's value at every instant.
pub proof fn law_single_point(p: ControlPoint, at: int)
    ensures
        evaluate_spec(seq![p], at) == Some(p.value),
{
    let s = seq![p];
    assert(s.drop_last() =~= Seq::<ControlPoint>::empty());
    assert(before_index(s.drop_last(), at) is None);
    assert(after_index(s.drop_last(), at) is None);
    assert(s[0] == p);
    if p.time <= at {
        assert(before_index(s, at) == Some(0int));
        assert(after_index(s, at) is None);
    } else {
        assert(before_index(s, at) is None);
        assert(after_index(s, at) == Some(0int));
    }
}

proof fn lemma_before_index_sorted(s: Seq<ControlPoint>, at: int, i: int)
    requires
        sorted_by_time(s),
        0 <= i < s.len(),
        s[i].time <= at,
        i + 1 == s.len() || s[i + 1].time > at,
    ensures
        before_index(s, at) == Some(i),
    decreases s.len(),
{
    let last = s.len() - 1;
    if i < last {
        assert(s[last].time > at) by {
            assert(s[i + 1].time <= s[last].time);
        }
        let t = s.drop_last();
        assert(sorted_by_time(t));
        lemma_before_index_sorted(t, at, i);
    } else {
        let prev = before_index(s.drop_last(), at);
        lemma_before_index_bounds(s.drop_last(), at);
        if prev is Some {
            assert(s[prev->0].time <= s[i].time);
        }
    }
}

proof fn lemma_before_index_bounds(s: Seq<ControlPoint>, at: int)
    ensures
        before_index(s, at) is Some ==> 0 <= before_index(s, at)->0 < s.len() && s[before_index(s, at)->0].time <= at,
        before_index(s, at) is None ==> forall|j: int| 0 <= j < s.len() ==> s[j].time > at,
        after_index(s, at) is Some ==> 0 <= after_index(s, at)->0 < s.len() && s[after_index(s, at)->0].time > at,
        after_index(s, at) is None ==> forall|j: int| 0 <= j < s.len() ==> s[j].time <= at,
    decreases s.len(),
{
    if s.len() > 0 {
        let t = s.drop_last();
        lemma_before_index_bounds(t, at);
        assert forall|j: int| 0 <= j < t.len() implies t[j] == s[j] by {}
    }
}

proof fn lemma_after_index_sorted(s: Seq<ControlPoint>, at: int)
    requires
        sorted_by_time(s),
        s.len() > 0,
        at < s[0].time,
    ensures
        after_index(s, at) == Some(0int),
        before_index(s, at) is None,
    decreases s.len(),
{
    lemma_before_index_bounds(s, at);
    if s.len() > 1 {
        let t = s.drop_last();
        assert(sorted_by_time(t));
        lemma_after_index_sorted(t, at);
        assert(s[0].time <= s[s.len() - 1].time);
    } else {
        assert(s.drop_last() =~= Seq::<ControlPoint>::empty());
    }
}

/// With stepping points sorted by time, the value at `at` is that of the last
/// point at or before `at`.
pub proof fn law_step_takes_latest(s: Seq<ControlPoint>, at: int, i: int)
    requires
        sorted_by_time(s),
        forall|j: int| 0 <= j < s.len() ==> s[j].mode == ControlMode::Step,
        0 <= i < s.len(),
        s[i].time <= at,
        i + 1 == s.len() || s[i + 1].time > at,
    ensures
        evaluate_spec(s, at) == Some(s[i].value),
{
    lemma_before_index_sorted(s, at, i);
}

/// With stepping points sorted by time, an instant before every point takes
/// the first point's value.
pub proof fn law_step_before_first(s: Seq<ControlPoint>, at: int)
    requires
        sorted_by_time(s),
        forall|j: int| 0 <= j < s.len() ==> s[j].mode == ControlMode::Step,
        s.len() > 0,
        at < s[0].time,
    ensures
        evaluate_spec(s, at) == Some(s[0].value),
{
    lemma_after_index_sorted(s, at);
}

/// Between an interpolating point and a later point, both numbers, the value
/// moves linearly from the first value to the second.
pub proof fn law_interpolation(p: ControlPoint, q: ControlPoint, at: int)
    requires
        p.mode == ControlMode::Interpolate,
        p.value is Number,
        q.value is Number,
        p.time <= at < q.time,
    ensures
        evaluate_spec(seq![p, q], at) == Some(Value::Number(
            interpolated(p.value->Number_0 as int, q.value->Number_0 as int, at - p.time, q.time - p.time) as i64,
        )),
{
    let s = seq![p, q];
    assert(s.drop_last() =~= seq![p]);
    assert(s.drop_last().drop_last() =~= Seq::<ControlPoint>::empty());
    assert(before_index(seq![p], at) == Some(0int) && after_index(seq![p], at) is None) by {
        assert(seq![p].drop_last() =~= Seq::<ControlPoint>::empty());
        assert(before_index(seq![p].drop_last(), at) is None);
        assert(after_index(seq![p].drop_last(), at) is None);
        assert(seq![p][0] == p);
    }
    assert(s[0] == p && s[1] == q);
    assert(before_index(s, at) == Some(0int));
    assert(after_index(s, at) == Some(1int));
}

/// Halfway between an interpolating point and a later point, both numbers,
/// the value is the mean of the two values, within one part in the time span
/// of their distance, plus rounding.
pub proof fn law_interpolation_midpoint(p: ControlPoint, q: ControlPoint)
    requires
        p.mode == ControlMode::Interpolate,
        p.value is Number,
        q.value is Number,
        p.time < q.time,
    ensures
        evaluate_spec(seq![p, q], (p.time + q.time) / 2) matches Some(Value::Number(r)) && ({
            let a = p.value->Number_0 as int;
            let b = q.value->Number_0 as int;
            let t = q.time - p.time;
            let gap = if 2 * r >= a + b { 2 * r - (a + b) } else { (a + b) - 2 * r };
            let dist = if b >= a { b - a } else { a - b };
            gap * t < dist + 2 * t
        }),
{
    let at = (p.time + q.time) / 2;
    law_interpolation(p, q, at);
    let a = p.value->Number_0 as int;
    let b = q.value->Number_0 as int;
    let t = q.time - p.time;
    let e = at - p.time;
    assert(2 * e <= t && t <= 2 * e + 1);
    let d = if b >= a { b - a } else { a - b };
    let x = d * e / t;
    lemma_scaled_fraction(d, e, t);
    vstd::arithmetic::div_mod::lemma_fundamental_div_mod(d * e, t);
    vstd::arithmetic::div_mod::lemma_mod_bound(d * e, t);
    let m = (d * e) % t;
    assert(t * x + m == d * e);
    assert(0 <= m < t);
    assert(t * (d - 2 * x) < d + 2 * t) by (nonlinear_arith)
        requires
            t * x + m == d * e,
            0 <= m < t,
            t <= 2 * e + 1,
            0 <= d,
    ;
    assert(t * (d - 2 * x) >= 0) by (nonlinear_arith)
        requires
            t * x + m == d * e,
            0 <= m,
            2 * e <= t,
            0 <= d,
            0 < t,
    ;
    let r = interpolated(a, b, e, t);
    assert(r == r as i64 as int) by {
        if b >= a {
            assert(a <= r <= b);
        } else {
            assert(b <= r <= a);
        }
    }
    if b >= a {
        assert(r == a + x);
        assert(2 * r - (a + b) == 2 * x - d);
    } else {
        assert(r == a - x);
        assert((a + b) - 2 * r == 2 * x - d);
    }
    assert(0 <= d - 2 * x) by (nonlinear_arith)
        requires
            t * (d - 2 * x) >= 0,
            0 < t,
    ;
    let gap = if 2 * r >= a + b { 2 * r - (a + b) } else { (a + b) - 2 * r };
    assert(gap == d - 2 * x);
    assert(gap * t < d + 2 * t) by (nonlinear_arith)
        requires
            gap == d - 2 * x,
            t * (d - 2 * x) < d + 2 * t,
    ;
    assert(evaluate_spec(seq![p, q], at) == Some(Value::Number(r as i64)));
}

/// Times are pairwise distinct.
pub open spec fn distinct_times(s: Seq<ControlPoint>) -> bool {
    forall|i: int, j: int| 0 <= i < s.len() && 0 <= j < s.len() && i != j ==> s[i].time != s[j].time
}

proof fn lemma_extremes(s: Seq<ControlPoint>, at: int)
    ensures
        before_index(s, at) matches Some(b) ==> forall|j: int| 0 <= j < s.len() && s[j].time <= at ==> s[j].time <= s[b].time,
        after_index(s, at) matches Some(a) ==> forall|j: int| 0 <= j < s.len() && s[j].time > at ==> s[a].time <= s[j].time,
    decreases s.len(),
{
    lemma_before_index_bounds(s, at);
    if s.len() > 0 {
        let t = s.drop_last();
        lemma_extremes(t, at);
        lemma_before_index_bounds(t, at);
        assert forall|j: int| 0 <= j < t.len() implies t[j] == s[j] by {}
    }
}

/// With stepping points of distinct times, in any order, the value at `at`
/// is that of the latest point at or before `at`.
pub proof fn law_step_latest_any_order(s: Seq<ControlPoint>, at: int, i: int)
    requires
        distinct_times(s),
        forall|j: int| 0 <= j < s.len() ==> s[j].mode == ControlMode::Step,
        0 <= i < s.len(),
        s[i].time <= at,
        forall|j: int| 0 <= j < s.len() && s[j].time <= at ==> s[j].time <= s[i].time,
    ensures
        evaluate_spec(s, at) == Some(s[i].value),
{
    lemma_before_index_bounds(s, at);
    lemma_extremes(s, at);
    let b = before_index(s, at)->0;
    assert(s[b].time == s[i].time);
}

/// With points of distinct times, in any order, an instant before every
/// point takes the value of the earliest point.
pub proof fn law_before_all_any_order(s: Seq<ControlPoint>, at: int, i: int)
    requires
        distinct_times(s),
        0 <= i < s.len(),
        forall|j: int| 0 <= j < s.len() ==> s[j].time > at,
        forall|j: int| 0 <= j < s.len() ==> s[i].time <= s[j].time,
    ensures
        evaluate_spec(s, at) == Some(s[i].value),
{
    lemma_before_index_bounds(s, at);
    lemma_extremes(s, at);
    let a = after_index(s, at)->0;
    assert(s[a].time == s[i].time);
}

/// With points of distinct times, in any order: when the latest point at or
/// before `at` interpolates and it and the next point are numbers, the value
/// moves linearly between them; when either is not a number, the value is
/// that of the point in force.
pub proof fn law_interpolation_any_order(s: Seq<ControlPoint>, at: int, i: int, j: int)
    requires
        distinct_times(s),
        0 <= i < s.len(),
        0 <= j < s.len(),
        s[i].time <= at < s[j].time,
        forall|k: int| 0 <= k < s.len() && s[k].time <= at ==> s[k].time <= s[i].time,
        forall|k: int| 0 <= k < s.len() && s[k].time > at ==> s[j].time <= s[k].time,
        s[i].mode == ControlMode::Interpolate,
    ensures
        s[i].value is Number && s[j].value is Number ==> evaluate_spec(s, at) == Some(Value::Number(
            interpolated(s[i].value->Number_0 as int, s[j].value->Number_0 as int, at - s[i].time, s[j].time - s[i].time) as i64,
        )),
        !(s[i].value is Number && s[j].value is Number) ==> evaluate_spec(s, at) == Some(s[i].value),
{
    lemma_before_index_bounds(s, at);
    lemma_extremes(s, at);
    let b = before_index(s, at)->0;
    let a = after_index(s, at)->0;
    assert(s[b].time == s[i].time);
    assert(s[a].time == s[j].time);
}

} // verus!
