//! Settings bags and the control-point series that drive them.
use crate::control::{evaluate_control_points, evaluate_spec, insert_sorted, sorted_insert, remove_points_with_id, sorted_by_time, without_id};
use crate::protocol::{ControlPoint, Series, Setting, Timestamp, Value};
use vstd::prelude::*;

verus! {

/// The value stored under `key`; the last entry wins.
pub open spec fn lookup(s: Seq<Setting>, key: Seq<char>) -> Option<Value>
    decreases s.len(),
{
    if s.len() == 0 {
        None
    } else if s.last().key@ == key {
        Some(s.last().value)
    } else {
        lookup(s.drop_last(), key)
    }
}

/// No key occurs twice.
pub open spec fn keys_distinct(s: Seq<Setting>) -> bool {
    forall|i: int, j: int| 0 <= i < j < s.len() ==> s[i].key@ != s[j].key@
}

proof fn lemma_lookup_update(s: Seq<Setting>, i: int, e: Setting, k: Seq<char>)
    requires
        keys_distinct(s),
        0 <= i < s.len(),
        s[i].key@ == e.key@,
    ensures
        lookup(s.update(i, e), k) == if k == e.key@ { Some(e.value) } else { lookup(s, k) },
    decreases s.len(),
{
    let t = s.update(i, e);
    if i == s.len() - 1 {
        assert(t.drop_last() =~= s.drop_last());
    } else {
        assert(t.drop_last() =~= s.drop_last().update(i, e));
        lemma_lookup_update(s.drop_last(), i, e, k);
    }
}

pub proof fn lemma_lookup_missing(s: Seq<Setting>, k: Seq<char>)
    requires
        forall|j: int| 0 <= j < s.len() ==> s[j].key@ != k,
    ensures
        lookup(s, k) is None,
    decreases s.len(),
{
    if s.len() > 0 {
        lemma_lookup_missing(s.drop_last(), k);
    }
}

pub proof fn lemma_lookup_found(s: Seq<Setting>, i: int)
    requires
        keys_distinct(s),
        0 <= i < s.len(),
    ensures
        lookup(s, s[i].key@) == Some(s[i].value),
    decreases s.len(),
{
    if i < s.len() - 1 {
        lemma_lookup_found(s.drop_last(), i);
    }
}

/// Where `key` is stored, if it is.
pub fn find_setting(settings: &Vec<Setting>, key: &String) -> (r: Option<usize>)
    ensures
        r matches Some(i) ==> i < settings.len() && settings@[i as int].key@ == key@,
        r is None ==> forall|j: int| 0 <= j < settings.len() ==> settings@[j].key@ != key@,
{
    let mut i: usize = 0;
    while i < settings.len()
        invariant
            i <= settings.len(),
            forall|j: int| 0 <= j < i ==> settings@[j].key@ != key@,
        decreases settings.len() - i,
    {
        if settings[i].key == *key {
            return Some(i);
        }
        i = i + 1;
    }
    None
}

/// The value stored under `key`.
pub fn get_setting(settings: &Vec<Setting>, key: &String) -> (r: Option<Value>)
    requires
        keys_distinct(settings@),
    ensures
        r == lookup(settings@, key@),
{
    match find_setting(settings, key) {
        Some(i) => {
            proof {
                lemma_lookup_found(settings@, i as int);
            }
            Some(settings[i].value.clone())
        },
        None => {
            proof {
                lemma_lookup_missing(settings@, key@);
            }
            None
        },
    }
}

/// Stores `value` under `key`, replacing what was there.
pub fn put_setting(settings: &mut Vec<Setting>, key: &String, value: Value)
    requires
        keys_distinct(old(settings)@),
    ensures
        keys_distinct(final(settings)@),
        forall|k: Seq<char>| lookup(final(settings)@, k) == if k == key@ { Some(value) } else { lookup(old(settings)@, k) },
{
    let entry = Setting { key: key.clone(), value };
    match find_setting(settings, key) {
        Some(i) => {
            let ghost before = settings@;
            settings.set(i, entry);
            proof {
                assert(settings@ == before.update(i as int, entry));
                assert forall|k: Seq<char>| lookup(settings@, k) == if k == key@ { Some(value) } else { lookup(before, k) } by {
                    lemma_lookup_update(before, i as int, entry, k);
                }
            }
        },
        None => {
            let ghost before = settings@;
            settings.push(entry);
            proof {
                assert(settings@.drop_last() =~= before);
            }
        },
    }
}

/// The points of the series for `property`; the last series wins.
pub open spec fn points_for(series: Seq<Series>, property: Seq<char>) -> Option<Seq<ControlPoint>>
    decreases series.len(),
{
    if series.len() == 0 {
        None
    } else if series.last().property@ == property {
        Some(series.last().points@)
    } else {
        points_for(series.drop_last(), property)
    }
}

/// Every series is sorted by time.
pub open spec fn series_sorted(series: Seq<Series>) -> bool {
    forall|i: int| 0 <= i < series.len() ==> sorted_by_time(#[trigger] series[i].points@)
}

/// The value under `k` once each series has been evaluated at `now` and its
/// value, if any, stored under its property.
pub open spec fn applied_value(base: Seq<Setting>, series: Seq<Series>, now: int, k: Seq<char>) -> Option<Value>
    decreases series.len(),
{
    if series.len() == 0 {
        lookup(base, k)
    } else if series.last().property@ == k && evaluate_spec(series.last().points@, now) is Some {
        evaluate_spec(series.last().points@, now)
    } else {
        applied_value(base, series.drop_last(), now, k)
    }
}

/// Evaluates every series at `now` and stores each value under its property.
pub fn apply_series(settings: &mut Vec<Setting>, series: &Vec<Series>, now: Timestamp)
    requires
        keys_distinct(old(settings)@),
    ensures
        keys_distinct(final(settings)@),
        forall|k: Seq<char>| lookup(final(settings)@, k) == applied_value(old(settings)@, series@, now as int, k),
{
    let mut i: usize = 0;
    while i < series.len()
        invariant
            i <= series.len(),
            keys_distinct(settings@),
            forall|k: Seq<char>| lookup(settings@, k) == applied_value(old(settings)@, series@.take(i as int), now as int, k),
        decreases series.len() - i,
    {
        assert(series@.take(i as int + 1).drop_last() =~= series@.take(i as int));
        let ghost prev = settings@;
        match evaluate_control_points(&series[i].points, now) {
            Some(v) => {
                put_setting(settings, &series[i].property, v);
            },
            None => {},
        }
        proof {
            assert forall|k: Seq<char>| lookup(settings@, k) == applied_value(old(settings)@, series@.take(i as int + 1), now as int, k) by {
                assert(series@.take(i as int + 1).last() == series@[i as int]);
            }
        }
        i = i + 1;
    }
    proof {
        assert(series@.take(series.len() as int) =~= series@);
    }
}

/// Where the series for `property` is, if there is one.
pub fn find_series(series: &Vec<Series>, property: &String) -> (r: Option<usize>)
    ensures
        r matches Some(i) ==> i < series.len() && series@[i as int].property@ == property@,
        r is None ==> forall|j: int| 0 <= j < series.len() ==> series@[j].property@ != property@,
{
    let mut i: usize = 0;
    while i < series.len()
        invariant
            i <= series.len(),
            forall|j: int| 0 <= j < i ==> series@[j].property@ != property@,
        decreases series.len() - i,
    {
        if series[i].property == *property {
            return Some(i);
        }
        i = i + 1;
    }
    None
}

/// No property has two series.
pub open spec fn properties_distinct(series: Seq<Series>) -> bool {
    forall|i: int, j: int| 0 <= i < j < series.len() ==> series[i].property@ != series[j].property@
}

pub proof fn lemma_points_for_found(series: Seq<Series>, i: int)
    requires
        properties_distinct(series),
        0 <= i < series.len(),
    ensures
        points_for(series, series[i].property@) == Some(series[i].points@),
    decreases series.len(),
{
    if i < series.len() - 1 {
        lemma_points_for_found(series.drop_last(), i);
    }
}

proof fn lemma_points_for_update(series: Seq<Series>, i: int, e: Series, p: Seq<char>)
    requires
        properties_distinct(series),
        0 <= i < series.len(),
        series[i].property@ == e.property@,
    ensures
        points_for(series.update(i, e), p) == if p == e.property@ { Some(e.points@) } else { points_for(series, p) },
    decreases series.len(),
{
    let t = series.update(i, e);
    if i == series.len() - 1 {
        assert(t.drop_last() =~= series.drop_last());
    } else {
        assert(t.drop_last() =~= series.drop_last().update(i, e));
        lemma_points_for_update(series.drop_last(), i, e, p);
    }
}

pub proof fn lemma_points_for_missing(series: Seq<Series>, p: Seq<char>)
    requires
        forall|j: int| 0 <= j < series.len() ==> series[j].property@ != p,
    ensures
        points_for(series, p) is None,
    decreases series.len(),
{
    if series.len() > 0 {
        lemma_points_for_missing(series.drop_last(), p);
    }
}

/// The points of `property` once `cp` is inserted in time order.
pub open spec fn with_point(series: Seq<Series>, property: Seq<char>, cp: ControlPoint) -> Seq<ControlPoint> {
    match points_for(series, property) {
        Some(pts) => sorted_insert(pts, cp),
        None => seq![cp],
    }
}

/// Adds `cp` to the series of `property`, in time order after points with
/// the same time, creating the series if needed.
pub fn add_point(series: &mut Vec<Series>, property: &String, cp: ControlPoint)
    requires
        properties_distinct(old(series)@),
        series_sorted(old(series)@),
    ensures
        properties_distinct(final(series)@),
        series_sorted(final(series)@),
        forall|p: Seq<char>| p != property@ ==> points_for(final(series)@, p) == points_for(old(series)@, p),
        points_for(final(series)@, property@) == Some(with_point(old(series)@, property@, cp)),
{
    match find_series(series, property) {
        Some(i) => {
            proof {
                lemma_points_for_found(series@, i as int);
            }
            let ghost before = series@;
            let mut entry = Series { property: String::new(), points: Vec::new() };
            std::mem::swap(&mut entry, &mut series[i]);
            let ghost pts = entry.points@;
            assert(sorted_by_time(pts));
            insert_sorted(&mut entry.points, cp);
            let ghost e = entry;
            series.set(i, entry);
            proof {
                assert(series@ == before.update(i as int, e));
                assert forall|p: Seq<char>| #[trigger] points_for(series@, p) == if p == e.property@ { Some(e.points@) } else { points_for(before, p) } by {
                    lemma_points_for_update(before, i as int, e, p);
                }
                assert forall|a: int| 0 <= a < series@.len() implies sorted_by_time(#[trigger] series@[a].points@) by {
                    if a != i {
                        assert(series@[a] == before[a]);
                    }
                }
            }
        },
        None => {
            let ghost before = series@;
            let mut points: Vec<ControlPoint> = Vec::new();
            points.push(cp);
            series.push(Series { property: property.clone(), points });
            proof {
                assert(series@.drop_last() =~= before);
                lemma_points_for_missing(before, property@);
                assert forall|a: int| 0 <= a < series@.len() implies sorted_by_time(#[trigger] series@[a].points@) by {
                    if a < before.len() {
                        assert(series@[a] == before[a]);
                    }
                }
            }
        },
    }
}

/// Removes the points named `id` from the series of `property`, which stays
/// even when it becomes empty.
pub fn remove_point(series: &mut Vec<Series>, property: &String, id: &String)
    requires
        properties_distinct(old(series)@),
        series_sorted(old(series)@),
    ensures
        properties_distinct(final(series)@),
        series_sorted(final(series)@),
        forall|p: Seq<char>| p != property@ ==> points_for(final(series)@, p) == points_for(old(series)@, p),
        points_for(final(series)@, property@) == match points_for(old(series)@, property@) {
            Some(pts) => Some(without_id(pts, id@)),
            None => None,
        },
{
    match find_series(series, property) {
        Some(i) => {
            proof {
                lemma_points_for_found(series@, i as int);
            }
            let ghost before = series@;
            let mut entry = Series { property: String::new(), points: Vec::new() };
            std::mem::swap(&mut entry, &mut series[i]);
            assert(sorted_by_time(entry.points@));
            remove_points_with_id(&mut entry.points, id);
            proof {
                crate::control::lemma_without_id_sorted(before[i as int].points@, id@);
            }
            let ghost e = entry;
            series.set(i, entry);
            proof {
                assert forall|a: int| 0 <= a < series@.len() implies sorted_by_time(#[trigger] series@[a].points@) by {
                    if a != i {
                        assert(series@[a] == before[a]);
                    }
                }
                assert(series@ == before.update(i as int, e));
                assert forall|p: Seq<char>| #[trigger] points_for(series@, p) == if p == e.property@ { Some(e.points@) } else { points_for(before, p) } by {
                    lemma_points_for_update(before, i as int, e, p);
                }
            }
        },
        None => {
            proof {
                lemma_points_for_missing(series@, property@);
            }
        },
    }
}

/// A copy of a settings bag.
pub fn clone_settings(v: &Vec<Setting>) -> (r: Vec<Setting>)
    ensures
        r@ == v@,
{
    let mut r: Vec<Setting> = Vec::new();
    let mut i: usize = 0;
    while i < v.len()
        invariant
            i <= v.len(),
            r@ == v@.take(i as int),
        decreases v.len() - i,
    {
        r.push(v[i].clone());
        assert(r@ =~= v@.take(i as int + 1));
        i = i + 1;
    }
    assert(v@.take(v.len() as int) =~= v@);
    r
}

fn clone_points(v: &Vec<ControlPoint>) -> (r: Vec<ControlPoint>)
    ensures
        r@ == v@,
{
    let mut r: Vec<ControlPoint> = Vec::new();
    let mut i: usize = 0;
    while i < v.len()
        invariant
            i <= v.len(),
            r@ == v@.take(i as int),
        decreases v.len() - i,
    {
        r.push(v[i].clone());
        assert(r@ =~= v@.take(i as int + 1));
        i = i + 1;
    }
    assert(v@.take(v.len() as int) =~= v@);
    r
}

/// A copy of a list of series.
pub fn clone_series(v: &Vec<Series>) -> (r: Vec<Series>)
    ensures
        r.len() == v.len(),
        forall|i: int| 0 <= i < v.len() ==> #[trigger] r@[i].property == v@[i].property && r@[i].points@ == v@[i].points@,
{
    let mut r: Vec<Series> = Vec::new();
    let mut i: usize = 0;
    while i < v.len()
        invariant
            i <= v.len(),
            r.len() == i,
            forall|j: int| 0 <= j < i ==> #[trigger] r@[j].property == v@[j].property && r@[j].points@ == v@[j].points@,
        decreases v.len() - i,
    {
        r.push(Series { property: v[i].property.clone(), points: clone_points(&v[i].points) });
        i = i + 1;
    }
    r
}

} // verus!
