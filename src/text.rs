//! Text helpers: comparisons with literals, message building, and lists of
//! distinct ids.
use vstd::prelude::*;

verus! {

/// Whether `s` reads as `lit`.
pub fn same_text(s: &String, lit: &str) -> (r: bool)
    ensures
        r == (s@ == lit@),
{
    let t = String::from_str(lit);
    *s == t
}

/// `a` followed by `b`.
pub fn join2(a: &str, b: &str) -> (r: String)
    ensures
        r@ == a@ + b@,
{
    let mut r = String::from_str(a);
    r.append(b);
    r
}

/// `a`, `b` and `c` one after the other.
pub fn join3(a: &str, b: &str, c: &str) -> (r: String)
    ensures
        r@ == a@ + b@ + c@,
{
    let mut r = String::from_str(a);
    r.append(b);
    r.append(c);
    r
}

/// `a`, `b`, `c` and `d` one after the other.
pub fn join4(a: &str, b: &str, c: &str, d: &str) -> (r: String)
    ensures
        r@ == a@ + b@ + c@ + d@,
{
    let mut r = String::from_str(a);
    r.append(b);
    r.append(c);
    r.append(d);
    r
}

/// The texts of a list of strings.
pub open spec fn texts(v: Seq<String>) -> Seq<Seq<char>> {
    v.map_values(|s: String| s@)
}

/// Adds a string that reads as `lit` at the end.
pub fn push_text(v: &mut Vec<String>, lit: &str)
    ensures
        texts(final(v)@) == texts(old(v)@).push(lit@),
{
    v.push(String::from_str(lit));
    assert(texts(v@) =~= texts(old(v)@).push(lit@));
}

/// `s` with `x` added at the end when `cond` holds.
pub open spec fn push_if(s: Seq<Seq<char>>, cond: bool, x: Seq<char>) -> Seq<Seq<char>> {
    if cond {
        s.push(x)
    } else {
        s
    }
}

/// Adds a string that reads as `lit` at the end when `cond` holds.
pub fn push_text_if(v: &mut Vec<String>, cond: bool, lit: &str)
    ensures
        texts(final(v)@) == push_if(texts(old(v)@), cond, lit@),
{
    if cond {
        push_text(v, lit);
    }
}

/// No text occurs twice.
pub open spec fn distinct(s: Seq<Seq<char>>) -> bool {
    forall|i: int, j: int| 0 <= i < j < s.len() ==> s[i] != s[j]
}

/// Whether some string of `v` reads as `id`.
pub fn contains_text(v: &Vec<String>, id: &String) -> (r: bool)
    ensures
        r == texts(v@).contains(id@),
{
    let mut i: usize = 0;
    while i < v.len()
        invariant
            i <= v.len(),
            forall|j: int| 0 <= j < i ==> v@[j]@ != id@,
        decreases v.len() - i,
    {
        if v[i] == *id {
            assert(texts(v@)[i as int] == id@);
            return true;
        }
        i = i + 1;
    }
    proof {
        if texts(v@).contains(id@) {
            let k = choose|k: int| 0 <= k < texts(v@).len() && texts(v@)[k] == id@;
            assert(v@[k]@ == id@);
        }
    }
    false
}

/// The clone of a list of strings.
pub fn clone_texts(v: &Vec<String>) -> (r: Vec<String>)
    ensures
        r@ == v@,
{
    let mut r: Vec<String> = Vec::new();
    let mut i: usize = 0;
    while i < v.len()
        invariant
            i <= v.len(),
            r@ == v@.take(i as int),
        decreases v.len() - i,
    {
        r.push(v[i].clone());
        assert(r@ =~= v@.take(i as int + 1));
        i = i + 1;
    }
    assert(v@.take(v.len() as int) =~= v@);
    r
}

/// Adds `id` at the end unless it is there already.
pub fn insert_text(v: &mut Vec<String>, id: &String)
    ensures
        texts(old(v)@).contains(id@) ==> final(v)@ == old(v)@,
        !texts(old(v)@).contains(id@) ==> final(v)@ == old(v)@.push(*id),
        distinct(texts(old(v)@)) ==> distinct(texts(final(v)@)),
        texts(final(v)@) == if texts(old(v)@).contains(id@) { texts(old(v)@) } else { texts(old(v)@).push(id@) },
{
    if !contains_text(v, id) {
        let c = id.clone();
        v.push(c);
        assert(texts(v@) =~= texts(old(v)@).push(id@));
    }
}

/// The list without the strings that read as `id`.
pub open spec fn without_text(s: Seq<Seq<char>>, id: Seq<char>) -> Seq<Seq<char>> {
    s.filter(|t: Seq<char>| t != id)
}

/// Removes every string that reads as `id`, keeping the order of the others.
pub fn remove_text(v: &mut Vec<String>, id: &String)
    ensures
        texts(final(v)@) == without_text(texts(old(v)@), id@),
        distinct(texts(old(v)@)) ==> distinct(texts(final(v)@)),
{
    let mut kept: Vec<String> = Vec::new();
    let mut i: usize = 0;
    while i < v.len()
        invariant
            i <= v.len(),
            texts(kept@) == without_text(texts(v@.take(i as int)), id@),
            forall|a: int| #![trigger kept@[a]] 0 <= a < kept.len() ==> exists|b: int| 0 <= b < i && kept@[a]@ == #[trigger] v@[b]@,
            distinct(texts(v@)) ==> distinct(texts(kept@)),
            distinct(texts(v@)) ==> forall|a: int, b: int| 0 <= a < kept.len() && i <= b < v.len() ==> kept@[a]@ != v@[b]@,
        decreases v.len() - i,
    {
        let ghost pre = texts(v@.take(i as int));
        assert(texts(v@.take(i as int + 1)) =~= pre.push(v@[i as int]@));
        reveal(Seq::filter);
        assert(pre.push(v@[i as int]@).drop_last() =~= pre);
        if v[i] != *id {
            let c = v[i].clone();
            kept.push(c);
            assert(texts(kept@) =~= without_text(pre, id@).push(v@[i as int]@));
        }
        proof {
            if distinct(texts(v@)) {
                assert forall|a: int, b: int| 0 <= a < kept.len() && i + 1 <= b < v.len() implies kept@[a]@ != v@[b]@ by {
                    let c = choose|c: int| 0 <= c < i + 1 && kept@[a]@ == #[trigger] v@[c]@;
                    assert(texts(v@)[c] == v@[c]@);
                    assert(texts(v@)[b] == v@[b]@);
                }
            }
        }
        i = i + 1;
    }
    assert(v@.take(v.len() as int) =~= v@);
    *v = kept;
}

} // verus!
