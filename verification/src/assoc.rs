//! Vectors of named entries read as maps from names, and vectors of names read as sets.
use vstd::prelude::*;
use crate::text::same_text;

verus! {

pub open spec fn distinct_keys<V>(s: Seq<(String, V)>) -> bool {
    forall|i: int, j: int| 0 <= i < s.len() && 0 <= j < s.len() && i != j ==> #[trigger] s[i].0@ != #[trigger] s[j].0@
}

pub open spec fn has_key<V>(s: Seq<(String, V)>, k: Seq<char>) -> bool {
    exists|i: int| 0 <= i < s.len() && #[trigger] s[i].0@ == k
}

pub open spec fn index_of_key<V>(s: Seq<(String, V)>, k: Seq<char>) -> int {
    choose|i: int| 0 <= i < s.len() && #[trigger] s[i].0@ == k
}

/// The entries read as a map from each name to `f` of its value.
pub open spec fn assoc_view<V, W>(s: Seq<(String, V)>, f: spec_fn(V) -> W) -> Map<Seq<char>, W> {
    Map::new(|k: Seq<char>| has_key(s, k), |k: Seq<char>| f(s[index_of_key(s, k)].1))
}

pub proof fn lemma_assoc_at<V, W>(s: Seq<(String, V)>, f: spec_fn(V) -> W, i: int)
    requires
        distinct_keys(s),
        0 <= i < s.len(),
    ensures
        assoc_view(s, f).contains_key(s[i].0@),
        assoc_view(s, f)[s[i].0@] == f(s[i].1),
{
    assert(has_key(s, s[i].0@));
    let j = index_of_key(s, s[i].0@);
    assert(s[j].0@ == s[i].0@);
}

pub proof fn lemma_assoc_push<V, W>(s: Seq<(String, V)>, f: spec_fn(V) -> W, k: String, v: V)
    requires
        distinct_keys(s),
        !has_key(s, k@),
    ensures
        distinct_keys(s.push((k, v))),
        assoc_view(s.push((k, v)), f) == assoc_view(s, f).insert(k@, f(v)),
{
    let t = s.push((k, v));
    assert forall|i: int, j: int| 0 <= i < t.len() && 0 <= j < t.len() && i != j implies #[trigger] t[i].0@ != #[trigger] t[j].0@ by {
        if i < s.len() && j < s.len() {
            assert(t[i] == s[i] && t[j] == s[j]);
        } else if i < s.len() {
            assert(t[i] == s[i]);
        } else {
            assert(t[j] == s[j]);
        }
    }
    let a = assoc_view(t, f);
    let b = assoc_view(s, f).insert(k@, f(v));
    assert forall|q: Seq<char>| a.contains_key(q) <==> b.contains_key(q) by {
        if has_key(t, q) {
            let i = choose|i: int| 0 <= i < t.len() && #[trigger] t[i].0@ == q;
            if i < s.len() {
                assert(t[i] == s[i]);
                assert(has_key(s, q));
            }
        }
        if has_key(s, q) {
            let i = choose|i: int| 0 <= i < s.len() && #[trigger] s[i].0@ == q;
            assert(t[i] == s[i]);
            assert(has_key(t, q));
        }
        if q == k@ {
            assert(t[s.len() as int].0@ == q);
        }
    }
    assert forall|q: Seq<char>| a.contains_key(q) implies a[q] == b[q] by {
        if q == k@ {
            lemma_assoc_at(t, f, s.len() as int);
        } else {
            let i = choose|i: int| 0 <= i < t.len() && #[trigger] t[i].0@ == q;
            assert(i < s.len());
            assert(t[i] == s[i]);
            lemma_assoc_at(t, f, i);
            lemma_assoc_at(s, f, i);
        }
    }
    assert(a =~= b);
}

pub proof fn lemma_assoc_remove<V, W>(s: Seq<(String, V)>, f: spec_fn(V) -> W, i: int)
    requires
        distinct_keys(s),
        0 <= i < s.len(),
    ensures
        distinct_keys(s.remove(i)),
        assoc_view(s.remove(i), f) == assoc_view(s, f).remove(s[i].0@),
{
    let t = s.remove(i);
    let k = s[i].0@;
    assert forall|a: int, b: int| 0 <= a < t.len() && 0 <= b < t.len() && a != b implies #[trigger] t[a].0@ != #[trigger] t[b].0@ by {
        let a2 = if a < i { a } else { a + 1 };
        let b2 = if b < i { b } else { b + 1 };
        assert(t[a] == s[a2] && t[b] == s[b2]);
    }
    let x = assoc_view(t, f);
    let y = assoc_view(s, f).remove(k);
    assert forall|q: Seq<char>| x.contains_key(q) <==> y.contains_key(q) by {
        if has_key(t, q) {
            let a = choose|a: int| 0 <= a < t.len() && #[trigger] t[a].0@ == q;
            let a2 = if a < i { a } else { a + 1 };
            assert(t[a] == s[a2]);
            assert(has_key(s, q));
            assert(q != k);
        }
        if has_key(s, q) && q != k {
            let a = choose|a: int| 0 <= a < s.len() && #[trigger] s[a].0@ == q;
            assert(a != i);
            let a2 = if a < i { a } else { a - 1 };
            assert(t[a2] == s[a]);
            assert(has_key(t, q));
        }
    }
    assert forall|q: Seq<char>| x.contains_key(q) implies x[q] == y[q] by {
        let a = choose|a: int| 0 <= a < t.len() && #[trigger] t[a].0@ == q;
        let a2 = if a < i { a } else { a + 1 };
        assert(t[a] == s[a2]);
        lemma_assoc_at(t, f, a);
        lemma_assoc_at(s, f, a2);
    }
    assert(x =~= y);
}

/// Index of the entry named `k`, if any.
pub fn find_key<V>(s: &Vec<(String, V)>, k: &str) -> (r: Option<usize>)
    ensures
        match r {
            Some(i) => i < s@.len() && s@[i as int].0@ == k@,
            None => !has_key(s@, k@),
        },
{
    let mut i: usize = 0;
    while i < s.len()
        invariant
            i <= s.len(),
            forall|j: int| 0 <= j < i ==> s@[j].0@ != k@,
        decreases s.len() - i,
    {
        if same_text(s[i].0.as_str(), k) {
            return Some(i);
        }
        i = i + 1;
    }
    None
}

pub open spec fn distinct_names(s: Seq<String>) -> bool {
    forall|i: int, j: int| 0 <= i < s.len() && 0 <= j < s.len() && i != j ==> #[trigger] s[i]@ != #[trigger] s[j]@
}

/// The names read as a set.
pub open spec fn name_set(s: Seq<String>) -> Set<Seq<char>> {
    Set::new(|k: Seq<char>| exists|i: int| 0 <= i < s.len() && #[trigger] s[i]@ == k)
}

pub proof fn lemma_names_push(s: Seq<String>, k: String)
    requires
        distinct_names(s),
        !name_set(s).contains(k@),
    ensures
        distinct_names(s.push(k)),
        name_set(s.push(k)) == name_set(s).insert(k@),
{
    let t = s.push(k);
    assert forall|i: int, j: int| 0 <= i < t.len() && 0 <= j < t.len() && i != j implies #[trigger] t[i]@ != #[trigger] t[j]@ by {
        if i < s.len() && j < s.len() {
            assert(t[i] == s[i] && t[j] == s[j]);
        } else if i < s.len() {
            assert(t[i] == s[i]);
            assert(name_set(s).contains(s[i]@));
        } else {
            assert(t[j] == s[j]);
            assert(name_set(s).contains(s[j]@));
        }
    }
    assert forall|q: Seq<char>| name_set(t).contains(q) <==> name_set(s).insert(k@).contains(q) by {
        if name_set(t).contains(q) {
            let i = choose|i: int| 0 <= i < t.len() && #[trigger] t[i]@ == q;
            if i < s.len() {
                assert(t[i] == s[i]);
            }
        }
        if name_set(s).contains(q) {
            let i = choose|i: int| 0 <= i < s.len() && #[trigger] s[i]@ == q;
            assert(t[i] == s[i]);
        }
        if q == k@ {
            assert(t[s.len() as int]@ == q);
        }
    }
    assert(name_set(t) =~= name_set(s).insert(k@));
}

pub proof fn lemma_names_remove(s: Seq<String>, i: int)
    requires
        distinct_names(s),
        0 <= i < s.len(),
    ensures
        distinct_names(s.remove(i)),
        name_set(s.remove(i)) == name_set(s).remove(s[i]@),
{
    let t = s.remove(i);
    assert forall|a: int, b: int| 0 <= a < t.len() && 0 <= b < t.len() && a != b implies #[trigger] t[a]@ != #[trigger] t[b]@ by {
        let a2 = if a < i { a } else { a + 1 };
        let b2 = if b < i { b } else { b + 1 };
        assert(t[a] == s[a2] && t[b] == s[b2]);
    }
    assert forall|q: Seq<char>| name_set(t).contains(q) <==> name_set(s).remove(s[i]@).contains(q) by {
        if name_set(t).contains(q) {
            let a = choose|a: int| 0 <= a < t.len() && #[trigger] t[a]@ == q;
            let a2 = if a < i { a } else { a + 1 };
            assert(t[a] == s[a2]);
        }
        if name_set(s).contains(q) && q != s[i]@ {
            let a = choose|a: int| 0 <= a < s.len() && #[trigger] s[a]@ == q;
            assert(a != i);
            let a2 = if a < i { a } else { a - 1 };
            assert(t[a2] == s[a]);
        }
    }
    assert(name_set(t) =~= name_set(s).remove(s[i]@));
}

/// Index of the name `k`, if present.
pub fn find_name(s: &Vec<String>, k: &str) -> (r: Option<usize>)
    ensures
        match r {
            Some(i) => i < s@.len() && s@[i as int]@ == k@,
            None => !name_set(s@).contains(k@),
        },
{
    let mut i: usize = 0;
    while i < s.len()
        invariant
            i <= s.len(),
            forall|j: int| 0 <= j < i ==> s@[j]@ != k@,
        decreases s.len() - i,
    {
        if same_text(s[i].as_str(), k) {
            return Some(i);
        }
        i = i + 1;
    }
    None
}

}
