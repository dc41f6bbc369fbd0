//! Tables keyed by text and kept in the byte order of their keys, as an
//! ordered map of strings keeps them.
use vstd::prelude::*;

use crate::text::{chars_eq, chars_lt, chars_of, lemma_text_lt_total, lemma_text_lt_transitive, lemma_text_lt_irreflexive, text_lt};

verus! {

/// The number of keys that come before `k`: where `k` is, or would be inserted.
pub open spec fn key_pos(keys: Seq<Seq<char>>, k: Seq<char>) -> nat
    decreases keys.len(),
{
    if keys.len() > 0 && text_lt(keys[0], k) {
        1 + key_pos(keys.drop_first(), k)
    } else {
        0
    }
}

/// Keys in strictly increasing byte order.
pub open spec fn keys_sorted(keys: Seq<Seq<char>>) -> bool {
    forall|i: int, j: int| 0 <= i < j < keys.len() ==> text_lt(keys[i], keys[j])
}

pub open spec fn keys_of<V>(s: Seq<(Seq<char>, V)>) -> Seq<Seq<char>> {
    s.map_values(|p: (Seq<char>, V)| p.0)
}

/// The table `s` with `v` added to the value of `k` (a new entry `k: v` when
/// `k` is missing): `*map.entry(k).or_insert(0) += v`.
pub open spec fn assoc_add(s: Seq<(Seq<char>, int)>, k: Seq<char>, v: int) -> Seq<
    (Seq<char>, int),
> {
    let p = key_pos(keys_of(s), k) as int;
    if p < s.len() && s[p].0 == k {
        s.update(p, (k, s[p].1 + v))
    } else {
        s.insert(p, (k, v))
    }
}

/// The table `s` with the entry `k: v` added when `k` is missing:
/// `map.entry(k).or_insert(v)`.
pub open spec fn assoc_keep(s: Seq<(Seq<char>, Seq<char>)>, k: Seq<char>, v: Seq<char>) -> Seq<
    (Seq<char>, Seq<char>),
> {
    let p = key_pos(keys_of(s), k) as int;
    if p < s.len() && s[p].0 == k {
        s
    } else {
        s.insert(p, (k, v))
    }
}

/// The value of the first entry for `k`, if any.
pub open spec fn assoc_get<V>(s: Seq<(Seq<char>, V)>, k: Seq<char>) -> Option<V>
    decreases s.len(),
{
    if s.len() == 0 {
        None
    } else if s[0].0 == k {
        Some(s[0].1)
    } else {
        assoc_get(s.drop_first(), k)
    }
}

/// The view of a table of minutes.
pub open spec fn minutes_table(s: Seq<(String, i64)>) -> Seq<(Seq<char>, int)> {
    s.map_values(|p: (String, i64)| (p.0@, p.1 as int))
}

/// The view of a table of names.
pub open spec fn names_table(s: Seq<(String, String)>) -> Seq<(Seq<char>, Seq<char>)> {
    s.map_values(|p: (String, String)| (p.0@, p.1@))
}

/// All values lie between 0 and `bound`.
pub open spec fn values_within(s: Seq<(Seq<char>, int)>, bound: int) -> bool {
    forall|i: int| 0 <= i < s.len() ==> 0 <= #[trigger] s[i].1 <= bound
}

pub proof fn lemma_key_pos_bound(keys: Seq<Seq<char>>, k: Seq<char>)
    ensures
        key_pos(keys, k) <= keys.len(),
    decreases keys.len(),
{
    if keys.len() > 0 && text_lt(keys[0], k) {
        lemma_key_pos_bound(keys.drop_first(), k);
    }
}

/// In ordered keys, those before `key_pos` come before `k` and the others do not.
pub proof fn lemma_key_pos_sorted(keys: Seq<Seq<char>>, k: Seq<char>)
    requires
        keys_sorted(keys),
    ensures
        key_pos(keys, k) <= keys.len(),
        forall|i: int| 0 <= i < key_pos(keys, k) ==> text_lt(#[trigger] keys[i], k),
        forall|i: int| key_pos(keys, k) <= i < keys.len() ==> !text_lt(#[trigger] keys[i], k),
    decreases keys.len(),
{
    if keys.len() > 0 && text_lt(keys[0], k) {
        let t = keys.drop_first();
        assert(keys_sorted(t));
        lemma_key_pos_sorted(t, k);
        assert forall|i: int| 0 <= i < key_pos(keys, k) implies text_lt(#[trigger] keys[i], k) by {
            if i > 0 {
                assert(keys[i] == t[i - 1]);
            }
        }
        assert forall|i: int| key_pos(keys, k) <= i < keys.len() implies !text_lt(
            #[trigger] keys[i],
            k,
        ) by {
            assert(keys[i] == t[i - 1]);
        }
    } else if keys.len() > 0 {
        assert forall|i: int| 0 <= i < keys.len() implies !text_lt(#[trigger] keys[i], k) by {
            if i > 0 && text_lt(keys[i], k) {
                assert(text_lt(keys[0], keys[i]));
                lemma_text_lt_transitive(keys[0], keys[i], k);
            }
        }
    }
}

proof fn lemma_insert_keys_sorted<V>(s: Seq<(Seq<char>, V)>, k: Seq<char>, v: V)
    requires
        keys_sorted(keys_of(s)),
        !(key_pos(keys_of(s), k) < s.len() && s[key_pos(keys_of(s), k) as int].0 == k),
    ensures
        keys_sorted(keys_of(s.insert(key_pos(keys_of(s), k) as int, (k, v)))),
{
    let keys = keys_of(s);
    lemma_key_pos_sorted(keys, k);
    let p = key_pos(keys, k) as int;
    let r = s.insert(p, (k, v));
    s.insert_ensures(p, (k, v));
    let rk = keys_of(r);
    if p < s.len() {
        assert(keys[p] == s[p].0);
        assert(!text_lt(keys[p], k));
        lemma_text_lt_total(keys[p], k);
        assert(text_lt(k, keys[p]));
    }
    assert forall|i: int, j: int| 0 <= i < j < rk.len() implies text_lt(rk[i], rk[j]) by {
        if j < p {
            assert(rk[i] == keys[i] && rk[j] == keys[j]);
        } else if j == p {
            assert(rk[i] == keys[i]);
            assert(text_lt(keys[i], k));
        } else if i < p {
            assert(rk[i] == keys[i] && rk[j] == keys[j - 1]);
            assert(text_lt(keys[i], k));
            if j - 1 == p {
                lemma_text_lt_transitive(keys[i], k, keys[p]);
            } else {
                assert(text_lt(k, keys[p]));
                assert(text_lt(keys[p], keys[j - 1]));
                lemma_text_lt_transitive(k, keys[p], keys[j - 1]);
                lemma_text_lt_transitive(keys[i], k, keys[j - 1]);
            }
        } else if i == p {
            assert(rk[j] == keys[j - 1]);
            if j - 1 > p {
                assert(text_lt(keys[p], keys[j - 1]));
                lemma_text_lt_transitive(k, keys[p], keys[j - 1]);
            }
        } else {
            assert(rk[i] == keys[i - 1] && rk[j] == keys[j - 1]);
        }
    }
}

/// Adding to a table keeps its keys ordered.
pub proof fn lemma_assoc_add_sorted(s: Seq<(Seq<char>, int)>, k: Seq<char>, v: int)
    requires
        keys_sorted(keys_of(s)),
    ensures
        keys_sorted(keys_of(assoc_add(s, k, v))),
{
    let p = key_pos(keys_of(s), k) as int;
    if p < s.len() && s[p].0 == k {
        assert(keys_of(assoc_add(s, k, v)) =~= keys_of(s));
    } else {
        lemma_insert_keys_sorted(s, k, v);
    }
}

/// Keeping a first value keeps the keys ordered.
pub proof fn lemma_assoc_keep_sorted(s: Seq<(Seq<char>, Seq<char>)>, k: Seq<char>, v: Seq<char>)
    requires
        keys_sorted(keys_of(s)),
    ensures
        keys_sorted(keys_of(assoc_keep(s, k, v))),
{
    let p = key_pos(keys_of(s), k) as int;
    if !(p < s.len() && s[p].0 == k) {
        lemma_insert_keys_sorted(s, k, v);
    }
}

/// Adding `v >= 0` to a table whose values lie in `[0, bound]` leaves them in
/// `[0, bound + v]`.
pub proof fn lemma_assoc_add_within(s: Seq<(Seq<char>, int)>, k: Seq<char>, v: int, bound: int)
    requires
        values_within(s, bound),
        0 <= v,
        0 <= bound,
    ensures
        values_within(assoc_add(s, k, v), bound + v),
{
    lemma_key_pos_bound(keys_of(s), k);
    let p = key_pos(keys_of(s), k) as int;
    let r = assoc_add(s, k, v);
    if !(p < s.len() && s[p].0 == k) {
        s.insert_ensures(p, (k, v));
        assert forall|i: int| 0 <= i < r.len() implies 0 <= #[trigger] r[i].1 <= bound + v by {
            if i < p {
                assert(r[i] == s[i]);
            } else if i > p {
                assert(r[i] == s[i - 1]);
            }
        }
    }
}

/// The keys after adding to a table: those it had, and the key added.
pub proof fn lemma_assoc_add_keys(s: Seq<(Seq<char>, int)>, k: Seq<char>, v: int)
    ensures
        forall|x: Seq<char>|
            keys_of(assoc_add(s, k, v)).contains(x) == (keys_of(s).contains(x) || x == k),
{
    lemma_key_pos_bound(keys_of(s), k);
    let p = key_pos(keys_of(s), k) as int;
    let r = assoc_add(s, k, v);
    if p < s.len() && s[p].0 == k {
        assert(keys_of(r) =~= keys_of(s));
        assert(keys_of(s)[p] == k);
    } else {
        assert(keys_of(r) =~= keys_of(s).insert(p, k));
        lemma_insert_contains(keys_of(s), p, k);
    }
}

/// The keys after keeping a first value: those it had, and the key kept.
pub proof fn lemma_assoc_keep_keys(s: Seq<(Seq<char>, Seq<char>)>, k: Seq<char>, v: Seq<char>)
    ensures
        forall|x: Seq<char>|
            keys_of(assoc_keep(s, k, v)).contains(x) == (keys_of(s).contains(x) || x == k),
{
    lemma_key_pos_bound(keys_of(s), k);
    let p = key_pos(keys_of(s), k) as int;
    let r = assoc_keep(s, k, v);
    if p < s.len() && s[p].0 == k {
        assert(keys_of(s)[p] == k);
    } else {
        assert(keys_of(r) =~= keys_of(s).insert(p, k));
        lemma_insert_contains(keys_of(s), p, k);
    }
}

proof fn lemma_insert_contains(keys: Seq<Seq<char>>, p: int, k: Seq<char>)
    requires
        0 <= p <= keys.len(),
    ensures
        forall|x: Seq<char>| keys.insert(p, k).contains(x) == (keys.contains(x) || x == k),
{
    let r = keys.insert(p, k);
    keys.insert_ensures(p, k);
    assert forall|x: Seq<char>| r.contains(x) == (keys.contains(x) || x == k) by {
        if r.contains(x) {
            let i = choose|i: int| 0 <= i < r.len() && r[i] == x;
            if i < p {
                assert(keys[i] == x);
            } else if i > p {
                assert(keys[i - 1] == x);
            }
        }
        if keys.contains(x) {
            let i = choose|i: int| 0 <= i < keys.len() && keys[i] == x;
            if i < p {
                assert(r[i] == x);
            } else {
                assert(r[i + 1] == x);
            }
        }
        if x == k {
            assert(r[p] == x);
        }
    }
}

/// No value of the table holds the character `c`.
pub open spec fn values_free_of(s: Seq<(Seq<char>, Seq<char>)>, c: char) -> bool {
    forall|j: int, i: int| 0 <= j < s.len() && 0 <= i < s[j].1.len() ==> s[j].1[i] != c
}

/// Keeping a value free of `c` keeps every value free of `c`.
pub proof fn lemma_assoc_keep_free(
    s: Seq<(Seq<char>, Seq<char>)>,
    k: Seq<char>,
    v: Seq<char>,
    c: char,
)
    requires
        values_free_of(s, c),
        forall|i: int| 0 <= i < v.len() ==> v[i] != c,
    ensures
        values_free_of(assoc_keep(s, k, v), c),
{
    lemma_key_pos_bound(keys_of(s), k);
    let p = key_pos(keys_of(s), k) as int;
    let r = assoc_keep(s, k, v);
    if !(p < s.len() && s[p].0 == k) {
        s.insert_ensures(p, (k, v));
        assert forall|j: int, i: int| 0 <= j < r.len() && 0 <= i < r[j].1.len() implies r[j].1[i]
            != c by {
            if j < p {
                assert(r[j] == s[j]);
            } else if j > p {
                assert(r[j] == s[j - 1]);
            }
        }
    }
}

/// A key of the table is found, with one of the table's values.
pub proof fn lemma_assoc_get_found<V>(s: Seq<(Seq<char>, V)>, k: Seq<char>)
    requires
        keys_of(s).contains(k),
    ensures
        assoc_get(s, k) is Some,
        exists|j: int| 0 <= j < s.len() && s[j].1 == assoc_get(s, k)->0,
    decreases s.len(),
{
    let i = choose|i: int| 0 <= i < keys_of(s).len() && keys_of(s)[i] == k;
    if s[0].0 == k {
        assert(s[0].1 == assoc_get(s, k)->0);
    } else {
        let t = s.drop_first();
        assert(i > 0);
        assert(keys_of(t)[i - 1] == k);
        lemma_assoc_get_found(t, k);
        let j = choose|j: int| 0 <= j < t.len() && t[j].1 == assoc_get(t, k)->0;
        assert(s[j + 1] == t[j]);
    }
}

/// Looking up a key in a table of minutes finds the same entry as in its view.
pub proof fn lemma_assoc_get_minutes(s: Seq<(String, i64)>, k: Seq<char>)
    ensures
        match assoc_get(s.map_values(|p: (String, i64)| (p.0@, p.1)), k) {
            Some(m) => assoc_get(minutes_table(s), k) == Some(m as int),
            None => assoc_get(minutes_table(s), k) is None,
        },
    decreases s.len(),
{
    let a = s.map_values(|p: (String, i64)| (p.0@, p.1));
    let b = minutes_table(s);
    if s.len() > 0 {
        lemma_assoc_get_minutes(s.drop_first(), k);
        assert(a.drop_first() =~= s.drop_first().map_values(|p: (String, i64)| (p.0@, p.1)));
        assert(b.drop_first() =~= minutes_table(s.drop_first()));
    }
}

/// A value found in a table is one of its values.
pub proof fn lemma_assoc_get_value<V>(s: Seq<(Seq<char>, V)>, k: Seq<char>)
    ensures
        assoc_get(s, k) matches Some(v) ==> exists|j: int| 0 <= j < s.len() && s[j].1 == v,
    decreases s.len(),
{
    if s.len() > 0 && s[0].0 != k {
        lemma_assoc_get_value(s.drop_first(), k);
        if assoc_get(s, k) is Some {
            let j = choose|j: int|
                0 <= j < s.drop_first().len() && s.drop_first()[j].1 == assoc_get(s, k)->0;
            assert(s[j + 1] == s.drop_first()[j]);
        }
    }
}

fn key_position<V>(s: &Vec<(String, V)>, k: &Vec<char>) -> (r: (usize, bool))
    ensures
        r.0 == key_pos(keys_of(s@.map_values(|p: (String, V)| (p.0@, p.1))), k@),
        r.1 == (r.0 < s.len() && s@[r.0 as int].0@ == k@),
{
    let ghost keys = keys_of(s@.map_values(|p: (String, V)| (p.0@, p.1)));
    assert(keys.len() == s.len());
    let mut i: usize = 0;
    assert(keys.skip(0) =~= keys);
    while i < s.len()
        invariant
            i <= s.len(),
            keys.len() == s.len(),
            keys == keys_of(s@.map_values(|p: (String, V)| (p.0@, p.1))),
            key_pos(keys, k@) == i + key_pos(keys.skip(i as int), k@),
        decreases s.len() - i,
    {
        let c = chars_of(s[i].0.as_str());
        assert(keys[i as int] == c@);
        assert(keys.skip(i as int)[0] == keys[i as int]);
        if !chars_lt(&c, k) {
            let same = chars_eq(&c, k);
            return (i, same);
        }
        assert(keys.skip(i as int).drop_first() =~= keys.skip(i + 1));
        i = i + 1;
    }
    assert(keys.skip(i as int) =~= Seq::<Seq<char>>::empty());
    (i, false)
}

/// Adds `v` minutes to the entry for the key `k`, creating it when missing.
pub(crate) fn assoc_add_minutes(
    s: &mut Vec<(String, i64)>,
    k: &Vec<char>,
    v: i64,
    Ghost(bound): Ghost<int>,
)
    requires
        0 <= v,
        values_within(minutes_table(old(s)@), bound),
        bound + v <= i64::MAX,
    ensures
        minutes_table(final(s)@) == assoc_add(minutes_table(old(s)@), k@, v as int),
{
    let ghost old_t = minutes_table(s@);
    let (p, found) = key_position(s, k);
    assert(keys_of(s@.map_values(|q: (String, i64)| (q.0@, q.1))) =~= keys_of(old_t));
    proof {
        lemma_key_pos_bound(keys_of(old_t), k@);
    }
    if found {
        assert(old_t[p as int].1 == s@[p as int].1);
        let cur = s[p].1;
        let key = s[p].0.clone();
        s.set(p, (key, cur + v));
        assert(minutes_table(s@) =~= assoc_add(old_t, k@, v as int));
    } else {
        let mut key = String::new();
        crate::text::push_chars(&mut key, k, 0, k.len());
        assert(k@.subrange(0, k@.len() as int) =~= k@);
        s.insert(p, (key, v));
        assert(minutes_table(s@) =~= assoc_add(old_t, k@, v as int));
    }
}

/// Records `name` for the key `k` unless the key already has one.
pub fn assoc_keep_name(s: &mut Vec<(String, String)>, k: &Vec<char>, name: &String)
    ensures
        names_table(final(s)@) == assoc_keep(names_table(old(s)@), k@, name@),
{
    let ghost old_t = names_table(s@);
    let (p, found) = key_position(s, k);
    assert(keys_of(s@.map_values(|q: (String, String)| (q.0@, q.1))) =~= keys_of(old_t));
    proof {
        lemma_key_pos_bound(keys_of(old_t), k@);
    }
    if !found {
        let mut key = String::new();
        crate::text::push_chars(&mut key, k, 0, k.len());
        assert(k@.subrange(0, k@.len() as int) =~= k@);
        s.insert(p, (key, name.clone()));
        assert(names_table(s@) =~= assoc_keep(old_t, k@, name@));
    }
}

/// The value recorded for `k`, if any.
pub fn assoc_lookup<V: Copy>(s: &Vec<(String, V)>, k: &Vec<char>) -> (r: Option<V>)
    ensures
        r == assoc_get(s@.map_values(|p: (String, V)| (p.0@, p.1)), k@),
{
    let ghost t = s@.map_values(|p: (String, V)| (p.0@, p.1));
    let mut i: usize = 0;
    assert(t.skip(0) =~= t);
    while i < s.len()
        invariant
            i <= s.len(),
            t.len() == s.len(),
            t == s@.map_values(|p: (String, V)| (p.0@, p.1)),
            assoc_get(t, k@) == assoc_get(t.skip(i as int), k@),
        decreases s.len() - i,
    {
        let c = chars_of(s[i].0.as_str());
        assert(t.skip(i as int)[0] == t[i as int]);
        if chars_eq(&c, k) {
            return Some(s[i].1);
        }
        assert(t.skip(i as int).drop_first() =~= t.skip(i + 1));
        i = i + 1;
    }
    None
}

/// The name recorded for `k`, if any.
pub fn assoc_lookup_name(s: &Vec<(String, String)>, k: &Vec<char>) -> (r: Option<String>)
    ensures
        match assoc_get(names_table(s@), k@) {
            Some(n) => r matches Some(x) && x@ == n,
            None => r is None,
        },
{
    let ghost t = names_table(s@);
    let mut i: usize = 0;
    assert(t.skip(0) =~= t);
    while i < s.len()
        invariant
            i <= s.len(),
            t.len() == s.len(),
            t == names_table(s@),
            assoc_get(t, k@) == assoc_get(t.skip(i as int), k@),
        decreases s.len() - i,
    {
        let c = chars_of(s[i].0.as_str());
        assert(t.skip(i as int)[0] == t[i as int]);
        if chars_eq(&c, k) {
            return Some(s[i].1.clone());
        }
        assert(t.skip(i as int).drop_first() =~= t.skip(i + 1));
        i = i + 1;
    }
    None
}

/// All values are at least zero.
pub open spec fn values_nonneg(s: Seq<(Seq<char>, int)>) -> bool {
    forall|i: int| 0 <= i < s.len() ==> 0 <= #[trigger] s[i].1
}

/// Adding `v >= 0` keeps every value at least zero.
pub proof fn lemma_assoc_add_nonneg(s: Seq<(Seq<char>, int)>, k: Seq<char>, v: int)
    requires
        values_nonneg(s),
        0 <= v,
    ensures
        values_nonneg(assoc_add(s, k, v)),
{
    lemma_key_pos_bound(keys_of(s), k);
    let p = key_pos(keys_of(s), k) as int;
    let r = assoc_add(s, k, v);
    if !(p < s.len() && s[p].0 == k) {
        s.insert_ensures(p, (k, v));
        assert forall|i: int| 0 <= i < r.len() implies 0 <= #[trigger] r[i].1 by {
            if i < p {
                assert(r[i] == s[i]);
            } else if i > p {
                assert(r[i] == s[i - 1]);
            }
        }
    }
}

} // verus!
