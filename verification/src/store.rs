//! The in-memory key-value store: an ordered map from string keys to
//! string values, plus the count of connected clients.

use vstd::prelude::*;
use vstd::string::*;
use crate::text::{
    lemma_lex_asymmetric, lemma_lex_irreflexive, lemma_lex_total, lemma_lex_transitive, lex_lt,
    same_text, str_lt,
};

verus! {

/// A list of (key, value) pairs, each string taken as its characters.
pub type Pairs = Seq<(Seq<char>, Seq<char>)>;

/// The characters of each pair of a list of string pairs.
pub open spec fn pairs_view(v: Seq<(String, String)>) -> Pairs {
    v.map_values(|p: (String, String)| (p.0@, p.1@))
}

/// The characters of each string of a list.
pub open spec fn strs_view(v: Seq<String>) -> Seq<Seq<char>> {
    v.map_values(|s: String| s@)
}

/// The keys of a list of pairs, in order.
pub open spec fn keys_of(s: Pairs) -> Seq<Seq<char>> {
    s.map_values(|p: (Seq<char>, Seq<char>)| p.0)
}

/// Whether some pair of `s` has key `k`.
pub open spec fn has_key(s: Pairs, k: Seq<char>) -> bool {
    exists|i: int| 0 <= i < s.len() && #[trigger] s[i].0 == k
}

/// No key occurs twice in `s`.
pub open spec fn distinct_keys(s: Pairs) -> bool {
    forall|i: int, j: int| 0 <= i < s.len() && 0 <= j < s.len() && i != j ==> #[trigger] s[i].0
        != #[trigger] s[j].0
}

/// The map that a list of pairs with distinct keys stands for.
pub open spec fn pairs_map(s: Pairs) -> Map<Seq<char>, Seq<char>> {
    Map::new(
        |k: Seq<char>| has_key(s, k),
        |k: Seq<char>| s[choose|i: int| 0 <= i < s.len() && #[trigger] s[i].0 == k].1,
    )
}

/// The strings of `ks` are in strictly increasing lexicographic order.
pub open spec fn strictly_sorted(ks: Seq<Seq<char>>) -> bool {
    forall|i: int, j: int| 0 <= i < j < ks.len() ==> lex_lt(#[trigger] ks[i], #[trigger] ks[j])
}

/// `ks` lists the keys of `m`, each once, in increasing order.
pub open spec fn is_sorted_key_list(ks: Seq<Seq<char>>, m: Map<Seq<char>, Seq<char>>) -> bool {
    &&& strictly_sorted(ks)
    &&& forall|k: Seq<char>| m.contains_key(k) <==> ks.contains(k)
}

/// Sorted keys are distinct.
pub proof fn lemma_sorted_distinct(s: Pairs)
    requires
        strictly_sorted(keys_of(s)),
    ensures
        distinct_keys(s),
{
    assert forall|i: int, j: int| 0 <= i < s.len() && 0 <= j < s.len() && i != j implies #[trigger] s[i].0
        != #[trigger] s[j].0 by {
        let ks = keys_of(s);
        if i < j {
            assert(lex_lt(ks[i], ks[j]));
        } else {
            assert(lex_lt(ks[j], ks[i]));
        }
        lemma_lex_irreflexive(s[i].0);
    }
}

/// In a list with distinct keys, the map sends each key to the value beside it.
pub proof fn lemma_pairs_map_at(s: Pairs, i: int)
    requires
        distinct_keys(s),
        0 <= i < s.len(),
    ensures
        pairs_map(s).contains_key(s[i].0),
        pairs_map(s)[s[i].0] == s[i].1,
{
    assert(has_key(s, s[i].0));
    let j = choose|j: int| 0 <= j < s.len() && #[trigger] s[j].0 == s[i].0;
    assert(j == i);
}

/// The map of a list with distinct keys holds as many keys as the list.
pub proof fn lemma_pairs_map_len(s: Pairs)
    requires
        distinct_keys(s),
    ensures
        pairs_map(s).dom() == keys_of(s).to_set(),
        pairs_map(s).dom().finite(),
        pairs_map(s).len() == s.len(),
{
    let ks = keys_of(s);
    assert forall|k: Seq<char>| pairs_map(s).dom().contains(k) <==> ks.to_set().contains(k) by {
        if has_key(s, k) {
            let i = choose|i: int| 0 <= i < s.len() && #[trigger] s[i].0 == k;
            assert(ks[i] == k);
        }
        if ks.contains(k) {
            let i = choose|i: int| 0 <= i < ks.len() && ks[i] == k;
            assert(s[i].0 == k);
        }
    }
    assert(pairs_map(s).dom() =~= ks.to_set());
    assert(ks.no_duplicates()) by {
        assert forall|i: int, j: int| 0 <= i < ks.len() && 0 <= j < ks.len() && i != j implies ks[i]
            != ks[j] by {
            assert(s[i].0 != s[j].0);
        }
    }
    ks.unique_seq_to_set();
}

/// Inserting a pair with a new key adds it to the map.
pub proof fn lemma_pairs_map_insert(s: Pairs, pos: int, k: Seq<char>, v: Seq<char>)
    requires
        distinct_keys(s),
        !has_key(s, k),
        0 <= pos <= s.len(),
    ensures
        distinct_keys(s.insert(pos, (k, v))),
        pairs_map(s.insert(pos, (k, v))) == pairs_map(s).insert(k, v),
{
    let t = s.insert(pos, (k, v));
    s.insert_ensures(pos, (k, v));
    assert forall|i: int, j: int| 0 <= i < t.len() && 0 <= j < t.len() && i != j implies #[trigger] t[i].0
        != #[trigger] t[j].0 by {
        if i != pos && j != pos {
            let si = if i < pos { i } else { i - 1 };
            let sj = if j < pos { j } else { j - 1 };
            assert(t[i] == s[si]);
            assert(t[j] == s[sj]);
        } else if i == pos {
            let sj = if j < pos { j } else { j - 1 };
            assert(t[j] == s[sj]);
        } else {
            let si = if i < pos { i } else { i - 1 };
            assert(t[i] == s[si]);
        }
    }
    assert forall|x: Seq<char>| #[trigger] pairs_map(t).contains_key(x) <==> pairs_map(s).insert(
        k,
        v,
    ).contains_key(x) by {
        if has_key(t, x) {
            let i = choose|i: int| 0 <= i < t.len() && #[trigger] t[i].0 == x;
            if i < pos {
                assert(t[i] == s[i]);
            } else if i > pos {
                assert(t[i] == s[i - 1]);
            }
        }
        if has_key(s, x) {
            let i = choose|i: int| 0 <= i < s.len() && #[trigger] s[i].0 == x;
            if i < pos {
                assert(t[i] == s[i]);
            } else {
                assert(t[i + 1] == s[i]);
            }
        }
        if x == k {
            assert(t[pos].0 == k);
        }
    }
    assert forall|x: Seq<char>| #[trigger] pairs_map(t).contains_key(x) implies pairs_map(t)[x]
        == pairs_map(s).insert(k, v)[x] by {
        let i = choose|i: int| 0 <= i < t.len() && #[trigger] t[i].0 == x;
        lemma_pairs_map_at(t, i);
        if i < pos {
            assert(t[i] == s[i]);
            lemma_pairs_map_at(s, i);
        } else if i > pos {
            assert(t[i] == s[i - 1]);
            lemma_pairs_map_at(s, i - 1);
        }
    }
    assert(pairs_map(t) =~= pairs_map(s).insert(k, v));
}

/// Replacing the value beside an existing key updates the map.
pub proof fn lemma_pairs_map_update(s: Pairs, pos: int, v: Seq<char>)
    requires
        distinct_keys(s),
        0 <= pos < s.len(),
    ensures
        distinct_keys(s.update(pos, (s[pos].0, v))),
        keys_of(s.update(pos, (s[pos].0, v))) == keys_of(s),
        pairs_map(s.update(pos, (s[pos].0, v))) == pairs_map(s).insert(s[pos].0, v),
{
    let k = s[pos].0;
    let t = s.update(pos, (k, v));
    assert(keys_of(t) =~= keys_of(s));
    assert forall|i: int, j: int| 0 <= i < t.len() && 0 <= j < t.len() && i != j implies #[trigger] t[i].0
        != #[trigger] t[j].0 by {
        assert(t[i].0 == s[i].0);
        assert(t[j].0 == s[j].0);
    }
    assert forall|x: Seq<char>| #[trigger] pairs_map(t).contains_key(x) <==> pairs_map(s).insert(
        k,
        v,
    ).contains_key(x) by {
        if has_key(t, x) {
            let i = choose|i: int| 0 <= i < t.len() && #[trigger] t[i].0 == x;
            assert(s[i].0 == x);
        }
        if has_key(s, x) {
            let i = choose|i: int| 0 <= i < s.len() && #[trigger] s[i].0 == x;
            assert(t[i].0 == x);
        }
    }
    assert forall|x: Seq<char>| #[trigger] pairs_map(t).contains_key(x) implies pairs_map(t)[x]
        == pairs_map(s).insert(k, v)[x] by {
        let i = choose|i: int| 0 <= i < t.len() && #[trigger] t[i].0 == x;
        lemma_pairs_map_at(t, i);
        if i != pos {
            lemma_pairs_map_at(s, i);
        }
    }
    assert(pairs_map(t) =~= pairs_map(s).insert(k, v));
}

/// Removing the pair of a key removes the key from the map.
pub proof fn lemma_pairs_map_remove(s: Pairs, pos: int)
    requires
        distinct_keys(s),
        0 <= pos < s.len(),
    ensures
        distinct_keys(s.remove(pos)),
        pairs_map(s.remove(pos)) == pairs_map(s).remove(s[pos].0),
{
    let k = s[pos].0;
    let t = s.remove(pos);
    s.remove_ensures(pos);
    assert forall|i: int, j: int| 0 <= i < t.len() && 0 <= j < t.len() && i != j implies #[trigger] t[i].0
        != #[trigger] t[j].0 by {
        let si = if i < pos { i } else { i + 1 };
        let sj = if j < pos { j } else { j + 1 };
        assert(t[i] == s[si]);
        assert(t[j] == s[sj]);
    }
    assert forall|x: Seq<char>| #[trigger] pairs_map(t).contains_key(x) <==> pairs_map(s).remove(
        k,
    ).contains_key(x) by {
        if has_key(t, x) {
            let i = choose|i: int| 0 <= i < t.len() && #[trigger] t[i].0 == x;
            let si = if i < pos { i } else { i + 1 };
            assert(t[i] == s[si]);
        }
        if has_key(s, x) && x != k {
            let i = choose|i: int| 0 <= i < s.len() && #[trigger] s[i].0 == x;
            if i < pos {
                assert(t[i] == s[i]);
            } else {
                assert(i != pos);
                assert(t[i - 1] == s[i]);
            }
        }
    }
    assert forall|x: Seq<char>| #[trigger] pairs_map(t).contains_key(x) implies pairs_map(t)[x]
        == pairs_map(s).remove(k)[x] by {
        let i = choose|i: int| 0 <= i < t.len() && #[trigger] t[i].0 == x;
        lemma_pairs_map_at(t, i);
        let si = if i < pos { i } else { i + 1 };
        assert(t[i] == s[si]);
        lemma_pairs_map_at(s, si);
    }
    assert(pairs_map(t) =~= pairs_map(s).remove(k));
}

/// Inserting a key at its place keeps a list sorted.
pub proof fn lemma_sorted_insert(ks: Seq<Seq<char>>, pos: int, k: Seq<char>)
    requires
        strictly_sorted(ks),
        0 <= pos <= ks.len(),
        forall|j: int| 0 <= j < pos ==> lex_lt(#[trigger] ks[j], k),
        pos < ks.len() ==> lex_lt(k, ks[pos]),
    ensures
        strictly_sorted(ks.insert(pos, k)),
{
    let t = ks.insert(pos, k);
    ks.insert_ensures(pos, k);
    assert forall|i: int, j: int| 0 <= i < j < t.len() implies lex_lt(#[trigger] t[i], #[trigger] t[j]) by {
        if j < pos {
            assert(t[i] == ks[i] && t[j] == ks[j]);
        } else if j == pos {
            assert(t[i] == ks[i]);
        } else if i == pos {
            assert(t[j] == ks[j - 1]);
            if j - 1 > pos {
                lemma_lex_transitive(k, ks[pos], ks[j - 1]);
            }
        } else if i < pos {
            assert(t[i] == ks[i] && t[j] == ks[j - 1]);
        } else {
            assert(t[i] == ks[i - 1] && t[j] == ks[j - 1]);
        }
    }
}

/// Removing a key keeps a list sorted.
pub proof fn lemma_sorted_remove(ks: Seq<Seq<char>>, pos: int)
    requires
        strictly_sorted(ks),
        0 <= pos < ks.len(),
    ensures
        strictly_sorted(ks.remove(pos)),
{
    let t = ks.remove(pos);
    ks.remove_ensures(pos);
    assert forall|i: int, j: int| 0 <= i < j < t.len() implies lex_lt(#[trigger] t[i], #[trigger] t[j]) by {
        let si = if i < pos { i } else { i + 1 };
        let sj = if j < pos { j } else { j + 1 };
        assert(t[i] == ks[si] && t[j] == ks[sj]);
    }
}

/// Where `key` stands, or would stand, in a list sorted by key.
fn locate(entries: &Vec<(String, String)>, key: &str) -> (r: (usize, bool))
    requires
        strictly_sorted(keys_of(pairs_view(entries@))),
    ensures
        r.0 <= entries@.len(),
        r.1 ==> r.0 < entries@.len() && entries@[r.0 as int].0@ == key@,
        !r.1 ==> !has_key(pairs_view(entries@), key@),
        forall|j: int| 0 <= j < r.0 ==> lex_lt(#[trigger] keys_of(pairs_view(entries@))[j], key@),
        !r.1 && r.0 < entries@.len() ==> lex_lt(key@, keys_of(pairs_view(entries@))[r.0 as int]),
{
    let ghost s = pairs_view(entries@);
    let ghost ks = keys_of(s);
    let n = entries.len();
    let mut i: usize = 0;
    while i < n
        invariant
            n == entries@.len(),
            s == pairs_view(entries@),
            ks == keys_of(s),
            i <= n,
            forall|j: int| 0 <= j < i ==> lex_lt(#[trigger] ks[j], key@),
        ensures
            i == n || !lex_lt(ks[i as int], key@),
        decreases n - i,
    {
        if !str_lt(entries[i].0.as_str(), key) {
            break;
        }
        i = i + 1;
    }
    let found = i < n && same_text(entries[i].0.as_str(), key);
    proof {
        if !found {
            assert forall|j: int| 0 <= j < s.len() implies #[trigger] s[j].0 != key@ by {
                if j < i {
                    assert(lex_lt(ks[j], key@));
                    lemma_lex_irreflexive(key@);
                } else {
                    assert(ks[i as int] != key@);
                    lemma_lex_total(ks[i as int], key@);
                    if j > i {
                        assert(lex_lt(ks[i as int], ks[j]));
                        lemma_lex_transitive(key@, ks[i as int], ks[j]);
                    }
                    lemma_lex_irreflexive(key@);
                }
            }
            if i < n {
                lemma_lex_total(ks[i as int], key@);
            }
        }
    }
    (i, found)
}

/// Sets `key` to `value` in a list sorted by key; returns the value it had.
fn put(entries: &mut Vec<(String, String)>, key: &str, value: &str) -> (r: Option<String>)
    requires
        strictly_sorted(keys_of(pairs_view(old(entries)@))),
    ensures
        strictly_sorted(keys_of(pairs_view(final(entries)@))),
        pairs_map(pairs_view(final(entries)@)) == pairs_map(pairs_view(old(entries)@)).insert(
            key@,
            value@,
        ),
        r is Some == pairs_map(pairs_view(old(entries)@)).contains_key(key@),
        r matches Some(v) ==> v@ == pairs_map(pairs_view(old(entries)@))[key@],
{
    let ghost s = pairs_view(entries@);
    proof {
        lemma_sorted_distinct(s);
    }
    let (i, found) = locate(entries, key);
    if found {
        let previous = entries[i].1.clone();
        let k = entries[i].0.clone();
        entries.set(i, (k, value.to_owned()));
        proof {
            lemma_pairs_map_at(s, i as int);
            lemma_pairs_map_update(s, i as int, value@);
            assert(pairs_view(entries@) =~= s.update(i as int, (s[i as int].0, value@)));
        }
        Some(previous)
    } else {
        entries.insert(i, (key.to_owned(), value.to_owned()));
        proof {
            lemma_pairs_map_insert(s, i as int, key@, value@);
            s.insert_ensures(i as int, (key@, value@));
            assert(pairs_view(entries@) =~= s.insert(i as int, (key@, value@)));
            assert(keys_of(pairs_view(entries@)) =~= keys_of(s).insert(i as int, key@));
            lemma_sorted_insert(keys_of(s), i as int, key@);
        }
        None
    }
}

/// The pairs of `data`, in strictly increasing order of key.
pub fn sorted_pairs(data: &Vec<(String, String)>) -> (r: Vec<(String, String)>)
    requires
        distinct_keys(pairs_view(data@)),
    ensures
        strictly_sorted(keys_of(pairs_view(r@))),
        pairs_map(pairs_view(r@)) == pairs_map(pairs_view(data@)),
{
    let ghost d = pairs_view(data@);
    let n = data.len();
    let mut entries: Vec<(String, String)> = Vec::new();
    let mut i: usize = 0;
    assert(pairs_map(pairs_view(entries@)) =~= pairs_map(d.take(0)));
    while i < n
        invariant
            n == data@.len(),
            d == pairs_view(data@),
            distinct_keys(d),
            i <= n,
            strictly_sorted(keys_of(pairs_view(entries@))),
            pairs_map(pairs_view(entries@)) == pairs_map(d.take(i as int)),
        decreases n - i,
    {
        put(&mut entries, data[i].0.as_str(), data[i].1.as_str());
        proof {
            let t = d.take(i as int);
            assert(distinct_keys(t));
            assert(!has_key(t, d[i as int].0)) by {
                if has_key(t, d[i as int].0) {
                    let j = choose|j: int| 0 <= j < t.len() && #[trigger] t[j].0 == d[i as int].0;
                    assert(d[j].0 == d[i as int].0);
                }
            }
            lemma_pairs_map_insert(t, t.len() as int, d[i as int].0, d[i as int].1);
            assert(t.insert(t.len() as int, (d[i as int].0, d[i as int].1)) =~= d.take(i + 1));
        }
        i = i + 1;
    }
    assert(d.take(n as int) =~= d);
    entries
}

/// The list of the pairs of `m` in strictly increasing order of key.
pub open spec fn ordered_pairs(m: Map<Seq<char>, Seq<char>>) -> Pairs {
    choose|s: Pairs| strictly_sorted(keys_of(s)) && pairs_map(s) == m
}

/// A map has only one list of its pairs sorted by key.
pub proof fn lemma_sorted_pairs_unique(s: Pairs, t: Pairs)
    requires
        strictly_sorted(keys_of(s)),
        strictly_sorted(keys_of(t)),
        pairs_map(s) == pairs_map(t),
    ensures
        s == t,
    decreases s.len(),
{
    lemma_sorted_distinct(s);
    lemma_sorted_distinct(t);
    lemma_pairs_map_len(s);
    lemma_pairs_map_len(t);
    if s.len() > 0 {
        let ks = keys_of(s);
        let kt = keys_of(t);
        lemma_pairs_map_at(s, 0);
        lemma_pairs_map_at(t, 0);
        let i = choose|i: int| 0 <= i < s.len() && #[trigger] s[i].0 == t[0].0;
        let j = choose|j: int| 0 <= j < t.len() && #[trigger] t[j].0 == s[0].0;
        if i != 0 && j != 0 {
            assert(lex_lt(ks[0], ks[i]));
            assert(lex_lt(kt[0], kt[j]));
            lemma_lex_asymmetric(s[0].0, t[0].0);
        }
        assert(s[0].0 == t[0].0);
        lemma_pairs_map_at(s, 0);
        lemma_pairs_map_at(t, 0);
        assert(s[0] == t[0]);
        lemma_pairs_map_remove(s, 0);
        lemma_pairs_map_remove(t, 0);
        assert(s.remove(0) =~= s.drop_first());
        assert(t.remove(0) =~= t.drop_first());
        assert(keys_of(s.drop_first()) =~= ks.drop_first());
        assert(keys_of(t.drop_first()) =~= kt.drop_first());
        assert(strictly_sorted(ks.drop_first()));
        assert(strictly_sorted(kt.drop_first()));
        lemma_sorted_pairs_unique(s.drop_first(), t.drop_first());
        assert(s =~= t) by {
            assert forall|k: int| 0 <= k < s.len() implies s[k] == t[k] by {
                if k > 0 {
                    assert(s[k] == s.drop_first()[k - 1]);
                    assert(t[k] == t.drop_first()[k - 1]);
                }
            }
        }
    }
}

/// A sorted list of pairs is the ordered list of its map.
pub proof fn lemma_ordered_pairs(s: Pairs)
    requires
        strictly_sorted(keys_of(s)),
    ensures
        ordered_pairs(pairs_map(s)) == s,
{
    let t = ordered_pairs(pairs_map(s));
    lemma_sorted_pairs_unique(s, t);
}

/// The number of leading keys of `ks` that precede `k`.
pub open spec fn lead_below(ks: Seq<Seq<char>>, k: Seq<char>) -> nat
    decreases ks.len(),
{
    if ks.len() > 0 && lex_lt(ks[0], k) {
        1 + lead_below(ks.drop_first(), k)
    } else {
        0
    }
}

/// The leading keys that precede `k` end where a key no longer does.
pub proof fn lemma_lead_below(ks: Seq<Seq<char>>, k: Seq<char>)
    ensures
        lead_below(ks, k) <= ks.len(),
        forall|j: int| 0 <= j < lead_below(ks, k) ==> lex_lt(#[trigger] ks[j], k),
        lead_below(ks, k) < ks.len() ==> !lex_lt(ks[lead_below(ks, k) as int], k),
    decreases ks.len(),
{
    if ks.len() > 0 && lex_lt(ks[0], k) {
        let t = ks.drop_first();
        lemma_lead_below(t, k);
        assert forall|j: int| 0 <= j < lead_below(ks, k) implies lex_lt(#[trigger] ks[j], k) by {
            if j > 0 {
                assert(ks[j] == t[j - 1]);
            }
        }
        if lead_below(ks, k) < ks.len() {
            assert(ks[lead_below(ks, k) as int] == t[lead_below(t, k) as int]);
        }
    }
}

/// Every finite map has a list of its pairs sorted by key, and
/// `ordered_pairs` is that list.
pub proof fn lemma_ordered_pairs_exist(m: Map<Seq<char>, Seq<char>>)
    requires
        m.dom().finite(),
    ensures
        strictly_sorted(keys_of(ordered_pairs(m))),
        pairs_map(ordered_pairs(m)) == m,
    decreases m.dom().len(),
{
    if m.dom().len() == 0 {
        let e = Seq::<(Seq<char>, Seq<char>)>::empty();
        assert(m.dom() =~= Set::empty());
        assert(pairs_map(e) =~= m);
        assert(keys_of(e) =~= Seq::empty());
        lemma_ordered_pairs(e);
    } else {
        let k = m.dom().choose();
        let v = m[k];
        let rest = m.remove(k);
        lemma_ordered_pairs_exist(rest);
        let p = ordered_pairs(rest);
        let ks = keys_of(p);
        lemma_sorted_distinct(p);
        assert(!has_key(p, k)) by {
            if has_key(p, k) {
                let i = choose|i: int| 0 <= i < p.len() && #[trigger] p[i].0 == k;
                lemma_pairs_map_at(p, i);
            }
        }
        lemma_lead_below(ks, k);
        let pos = lead_below(ks, k) as int;
        if pos < ks.len() {
            assert(ks[pos] != k) by {
                assert(ks[pos] == p[pos].0);
            }
            lemma_lex_total(ks[pos], k);
        }
        lemma_sorted_insert(ks, pos, k);
        lemma_pairs_map_insert(p, pos, k, v);
        let q = p.insert(pos, (k, v));
        p.insert_ensures(pos, (k, v));
        assert(keys_of(q) =~= ks.insert(pos, k));
        assert(pairs_map(q) =~= m);
        lemma_ordered_pairs(q);
    }
}

/// The in-memory key-value store.
///
/// Its contents are a map from keys to values; it also counts the clients
/// that are connected to the server that owns it.
#[derive(Debug)]
pub struct Store {
    /// The pairs of the map, in strictly increasing order of key.
    entries: Vec<(String, String)>,
    /// The number of connected clients.
    client_count: usize,
}

impl View for Store {
    type V = Map<Seq<char>, Seq<char>>;

    closed spec fn view(&self) -> Map<Seq<char>, Seq<char>> {
        pairs_map(pairs_view(self.entries@))
    }
}

impl Store {
    #[verifier::type_invariant]
    spec fn entries_sorted(self) -> bool {
        strictly_sorted(keys_of(pairs_view(self.entries@)))
    }

    /// The number of connected clients.
    pub closed spec fn clients(self) -> usize {
        self.client_count
    }

    /// An empty store with no client connected.
    pub fn new() -> (s: Self)
        ensures
            s@ == Map::<Seq<char>, Seq<char>>::empty(),
            s.clients() == 0,
    {
        let s = Store { entries: Vec::new(), client_count: 0 };
        assert(s@ =~= Map::<Seq<char>, Seq<char>>::empty());
        s
    }

    /// Sets `key` to `value`, overwriting any earlier value; returns the
    /// earlier value if there was one.
    pub fn set(&mut self, key: &str, value: &str) -> (r: Option<String>)
        ensures
            final(self)@ == old(self)@.insert(key@, value@),
            r is Some == old(self)@.contains_key(key@),
            r matches Some(v) ==> v@ == old(self)@[key@],
            final(self).clients() == old(self).clients(),
    {
        proof {
            use_type_invariant(&*self);
        }
        let mut entries: Vec<(String, String)> = Vec::new();
        std::mem::swap(&mut entries, &mut self.entries);
        let r = put(&mut entries, key, value);
        self.entries = entries;
        r
    }

    /// The value of `key`, if the store holds it.
    pub fn get(&self, key: &str) -> (r: Option<String>)
        ensures
            r is Some == self@.contains_key(key@),
            r matches Some(v) ==> v@ == self@[key@],
    {
        proof {
            use_type_invariant(self);
            lemma_sorted_distinct(pairs_view(self.entries@));
        }
        let (i, found) = locate(&self.entries, key);
        if found {
            proof {
                lemma_pairs_map_at(pairs_view(self.entries@), i as int);
            }
            Some(self.entries[i].1.clone())
        } else {
            None
        }
    }

    /// Removes `key`; returns the value it had, if the store held it.
    pub fn del(&mut self, key: &str) -> (r: Option<String>)
        ensures
            final(self)@ == old(self)@.remove(key@),
            r is Some == old(self)@.contains_key(key@),
            r matches Some(v) ==> v@ == old(self)@[key@],
            final(self).clients() == old(self).clients(),
    {
        proof {
            use_type_invariant(&*self);
        }
        let ghost s = pairs_view(self.entries@);
        proof {
            lemma_sorted_distinct(s);
        }
        let (i, found) = locate(&self.entries, key);
        if found {
            let mut entries: Vec<(String, String)> = Vec::new();
            std::mem::swap(&mut entries, &mut self.entries);
            let (_, previous) = entries.remove(i);
            proof {
                lemma_pairs_map_at(s, i as int);
                lemma_pairs_map_remove(s, i as int);
                s.remove_ensures(i as int);
                assert(pairs_view(entries@) =~= s.remove(i as int));
                assert(keys_of(pairs_view(entries@)) =~= keys_of(s).remove(i as int));
                lemma_sorted_remove(keys_of(s), i as int);
            }
            self.entries = entries;
            Some(previous)
        } else {
            assert(old(self)@.remove(key@) =~= old(self)@);
            None
        }
    }

    /// All keys, each once, in increasing lexicographic order.
    pub fn keys(&self) -> (r: Vec<String>)
        ensures
            is_sorted_key_list(strs_view(r@), self@),
            strs_view(r@) == keys_of(ordered_pairs(self@)),
    {
        proof {
            use_type_invariant(self);
        }
        let ghost s = pairs_view(self.entries@);
        let n = self.entries.len();
        let mut r: Vec<String> = Vec::new();
        let mut i: usize = 0;
        while i < n
            invariant
                n == self.entries@.len(),
                s == pairs_view(self.entries@),
                i <= n,
                r@.len() == i,
                s.len() == n,
                strs_view(r@) =~= keys_of(s).take(i as int),
            decreases n - i,
        {
            let k = self.entries[i].0.clone();
            r.push(k);
            assert(strs_view(r@) =~= keys_of(s).take(i + 1));
            i = i + 1;
        }
        proof {
            let ks = keys_of(s);
            assert(strs_view(r@) =~= ks);
            lemma_ordered_pairs(s);
            assert forall|k: Seq<char>| self@.contains_key(k) <==> strs_view(r@).contains(k) by {
                if has_key(s, k) {
                    let j = choose|j: int| 0 <= j < s.len() && #[trigger] s[j].0 == k;
                    assert(ks[j] == k);
                }
                if ks.contains(k) {
                    let j = choose|j: int| 0 <= j < ks.len() && ks[j] == k;
                    assert(s[j].0 == k);
                }
            }
        }
        r
    }

    /// The number of keys.
    pub fn len(&self) -> (r: usize)
        ensures
            self@.dom().finite(),
            r == self@.len(),
    {
        proof {
            use_type_invariant(self);
            lemma_sorted_distinct(pairs_view(self.entries@));
            lemma_pairs_map_len(pairs_view(self.entries@));
        }
        self.entries.len()
    }

    /// Whether the store holds no key.
    pub fn is_empty(&self) -> (r: bool)
        ensures
            r == (self@ == Map::<Seq<char>, Seq<char>>::empty()),
    {
        proof {
            use_type_invariant(self);
            lemma_sorted_distinct(pairs_view(self.entries@));
            lemma_pairs_map_len(pairs_view(self.entries@));
            if self.entries@.len() > 0 {
                lemma_pairs_map_at(pairs_view(self.entries@), 0);
            } else {
                assert(self@ =~= Map::<Seq<char>, Seq<char>>::empty());
            }
        }
        self.entries.len() == 0
    }

    /// A copy of all pairs, in increasing order of key.
    pub fn snapshot(&self) -> (r: Vec<(String, String)>)
        ensures
            pairs_view(r@) == ordered_pairs(self@),
            pairs_map(pairs_view(r@)) == self@,
            strictly_sorted(keys_of(pairs_view(r@))),
            distinct_keys(pairs_view(r@)),
    {
        proof {
            use_type_invariant(self);
        }
        let n = self.entries.len();
        let mut r: Vec<(String, String)> = Vec::new();
        let mut i: usize = 0;
        while i < n
            invariant
                n == self.entries@.len(),
                i <= n,
                r@.len() == i,
                pairs_view(r@) =~= pairs_view(self.entries@).take(i as int),
            decreases n - i,
        {
            let k = self.entries[i].0.clone();
            let v = self.entries[i].1.clone();
            r.push((k, v));
            assert(pairs_view(r@) =~= pairs_view(self.entries@).take(i + 1));
            i = i + 1;
        }
        assert(pairs_view(r@) =~= pairs_view(self.entries@));
        proof {
            lemma_ordered_pairs(pairs_view(self.entries@));
            lemma_sorted_distinct(pairs_view(self.entries@));
        }
        r
    }

    /// Replaces the whole contents by the pairs of `data`.
    pub fn load(&mut self, data: Vec<(String, String)>)
        requires
            distinct_keys(pairs_view(data@)),
        ensures
            final(self)@ == pairs_map(pairs_view(data@)),
            final(self).clients() == old(self).clients(),
    {
        proof {
            use_type_invariant(&*self);
        }
        self.entries = sorted_pairs(&data);
    }

    /// Counts one more connected client (wrapping at the largest count).
    pub fn client_connected(&mut self)
        ensures
            final(self)@ == old(self)@,
            final(self).clients() == old(self).clients().wrapping_add(1),
    {
        proof {
            use_type_invariant(&*self);
        }
        self.client_count = self.client_count.wrapping_add(1);
    }

    /// Counts one client fewer (wrapping below zero).
    pub fn client_disconnected(&mut self)
        ensures
            final(self)@ == old(self)@,
            final(self).clients() == old(self).clients().wrapping_sub(1),
    {
        proof {
            use_type_invariant(&*self);
        }
        self.client_count = self.client_count.wrapping_sub(1);
    }

    /// The number of connected clients.
    pub fn client_count(&self) -> (r: usize)
        ensures
            r == self.clients(),
    {
        self.client_count
    }
}

impl Default for Store {
    /// An empty store with no client connected.
    fn default() -> (s: Self)
        ensures
            s@ == Map::<Seq<char>, Seq<char>>::empty(),
            s.clients() == 0,
    {
        Store::new()
    }
}

} // verus!
