//! Character-level text utilities: Unicode whitespace, trimming, searching,
//! and the lexicographic order of strings.
//!
//! Strings are viewed as sequences of Unicode scalar values (`Seq<char>`).

use vstd::prelude::*;
use vstd::string::*;

verus! {

/// The Unicode `White_Space` property, code point by code point.
pub open spec fn is_ws(c: char) -> bool {
    let n = c as int;
    ||| 9 <= n <= 13
    ||| n == 32
    ||| n == 0x85
    ||| n == 0xa0
    ||| n == 0x1680
    ||| 0x2000 <= n <= 0x200a
    ||| n == 0x2028
    ||| n == 0x2029
    ||| n == 0x202f
    ||| n == 0x205f
    ||| n == 0x3000
}

/// The number of leading characters of `s` whose whitespace-ness is `ws`.
pub open spec fn lead_run(s: Seq<char>, ws: bool) -> nat
    decreases s.len(),
{
    if s.len() > 0 && is_ws(s[0]) == ws {
        1 + lead_run(s.drop_first(), ws)
    } else {
        0
    }
}

/// The number of trailing characters of `s` whose whitespace-ness is `ws`.
pub open spec fn tail_run(s: Seq<char>, ws: bool) -> nat
    decreases s.len(),
{
    if s.len() > 0 && is_ws(s.last()) == ws {
        1 + tail_run(s.drop_last(), ws)
    } else {
        0
    }
}

/// `s` without its leading whitespace.
pub open spec fn seq_trim_start(s: Seq<char>) -> Seq<char> {
    s.skip(lead_run(s, true) as int)
}

/// `s` without its trailing whitespace.
pub open spec fn seq_trim_end(s: Seq<char>) -> Seq<char> {
    s.take(s.len() - tail_run(s, true))
}

/// `s` without leading and trailing whitespace.
pub open spec fn seq_trim(s: Seq<char>) -> Seq<char> {
    seq_trim_end(seq_trim_start(s))
}

/// The index of the first whitespace character of `s`, or `s.len()` when
/// there is none.
pub open spec fn seq_find_ws(s: Seq<char>) -> nat {
    lead_run(s, false)
}

/// Strict lexicographic order on character sequences. It coincides with
/// the order of `str` in Rust, since UTF-8 preserves the order of code points.
pub open spec fn lex_lt(a: Seq<char>, b: Seq<char>) -> bool
    decreases a.len(),
{
    if a.len() == 0 {
        b.len() > 0
    } else if b.len() == 0 {
        false
    } else if a[0] != b[0] {
        (a[0] as int) < (b[0] as int)
    } else {
        lex_lt(a.drop_first(), b.drop_first())
    }
}

/// A leading run is determined by where it ends.
pub proof fn lemma_lead_run(s: Seq<char>, ws: bool, k: int)
    requires
        0 <= k <= s.len(),
        forall|j: int| 0 <= j < k ==> is_ws(#[trigger] s[j]) == ws,
        k == s.len() || is_ws(s[k]) != ws,
    ensures
        lead_run(s, ws) == k,
    decreases k,
{
    if k > 0 {
        assert forall|j: int| 0 <= j < k - 1 implies is_ws(#[trigger] s.drop_first()[j]) == ws by {
            assert(s.drop_first()[j] == s[j + 1]);
        }
        lemma_lead_run(s.drop_first(), ws, k - 1);
    }
}

/// A trailing run is determined by where it starts.
pub proof fn lemma_tail_run(s: Seq<char>, ws: bool, k: int)
    requires
        0 <= k <= s.len(),
        forall|j: int| s.len() - k <= j < s.len() ==> is_ws(#[trigger] s[j]) == ws,
        k == s.len() || is_ws(s[s.len() - 1 - k]) != ws,
    ensures
        tail_run(s, ws) == k,
    decreases k,
{
    if k > 0 {
        let t = s.drop_last();
        assert forall|j: int| t.len() - (k - 1) <= j < t.len() implies is_ws(#[trigger] t[j])
            == ws by {
            assert(t[j] == s[j]);
        }
        if k - 1 != t.len() {
            assert(t[t.len() - 1 - (k - 1)] == s[s.len() - 1 - k]);
        }
        lemma_tail_run(t, ws, k - 1);
    }
}

/// The leading run never exceeds the length.
pub proof fn lemma_lead_run_bound(s: Seq<char>, ws: bool)
    ensures
        lead_run(s, ws) <= s.len(),
        forall|j: int| 0 <= j < lead_run(s, ws) ==> is_ws(#[trigger] s[j]) == ws,
        lead_run(s, ws) == s.len() || is_ws(s[lead_run(s, ws) as int]) != ws,
    decreases s.len(),
{
    if s.len() > 0 && is_ws(s[0]) == ws {
        lemma_lead_run_bound(s.drop_first(), ws);
        assert forall|j: int| 0 <= j < lead_run(s, ws) implies is_ws(#[trigger] s[j]) == ws by {
            if j > 0 {
                assert(s[j] == s.drop_first()[j - 1]);
            }
        }
        if lead_run(s, ws) < s.len() {
            assert(s[lead_run(s, ws) as int] == s.drop_first()[lead_run(s.drop_first(), ws) as int]);
        }
    }
}

/// The trailing run never exceeds the length.
pub proof fn lemma_tail_run_bound(s: Seq<char>, ws: bool)
    ensures
        tail_run(s, ws) <= s.len(),
        forall|j: int| s.len() - tail_run(s, ws) <= j < s.len() ==> is_ws(#[trigger] s[j]) == ws,
        tail_run(s, ws) == s.len() || is_ws(s[s.len() - 1 - tail_run(s, ws)]) != ws,
    decreases s.len(),
{
    if s.len() > 0 && is_ws(s.last()) == ws {
        let t = s.drop_last();
        lemma_tail_run_bound(t, ws);
        assert forall|j: int| s.len() - tail_run(s, ws) <= j < s.len() implies is_ws(
            #[trigger] s[j],
        ) == ws by {
            if j < s.len() - 1 {
                assert(s[j] == t[j]);
            }
        }
        if tail_run(s, ws) < s.len() {
            assert(s[s.len() - 1 - tail_run(s, ws)] == t[t.len() - 1 - tail_run(t, ws)]);
        }
    }
}

/// Trimming keeps every character that is not whitespace, so a text with
/// one such character does not trim to nothing.
pub proof fn lemma_trim_keeps(s: Seq<char>, i: int)
    requires
        0 <= i < s.len(),
        !is_ws(s[i]),
    ensures
        seq_trim(s).len() > 0,
{
    lemma_lead_run_bound(s, true);
    let l = lead_run(s, true) as int;
    assert(l <= i);
    let t = seq_trim_start(s);
    assert(t[i - l] == s[i]);
    lemma_tail_run_bound(t, true);
    assert(t.len() - tail_run(t, true) > i - l);
}

/// A trimmed text that is not empty starts and ends with a character that
/// is not whitespace.
pub proof fn lemma_trim_ends(s: Seq<char>)
    ensures
        seq_trim(s).len() > 0 ==> !is_ws(seq_trim(s)[0]) && !is_ws(seq_trim(s).last()),
{
    let t = seq_trim(s);
    let ts = seq_trim_start(s);
    lemma_lead_run_bound(s, true);
    lemma_tail_run_bound(ts, true);
    if t.len() > 0 {
        assert(t[0] == ts[0]);
        assert(t.last() == ts[ts.len() - 1 - tail_run(ts, true)]);
    }
}

/// Trimming twice is trimming once.
pub proof fn lemma_trim_idempotent(s: Seq<char>)
    ensures
        seq_trim(seq_trim(s)) == seq_trim(s),
{
    let t = seq_trim(s);
    let ts = seq_trim_start(s);
    lemma_lead_run_bound(s, true);
    lemma_tail_run_bound(ts, true);
    if t.len() > 0 {
        assert(t[0] == ts[0]);
        assert(t.last() == ts[ts.len() - 1 - tail_run(ts, true)]);
    }
    assert(lead_run(t, true) == 0);
    assert(seq_trim_start(t) =~= t);
    assert(tail_run(t, true) == 0);
    assert(seq_trim(t) =~= t);
}

/// No sequence precedes itself.
pub proof fn lemma_lex_irreflexive(a: Seq<char>)
    ensures
        !lex_lt(a, a),
    decreases a.len(),
{
    if a.len() > 0 {
        lemma_lex_irreflexive(a.drop_first());
    }
}

/// The order is transitive.
pub proof fn lemma_lex_transitive(a: Seq<char>, b: Seq<char>, c: Seq<char>)
    requires
        lex_lt(a, b),
        lex_lt(b, c),
    ensures
        lex_lt(a, c),
    decreases a.len(),
{
    if a.len() > 0 && b.len() > 0 && c.len() > 0 {
        if a[0] == b[0] && b[0] == c[0] {
            lemma_lex_transitive(a.drop_first(), b.drop_first(), c.drop_first());
        }
    }
}

/// Of two different sequences, one precedes the other.
pub proof fn lemma_lex_total(a: Seq<char>, b: Seq<char>)
    requires
        a != b,
    ensures
        lex_lt(a, b) || lex_lt(b, a),
    decreases a.len(),
{
    if a.len() == 0 {
        assert(b.len() > 0) by {
            if b.len() == 0 {
                assert(a =~= b);
            }
        }
    } else if b.len() > 0 && a[0] == b[0] {
        if a.drop_first() == b.drop_first() {
            assert(a =~= b) by {
                assert(a.drop_first().len() == b.drop_first().len());
                assert forall|i: int| 0 <= i < a.len() implies a[i] == b[i] by {
                    if i > 0 {
                        assert(a[i] == a.drop_first()[i - 1]);
                        assert(b[i] == b.drop_first()[i - 1]);
                    }
                }
            }
        }
        lemma_lex_total(a.drop_first(), b.drop_first());
    } else if b.len() > 0 {
        assert((a[0] as int) != (b[0] as int));
    }
}

/// The order is asymmetric.
pub proof fn lemma_lex_asymmetric(a: Seq<char>, b: Seq<char>)
    requires
        lex_lt(a, b),
    ensures
        !lex_lt(b, a),
{
    if lex_lt(b, a) {
        lemma_lex_transitive(a, b, a);
        lemma_lex_irreflexive(a);
    }
}

/// Whether `c` is Unicode whitespace (the behaviour of `char::is_whitespace`).
pub fn is_whitespace(c: char) -> (r: bool)
    ensures
        r == is_ws(c),
{
    let n = c as u32;
    (9 <= n && n <= 13) || n == 32 || n == 0x85 || n == 0xa0 || n == 0x1680 || (0x2000 <= n
        && n <= 0x200a) || n == 0x2028 || n == 0x2029 || n == 0x202f || n == 0x205f || n
        == 0x3000
}

/// The number of leading characters of `s` whose whitespace-ness is `ws`.
pub fn count_leading(s: &str, ws: bool) -> (k: usize)
    ensures
        k == lead_run(s@, ws),
        k <= s@.len(),
{
    let n = s.unicode_len();
    let mut i: usize = 0;
    while i < n
        invariant
            n == s@.len(),
            i <= n,
            forall|j: int| 0 <= j < i ==> is_ws(#[trigger] s@[j]) == ws,
        ensures
            i == n || is_ws(s@[i as int]) != ws,
        decreases n - i,
    {
        let c = s.get_char(i);
        if is_whitespace(c) != ws {
            break;
        }
        i = i + 1;
    }
    proof {
        lemma_lead_run(s@, ws, i as int);
    }
    i
}

/// The number of trailing characters of `s` whose whitespace-ness is `ws`.
pub fn count_trailing(s: &str, ws: bool) -> (k: usize)
    ensures
        k == tail_run(s@, ws),
        k <= s@.len(),
{
    let n = s.unicode_len();
    let mut k: usize = 0;
    while k < n
        invariant
            n == s@.len(),
            k <= n,
            forall|j: int| n - k <= j < n ==> is_ws(#[trigger] s@[j]) == ws,
        ensures
            k == n || is_ws(s@[n - 1 - k]) != ws,
        decreases n - k,
    {
        let c = s.get_char(n - 1 - k);
        if is_whitespace(c) != ws {
            break;
        }
        k = k + 1;
    }
    proof {
        lemma_tail_run(s@, ws, k as int);
    }
    k
}

/// `s` without its leading whitespace (the behaviour of `str::trim_start`).
pub fn trim_start(s: &str) -> (r: &str)
    ensures
        r@ == seq_trim_start(s@),
{
    let k = count_leading(s, true);
    let n = s.unicode_len();
    let r = s.substring_char(k, n);
    assert(r@ =~= seq_trim_start(s@));
    r
}

/// `s` without its trailing whitespace (the behaviour of `str::trim_end`).
pub fn trim_end(s: &str) -> (r: &str)
    ensures
        r@ == seq_trim_end(s@),
{
    let k = count_trailing(s, true);
    let n = s.unicode_len();
    let r = s.substring_char(0, n - k);
    assert(r@ =~= seq_trim_end(s@));
    r
}

/// `s` without leading and trailing whitespace (the behaviour of `str::trim`).
pub fn trim(s: &str) -> (r: &str)
    ensures
        r@ == seq_trim(s@),
{
    trim_end(trim_start(s))
}

/// Whether `s` holds nothing but whitespace (it trims to nothing).
pub fn is_blank(s: &str) -> (r: bool)
    ensures
        r == (seq_trim(s@).len() == 0),
{
    trim(s).is_empty()
}

/// The index of the first whitespace character of `s`, or its length when
/// it has none.
pub fn find_whitespace(s: &str) -> (k: usize)
    ensures
        k == seq_find_ws(s@),
        k <= s@.len(),
{
    count_leading(s, false)
}

/// Whether two strings hold the same characters.
pub fn same_text(a: &str, b: &str) -> (r: bool)
    ensures
        r == (a@ == b@),
{
    let x = a.to_owned();
    let y = b.to_owned();
    x == y
}

/// Strict lexicographic comparison of two strings.
pub fn str_lt(a: &str, b: &str) -> (r: bool)
    ensures
        r == lex_lt(a@, b@),
{
    let na = a.unicode_len();
    let nb = b.unicode_len();
    let mut i: usize = 0;
    assert(a@.skip(0) =~= a@);
    assert(b@.skip(0) =~= b@);
    while i < na && i < nb
        invariant
            na == a@.len(),
            nb == b@.len(),
            i <= na,
            i <= nb,
            lex_lt(a@, b@) == lex_lt(a@.skip(i as int), b@.skip(i as int)),
        decreases na - i,
    {
        let ca = a.get_char(i);
        let cb = b.get_char(i);
        assert(a@.skip(i as int)[0] == ca);
        assert(b@.skip(i as int)[0] == cb);
        if ca != cb {
            return ca < cb;
        }
        assert(a@.skip(i as int).drop_first() =~= a@.skip(i + 1));
        assert(b@.skip(i as int).drop_first() =~= b@.skip(i + 1));
        i = i + 1;
    }
    i == na && i < nb
}

/// The decimal digit character for `d` (below ten).
pub open spec fn digit_char(d: nat) -> char {
    seq!['0', '1', '2', '3', '4', '5', '6', '7', '8', '9'][d as int]
}

/// The decimal numeral of `n`, without leading zeros.
pub open spec fn decimal(n: nat) -> Seq<char>
    decreases n,
{
    if n < 10 {
        seq![digit_char(n)]
    } else {
        decimal(n / 10) + seq![digit_char(n % 10)]
    }
}

/// The one-character text of the digit `d`.
fn digit_text(d: usize) -> (r: &'static str)
    requires
        d < 10,
    ensures
        r@ == seq![digit_char(d as nat)],
{
    proof {
        reveal_strlit("0");
        reveal_strlit("1");
        reveal_strlit("2");
        reveal_strlit("3");
        reveal_strlit("4");
        reveal_strlit("5");
        reveal_strlit("6");
        reveal_strlit("7");
        reveal_strlit("8");
        reveal_strlit("9");
    }
    let r = if d == 0 {
        "0"
    } else if d == 1 {
        "1"
    } else if d == 2 {
        "2"
    } else if d == 3 {
        "3"
    } else if d == 4 {
        "4"
    } else if d == 5 {
        "5"
    } else if d == 6 {
        "6"
    } else if d == 7 {
        "7"
    } else if d == 8 {
        "8"
    } else {
        "9"
    };
    assert(r@ =~= seq![digit_char(d as nat)]);
    r
}

/// The decimal numeral of `n` (what `{}` formats a `usize` as).
pub fn to_decimal(n: usize) -> (r: String)
    ensures
        r@ == decimal(n as nat),
{
    let mut m = n;
    let mut s = digit_text(m % 10).to_owned();
    m = m / 10;
    while m > 0
        invariant
            m > 0 ==> decimal(n as nat) == decimal(m as nat) + s@,
            m == 0 ==> decimal(n as nat) == s@,
        decreases m,
    {
        let mut t = digit_text(m % 10).to_owned();
        t.append(s.as_str());
        proof {
            if m >= 10 {
                assert(decimal(m as nat) == decimal((m / 10) as nat) + seq![digit_char((m % 10) as nat)]);
                assert(decimal(n as nat) =~= decimal((m / 10) as nat) + t@);
            } else {
                assert(decimal(n as nat) =~= t@);
            }
        }
        s = t;
        m = m / 10;
    }
    s
}

} // verus!
