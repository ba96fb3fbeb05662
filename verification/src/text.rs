//! Verified string helpers over character sequences: equality, prefix and
//! suffix tests, the lexicographic order used to sort jobs by name, and the
//! few slicing operations that unit names and container names need.
use vstd::prelude::*;

verus! {

/// Strict lexicographic order on character sequences, by code point.
/// (For UTF-8 text this is the same order as comparing the encoded bytes.)
pub open spec fn lex_lt(a: Seq<char>, b: Seq<char>) -> bool
    decreases a.len(),
{
    if a.len() == 0 {
        b.len() > 0
    } else if b.len() == 0 {
        false
    } else if a[0] != b[0] {
        a[0] < b[0]
    } else {
        lex_lt(a.drop_first(), b.drop_first())
    }
}

/// `p` is a prefix of `s`.
pub open spec fn is_prefix(p: Seq<char>, s: Seq<char>) -> bool {
    p.len() <= s.len() && s.take(p.len() as int) == p
}

/// `x` is a suffix of `s`.
pub open spec fn is_suffix(x: Seq<char>, s: Seq<char>) -> bool {
    x.len() <= s.len() && s.skip(s.len() - x.len()) == x
}

/// What follows the last occurrence of `c` in `s` (all of `s` when `c` does not occur).
pub open spec fn after_last(s: Seq<char>, c: char) -> Seq<char>
    decreases s.len(),
{
    if s.len() == 0 {
        s
    } else if s.last() == c {
        Seq::empty()
    } else {
        after_last(s.drop_last(), c).push(s.last())
    }
}

/// `s` without its leading run of `c`.
pub open spec fn trim_leading(s: Seq<char>, c: char) -> Seq<char>
    decreases s.len(),
{
    if s.len() > 0 && s[0] == c {
        trim_leading(s.drop_first(), c)
    } else {
        s
    }
}

/// At most the first `n` characters of `s`.
pub open spec fn first_chars(s: Seq<char>, n: nat) -> Seq<char> {
    if s.len() <= n {
        s
    } else {
        s.take(n as int)
    }
}

/// What precedes the first occurrence of `c` in `s` (all of `s` when `c` does not occur).
pub open spec fn before_first(s: Seq<char>, c: char) -> Seq<char>
    decreases s.len(),
{
    if s.len() == 0 || s[0] == c {
        Seq::empty()
    } else {
        seq![s[0]] + before_first(s.drop_first(), c)
    }
}

/// What follows the first occurrence of `c` in `s`.
pub open spec fn after_first(s: Seq<char>, c: char) -> Seq<char> {
    s.skip(before_first(s, c).len() + 1int)
}

/// Cutting `b + [c] + a` at its first `c`, where `b` holds no `c`, gives back `b` and `a`.
pub proof fn lemma_first_split(b: Seq<char>, c: char, a: Seq<char>)
    requires
        !b.contains(c),
    ensures
        before_first(b + seq![c] + a, c) == b,
        after_first(b + seq![c] + a, c) == a,
    decreases b.len(),
{
    let s = b + seq![c] + a;
    if b.len() == 0 {
        assert(s[0] == c);
        assert(s.skip(1) =~= a);
    } else {
        assert(s[0] == b[0]);
        assert(!b.drop_first().contains(c)) by {
            if b.drop_first().contains(c) {
                let k = choose|k: int| 0 <= k < b.drop_first().len() && b.drop_first()[k] == c;
                assert(b[k + 1] == c);
            }
        }
        assert(s.drop_first() =~= b.drop_first() + seq![c] + a);
        lemma_first_split(b.drop_first(), c, a);
        assert(seq![b[0]] + b.drop_first() =~= b);
        assert(s.skip(b.len() + 1int) =~= a);
    }
}

/// What follows the last `c` is the end of `s` that holds no `c`: all of `s`
/// when `s` holds no `c`, and otherwise preceded in `s` by a `c`.
pub proof fn lemma_after_last_is_last_segment(s: Seq<char>, c: char)
    ensures
        is_suffix(after_last(s, c), s),
        !after_last(s, c).contains(c),
        !s.contains(c) ==> after_last(s, c) == s,
        s.contains(c) ==> s[s.len() - after_last(s, c).len() - 1] == c,
    decreases s.len(),
{
    if s.len() == 0 {
        assert(s.skip(0) =~= s);
    } else if s.last() == c {
        assert(s.skip(s.len() as int) =~= Seq::<char>::empty());
    } else {
        let d = s.drop_last();
        lemma_after_last_is_last_segment(d, c);
        let r = after_last(d, c);
        assert(s.skip(s.len() - (r.len() + 1)) =~= d.skip(d.len() - r.len()).push(s.last()));
        assert(!r.push(s.last()).contains(c)) by {
            if r.push(s.last()).contains(c) {
                let k = choose|k: int| 0 <= k < r.len() + 1 && r.push(s.last())[k] == c;
                if k < r.len() {
                    assert(r[k] == c);
                }
            }
        }
        if !s.contains(c) {
            assert(!d.contains(c)) by {
                if d.contains(c) {
                    let k = choose|k: int| 0 <= k < d.len() && d[k] == c;
                    assert(s[k] == c);
                }
            }
            assert(r.push(s.last()) =~= s);
        }
        if s.contains(c) {
            assert(d.contains(c)) by {
                let k = choose|k: int| 0 <= k < s.len() && s[k] == c;
                assert(k < d.len());
                assert(d[k] == c);
            }
        }
    }
}

/// Trimming leaves `s` without its leading `c`s: `s` is some `c`s followed by
/// the result, which does not begin with `c`.
pub proof fn lemma_trim_leading_drops_leading(s: Seq<char>, c: char)
    ensures
        is_suffix(trim_leading(s, c), s),
        forall|k: int| 0 <= k < s.len() - trim_leading(s, c).len() ==> s[k] == c,
        trim_leading(s, c).len() > 0 ==> trim_leading(s, c)[0] != c,
    decreases s.len(),
{
    if s.len() > 0 && s[0] == c {
        let t = s.drop_first();
        lemma_trim_leading_drops_leading(t, c);
        let r = trim_leading(t, c);
        assert(s.skip(s.len() - r.len()) =~= t.skip(t.len() - r.len()));
        assert forall|k: int| 0 <= k < s.len() - r.len() implies s[k] == c by {
            if k > 0 {
                assert(s[k] == t[k - 1]);
            }
        }
    } else {
        assert(s.skip(0) =~= s);
    }
}

/// A sequence that holds `c` is what precedes its first `c`, then `c`, then
/// what follows; and what precedes holds no `c`.
pub proof fn lemma_split_at_first(s: Seq<char>, c: char)
    requires
        s.contains(c),
    ensures
        s == before_first(s, c) + seq![c] + after_first(s, c),
        !before_first(s, c).contains(c),
    decreases s.len(),
{
    if s[0] == c {
        assert(s =~= Seq::<char>::empty() + seq![c] + s.skip(1));
    } else {
        let t = s.drop_first();
        assert(t.contains(c)) by {
            let k = choose|k: int| 0 <= k < s.len() && s[k] == c;
            assert(t[k - 1] == c);
        }
        lemma_split_at_first(t, c);
        let b = before_first(t, c);
        assert(before_first(s, c) == seq![s[0]] + b);
        assert(s =~= seq![s[0]] + t);
        assert(s.skip(b.len() + 1int + 1) =~= t.skip(b.len() + 1int));
        assert(s =~= before_first(s, c) + seq![c] + after_first(s, c));
        assert(!before_first(s, c).contains(c)) by {
            if before_first(s, c).contains(c) {
                let k = choose|k: int| 0 <= k < before_first(s, c).len() && before_first(s, c)[k] == c;
                assert(k > 0);
                assert(b[k - 1] == c);
            }
        }
    }
}

pub proof fn lemma_lex_irreflexive(a: Seq<char>)
    ensures
        !lex_lt(a, a),
    decreases a.len(),
{
    if a.len() > 0 {
        lemma_lex_irreflexive(a.drop_first());
    }
}

pub proof fn lemma_lex_transitive(a: Seq<char>, b: Seq<char>, c: Seq<char>)
    requires
        lex_lt(a, b),
        lex_lt(b, c),
    ensures
        lex_lt(a, c),
    decreases a.len(),
{
    if a.len() > 0 && b.len() > 0 && c.len() > 0 {
        if a[0] == b[0] && b[0] == c[0] {
            lemma_lex_transitive(a.drop_first(), b.drop_first(), c.drop_first());
        }
    }
}

pub proof fn lemma_lex_total(a: Seq<char>, b: Seq<char>)
    requires
        a != b,
    ensures
        lex_lt(a, b) || lex_lt(b, a),
    decreases a.len(),
{
    if a.len() == 0 {
        if b.len() == 0 {
            assert(a =~= b);
        }
    } else if b.len() > 0 {
        if a[0] == b[0] {
            if a.drop_first() == b.drop_first() {
                assert(a =~= seq![a[0]] + a.drop_first());
                assert(b =~= seq![b[0]] + b.drop_first());
            }
            lemma_lex_total(a.drop_first(), b.drop_first());
        } else {
            assert(a[0] < b[0] || b[0] < a[0]);
        }
    }
}

/// A shared prefix does not change the order.
proof fn lemma_lex_common_prefix(a: Seq<char>, b: Seq<char>, i: int)
    requires
        0 <= i <= a.len(),
        i <= b.len(),
        a.take(i) == b.take(i),
    ensures
        lex_lt(a, b) == lex_lt(a.skip(i), b.skip(i)),
    decreases i,
{
    if i == 0 {
        assert(a.skip(0) =~= a);
        assert(b.skip(0) =~= b);
    } else {
        assert(a[0] == a.take(i)[0]);
        assert(b[0] == b.take(i)[0]);
        assert(a.drop_first().take(i - 1) =~= a.take(i).drop_first());
        assert(b.drop_first().take(i - 1) =~= b.take(i).drop_first());
        lemma_lex_common_prefix(a.drop_first(), b.drop_first(), i - 1);
        assert(a.drop_first().skip(i - 1) =~= a.skip(i));
        assert(b.drop_first().skip(i - 1) =~= b.skip(i));
    }
}

/// Compares two strings in the order `lex_lt`.
pub fn str_lt(a: &str, b: &str) -> (r: bool)
    ensures
        r == lex_lt(a@, b@),
{
    let la = a.unicode_len();
    let lb = b.unicode_len();
    let mut i: usize = 0;
    while i < la && i < lb
        invariant
            la == a@.len(),
            lb == b@.len(),
            i <= la,
            i <= lb,
            a@.take(i as int) == b@.take(i as int),
        decreases la - i,
    {
        let ca = a.get_char(i);
        let cb = b.get_char(i);
        if ca != cb {
            proof {
                lemma_lex_common_prefix(a@, b@, i as int);
                assert(a@.skip(i as int)[0] == ca);
                assert(b@.skip(i as int)[0] == cb);
            }
            return ca < cb;
        }
        assert(a@.take(i + 1) =~= a@.take(i as int).push(ca));
        assert(b@.take(i + 1) =~= b@.take(i as int).push(cb));
        i = i + 1;
    }
    proof {
        lemma_lex_common_prefix(a@, b@, i as int);
    }
    i == la && i < lb
}

/// Character-wise equality of two strings.
pub fn str_eq(a: &str, b: &str) -> (r: bool)
    ensures
        r == (a@ == b@),
{
    let la = a.unicode_len();
    let lb = b.unicode_len();
    if la != lb {
        return false;
    }
    let mut i: usize = 0;
    while i < la
        invariant
            la == a@.len(),
            lb == b@.len(),
            la == lb,
            i <= la,
            forall|k: int| 0 <= k < i ==> a@[k] == b@[k],
        decreases la - i,
    {
        if a.get_char(i) != b.get_char(i) {
            return false;
        }
        i = i + 1;
    }
    assert(a@ =~= b@);
    true
}

/// Whether `s` begins with `prefix`.
pub fn starts_with(s: &str, prefix: &str) -> (r: bool)
    ensures
        r == is_prefix(prefix@, s@),
{
    let ls = s.unicode_len();
    let lp = prefix.unicode_len();
    if lp > ls {
        return false;
    }
    let mut i: usize = 0;
    while i < lp
        invariant
            ls == s@.len(),
            lp == prefix@.len(),
            lp <= ls,
            i <= lp,
            forall|k: int| 0 <= k < i ==> s@[k] == prefix@[k],
        decreases lp - i,
    {
        if s.get_char(i) != prefix.get_char(i) {
            assert(s@.take(lp as int)[i as int] != prefix@[i as int]);
            return false;
        }
        i = i + 1;
    }
    assert(s@.take(lp as int) =~= prefix@);
    true
}

/// Whether `s` ends with `suffix`.
pub fn ends_with(s: &str, suffix: &str) -> (r: bool)
    ensures
        r == is_suffix(suffix@, s@),
{
    let ls = s.unicode_len();
    let lx = suffix.unicode_len();
    if lx > ls {
        return false;
    }
    let off = ls - lx;
    let mut i: usize = 0;
    while i < lx
        invariant
            ls == s@.len(),
            lx == suffix@.len(),
            off == ls - lx,
            i <= lx,
            forall|k: int| 0 <= k < i ==> s@[off + k] == suffix@[k],
        decreases lx - i,
    {
        if s.get_char(off + i) != suffix.get_char(i) {
            assert(s@.skip(off as int)[i as int] != suffix@[i as int]);
            return false;
        }
        i = i + 1;
    }
    assert(s@.skip(off as int) =~= suffix@);
    true
}

proof fn lemma_after_last(s: Seq<char>, c: char, j: int)
    requires
        -1 <= j < s.len(),
        j >= 0 ==> s[j] == c,
        forall|k: int| j < k < s.len() ==> s[k] != c,
    ensures
        after_last(s, c) == s.skip(j + 1),
    decreases s.len(),
{
    if s.len() == 0 {
        assert(s.skip(0) =~= s);
    } else if s.last() == c {
        assert(j == s.len() - 1);
        assert(s.skip(j + 1) =~= Seq::<char>::empty());
    } else {
        lemma_after_last(s.drop_last(), c, j);
        assert(s.drop_last().skip(j + 1).push(s.last()) =~= s.skip(j + 1));
    }
}

/// The part of `s` after its last `sep` (all of `s` when there is none).
pub fn last_segment(s: &str, sep: char) -> (r: &str)
    ensures
        r@ == after_last(s@, sep),
{
    let len = s.unicode_len();
    let mut j: usize = len;
    while j > 0
        invariant
            len == s@.len(),
            j <= len,
            forall|k: int| j <= k < len ==> s@[k] != sep,
        decreases j,
    {
        if s.get_char(j - 1) == sep {
            proof {
                lemma_after_last(s@, sep, j - 1);
            }
            return s.substring_char(j, len);
        }
        j = j - 1;
    }
    proof {
        lemma_after_last(s@, sep, -1);
        assert(s@.subrange(0, len as int) =~= s@);
        assert(s@.skip(0) =~= s@);
    }
    s.substring_char(0, len)
}

proof fn lemma_trim_leading(s: Seq<char>, c: char, i: int)
    requires
        0 <= i <= s.len(),
        forall|k: int| 0 <= k < i ==> s[k] == c,
        i == s.len() || s[i] != c,
    ensures
        trim_leading(s, c) == s.skip(i),
    decreases i,
{
    if i == 0 {
        assert(s.skip(0) =~= s);
    } else {
        assert(s.drop_first().skip(i - 1) =~= s.skip(i));
        lemma_trim_leading(s.drop_first(), c, i - 1);
    }
}

/// `s` with every leading `c` removed.
pub fn trim_start(s: &str, c: char) -> (r: &str)
    ensures
        r@ == trim_leading(s@, c),
{
    let len = s.unicode_len();
    let mut i: usize = 0;
    while i < len && s.get_char(i) == c
        invariant
            len == s@.len(),
            i <= len,
            forall|k: int| 0 <= k < i ==> s@[k] == c,
        decreases len - i,
    {
        i = i + 1;
    }
    proof {
        lemma_trim_leading(s@, c, i as int);
        assert(s@.subrange(i as int, len as int) =~= s@.skip(i as int));
    }
    s.substring_char(i, len)
}

/// At most the first `n` characters of `s`.
pub fn take_chars(s: &str, n: usize) -> (r: &str)
    ensures
        r@ == first_chars(s@, n as nat),
{
    let len = s.unicode_len();
    if len <= n {
        assert(s@.subrange(0, len as int) =~= s@);
        s.substring_char(0, len)
    } else {
        s.substring_char(0, n)
    }
}

/// `s` without `suffix`, when it ends with it.
pub fn strip_suffix<'a>(s: &'a str, suffix: &str) -> (r: Option<&'a str>)
    ensures
        match r {
            Some(stem) => is_suffix(suffix@, s@) && stem@ == s@.take(s@.len() - suffix@.len()),
            None => !is_suffix(suffix@, s@),
        },
{
    if ends_with(s, suffix) {
        let stem = s.substring_char(0, s.unicode_len() - suffix.unicode_len());
        Some(stem)
    } else {
        None
    }
}

/// Splits `s` at its first `sep`: what precedes it and what follows it.
pub fn split_first<'a>(s: &'a str, sep: char) -> (r: Option<(&'a str, &'a str)>)
    ensures
        match r {
            Some((before, after)) => {
                &&& s@ == before@ + seq![sep] + after@
                &&& !before@.contains(sep)
                &&& before@ == before_first(s@, sep)
                &&& after@ == after_first(s@, sep)
            },
            None => !s@.contains(sep),
        },
{
    let len = s.unicode_len();
    let mut i: usize = 0;
    while i < len
        invariant
            len == s@.len(),
            i <= len,
            forall|k: int| 0 <= k < i ==> s@[k] != sep,
        decreases len - i,
    {
        if s.get_char(i) == sep {
            let before = s.substring_char(0, i);
            let after = s.substring_char(i + 1, len);
            assert(s@ =~= before@ + seq![sep] + after@);
            assert(!before@.contains(sep)) by {
                if before@.contains(sep) {
                    let k = choose|k: int| 0 <= k < before@.len() && before@[k] == sep;
                    assert(s@[k] == sep);
                }
            }
            proof {
                lemma_first_split(before@, sep, after@);
            }
            return Some((before, after));
        }
        i = i + 1;
    }
    assert(!s@.contains(sep)) by {
        if s@.contains(sep) {
            let k = choose|k: int| 0 <= k < s@.len() && s@[k] == sep;
            assert(s@[k] != sep);
        }
    }
    None
}

} // verus!
