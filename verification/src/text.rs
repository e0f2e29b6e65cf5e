//! Character-level helpers over `str` views.

use vstd::prelude::*;
use vstd::utf8::{decode_utf8, valid_utf8};

verus! {

broadcast use vstd::string::group_string_axioms;

pub open spec fn is_digit(c: char) -> bool {
    '0' <= c && c <= '9'
}

pub open spec fn digit_value(c: char) -> int {
    c as int - '0' as int
}

pub open spec fn digit_char(d: int) -> char {
    (d + '0' as int) as char
}

/// The value of a run of decimal digits.
pub open spec fn decimal_value(s: Seq<char>) -> int
    decreases s.len(),
{
    if s.len() == 0 {
        0
    } else {
        decimal_value(s.drop_last()) * 10 + digit_value(s.last())
    }
}

pub open spec fn all_digits(s: Seq<char>) -> bool {
    forall|i: int| 0 <= i < s.len() ==> #[trigger] is_digit(s[i])
}

/// The characters that `char::is_whitespace` accepts (Unicode `White_Space`).
pub open spec fn is_ws(c: char) -> bool {
    ||| '\u{9}' <= c <= '\u{d}'
    ||| c == ' '
    ||| c == '\u{85}'
    ||| c == '\u{a0}'
    ||| c == '\u{1680}'
    ||| '\u{2000}' <= c <= '\u{200a}'
    ||| c == '\u{2028}'
    ||| c == '\u{2029}'
    ||| c == '\u{202f}'
    ||| c == '\u{205f}'
    ||| c == '\u{3000}'
}

/// `s` without its leading whitespace.
pub open spec fn trim_start(s: Seq<char>) -> Seq<char>
    decreases s.len(),
{
    if s.len() > 0 && is_ws(s[0]) {
        trim_start(s.drop_first())
    } else {
        s
    }
}

/// `s` without its trailing whitespace.
pub open spec fn trim_end(s: Seq<char>) -> Seq<char>
    decreases s.len(),
{
    if s.len() > 0 && is_ws(s.last()) {
        trim_end(s.drop_last())
    } else {
        s
    }
}

/// `s` without leading or trailing whitespace (as `str::trim`).
pub open spec fn trim(s: Seq<char>) -> Seq<char> {
    trim_end(trim_start(s))
}

/// The maximal runs of non-whitespace characters of `s`, in order (as
/// `str::split_whitespace`).
pub open spec fn words(s: Seq<char>) -> Seq<Seq<char>>
    decreases s.len(),
{
    if s.len() == 0 {
        Seq::<Seq<char>>::empty()
    } else {
        let prev = words(s.drop_last());
        if is_ws(s.last()) {
            prev
        } else if s.len() >= 2 && !is_ws(s[s.len() - 2]) {
            prev.update(prev.len() - 1, prev.last().push(s.last()))
        } else {
            prev.push(seq![s.last()])
        }
    }
}

/// `p` occurs in `s` starting at index `i`.
pub open spec fn occurs_at<A>(s: Seq<A>, p: Seq<A>, i: int) -> bool {
    0 <= i && i + p.len() <= s.len() && s.subrange(i, i + p.len()) == p
}

/// The first index at or after `i` where `p` occurs in `s` (as `str::find`
/// on the text from `i` on, counted from the start of `s`).
pub open spec fn find_from<A>(s: Seq<A>, p: Seq<A>, i: int) -> Option<int>
    decreases s.len() + 1 - i,
    when 0 <= i
{
    if i + p.len() > s.len() {
        None
    } else if occurs_at(s, p, i) {
        Some(i)
    } else {
        find_from(s, p, i + 1)
    }
}

/// The value of an unsigned decimal number as `str::parse::<usize>` reads it:
/// an optional `+`, then one or more digits, no larger than `usize::MAX`.
pub open spec fn spec_parse_usize(s: Seq<char>) -> Option<usize> {
    let d = if s.len() > 0 && s[0] == '+' {
        s.drop_first()
    } else {
        s
    };
    if d.len() > 0 && all_digits(d) && decimal_value(d) <= usize::MAX {
        Some(decimal_value(d) as usize)
    } else {
        None
    }
}

/// The pieces of `s` between occurrences of `sep`, as `str::split` yields
/// them: one more piece than there are separators, empty pieces included.
pub open spec fn split_on<A>(s: Seq<A>, sep: A) -> Seq<Seq<A>>
    decreases s.len(),
{
    if s.len() == 0 {
        seq![Seq::<A>::empty()]
    } else {
        let prev = split_on(s.drop_last(), sep);
        if s.last() == sep {
            prev.push(Seq::<A>::empty())
        } else {
            prev.update(prev.len() - 1, prev.last().push(s.last()))
        }
    }
}

pub proof fn lemma_split_on_nonempty<A>(s: Seq<A>, sep: A)
    ensures
        split_on(s, sep).len() >= 1,
    decreases s.len(),
{
    if s.len() > 0 {
        lemma_split_on_nonempty(s.drop_last(), sep);
    }
}

/// Splitting text that holds no separator gives the text back as the one piece.
pub proof fn lemma_split_on_no_sep(s: Seq<char>, sep: char)
    requires
        !s.contains(sep),
    ensures
        split_on(s, sep) == seq![s],
    decreases s.len(),
{
    if s.len() > 0 {
        assert(!s.drop_last().contains(sep)) by {
            if s.drop_last().contains(sep) {
                let k = choose|k: int| 0 <= k < s.drop_last().len() && s.drop_last()[k] == sep;
                assert(s[k] == sep);
            }
        }
        lemma_split_on_no_sep(s.drop_last(), sep);
        assert(s.last() != sep) by {
            assert(s[s.len() - 1] == s.last());
        }
        assert(s.drop_last().push(s.last()) =~= s);
        assert(seq![s.drop_last()].update(0, s.drop_last().push(s.last())) =~= seq![s]);
    } else {
        assert(s =~= Seq::<char>::empty());
    }
}

/// Splitting `x`, a separator, then `y` gives the pieces of `x` followed by those of `y`.
pub proof fn lemma_split_on_concat(x: Seq<char>, y: Seq<char>, sep: char)
    ensures
        split_on(x + seq![sep] + y, sep) == split_on(x, sep) + split_on(y, sep),
    decreases y.len(),
{
    lemma_split_on_nonempty(x, sep);
    lemma_split_on_nonempty(y, sep);
    if y.len() == 0 {
        assert(x + seq![sep] + y =~= x.push(sep));
        assert((x + seq![sep] + y).drop_last() =~= x);
        assert(split_on(x, sep).push(Seq::<char>::empty()) =~= split_on(x, sep) + split_on(y, sep));
    } else {
        let s = x + seq![sep] + y;
        assert(s.drop_last() =~= x + seq![sep] + y.drop_last());
        lemma_split_on_concat(x, y.drop_last(), sep);
        lemma_split_on_nonempty(y.drop_last(), sep);
        assert(s.last() == y.last());
        let a = split_on(x, sep);
        let b = split_on(y.drop_last(), sep);
        if y.last() == sep {
            assert((a + b).push(Seq::<char>::empty()) =~= a + b.push(Seq::<char>::empty()));
        } else {
            assert((a + b).update((a + b).len() - 1, (a + b).last().push(y.last())) =~= a
                + b.update(b.len() - 1, b.last().push(y.last())));
        }
    }
}

/// The pieces joined back together with `sep` between each two of them.
pub open spec fn join_with(parts: Seq<Seq<char>>, sep: char) -> Seq<char>
    decreases parts.len(),
{
    if parts.len() <= 1 {
        if parts.len() == 1 {
            parts[0]
        } else {
            Seq::<char>::empty()
        }
    } else {
        join_with(parts.drop_last(), sep) + seq![sep] + parts.last()
    }
}

proof fn lemma_join_extend_last(p: Seq<Seq<char>>, sep: char, c: char)
    requires
        p.len() >= 1,
    ensures
        join_with(p.update(p.len() - 1, p.last().push(c)), sep) == join_with(p, sep).push(c),
{
    let q = p.update(p.len() - 1, p.last().push(c));
    if p.len() == 1 {
    } else {
        assert(q.drop_last() =~= p.drop_last());
        assert(join_with(q, sep) =~= join_with(p, sep).push(c));
    }
}

/// Joining the pieces of a split with the same separator gives the text back.
pub proof fn lemma_join_split(s: Seq<char>, sep: char)
    ensures
        join_with(split_on(s, sep), sep) == s,
    decreases s.len(),
{
    if s.len() == 0 {
        assert(join_with(split_on(s, sep), sep) =~= s);
    } else {
        let prev = split_on(s.drop_last(), sep);
        lemma_join_split(s.drop_last(), sep);
        lemma_split_on_nonempty(s.drop_last(), sep);
        if s.last() == sep {
            assert(prev.push(Seq::<char>::empty()).drop_last() =~= prev);
            assert(join_with(prev.push(Seq::<char>::empty()), sep) =~= s);
        } else {
            lemma_join_extend_last(prev, sep, s.last());
            assert(s.drop_last().push(s.last()) =~= s);
        }
    }
}

/// Collects the characters of `s`.
pub fn chars_of(s: &str) -> (v: Vec<char>)
    ensures
        v@ == s@,
{
    let mut v: Vec<char> = Vec::new();
    for c in it: s.chars()
        invariant
            it.seq() == s@,
            v@ == it.seq().take(it.index() as int),
    {
        v.push(c);
    }
    v
}

/// Whether `a` and `b` hold the same characters.
pub fn chars_eq(a: &[char], b: &[char]) -> (r: bool)
    ensures
        r == (a@ == b@),
{
    if a.len() != b.len() {
        return false;
    }
    let mut i: usize = 0;
    while i < a.len()
        invariant
            a.len() == b.len(),
            i <= a.len(),
            forall|k: int| 0 <= k < i ==> a@[k] == b@[k],
        decreases a.len() - i,
    {
        if a[i] != b[i] {
            return false;
        }
        i = i + 1;
    }
    assert(a@ =~= b@);
    true
}

/// Whether `prefix` is a prefix of `s` (as `str::starts_with`).
pub fn chars_starts_with(s: &[char], prefix: &[char]) -> (r: bool)
    ensures
        r == prefix@.is_prefix_of(s@),
{
    if prefix.len() > s.len() {
        return false;
    }
    let mut i: usize = 0;
    while i < prefix.len()
        invariant
            prefix.len() <= s.len(),
            i <= prefix.len(),
            forall|k: int| 0 <= k < i ==> prefix@[k] == s@[k],
        decreases prefix.len() - i,
    {
        if prefix[i] != s[i] {
            assert(prefix@ != s@.take(prefix.len() as int)) by {
                assert(prefix@[i as int] != s@.take(prefix.len() as int)[i as int]);
            }
            return false;
        }
        i = i + 1;
    }
    assert(prefix@ =~= s@.take(prefix.len() as int));
    true
}

/// Whether `suffix` is a suffix of `s` (as `str::ends_with`).
pub fn chars_ends_with(s: &[char], suffix: &[char]) -> (r: bool)
    ensures
        r == suffix@.is_suffix_of(s@),
{
    if suffix.len() > s.len() {
        return false;
    }
    let off = s.len() - suffix.len();
    let mut i: usize = 0;
    while i < suffix.len()
        invariant
            suffix.len() <= s.len(),
            off == s.len() - suffix.len(),
            i <= suffix.len(),
            forall|k: int| 0 <= k < i ==> suffix@[k] == s@[off + k],
        decreases suffix.len() - i,
    {
        if suffix[i] != s[off + i] {
            assert(suffix@ != s@.subrange(off as int, s.len() as int)) by {
                assert(suffix@[i as int] != s@.subrange(off as int, s.len() as int)[i as int]);
            }
            return false;
        }
        i = i + 1;
    }
    assert(suffix@ =~= s@.subrange(off as int, s.len() as int));
    true
}

/// The pieces of `s` between occurrences of `sep` (as `str::split`).
pub fn split_chars(s: &Vec<char>, sep: char) -> (parts: Vec<Vec<char>>)
    ensures
        parts.len() == split_on(s@, sep).len(),
        forall|i: int| 0 <= i < parts.len() ==> #[trigger] parts[i]@ == split_on(s@, sep)[i],
{
    let mut parts: Vec<Vec<char>> = Vec::new();
    let mut cur: Vec<char> = Vec::new();
    let mut i: usize = 0;
    while i < s.len()
        invariant
            i <= s.len(),
            parts.len() + 1 == split_on(s@.take(i as int), sep).len(),
            forall|k: int| 0 <= k < parts.len() ==> #[trigger] parts[k]@ == split_on(s@.take(i as int), sep)[k],
            cur@ == split_on(s@.take(i as int), sep).last(),
        decreases s.len() - i,
    {
        proof {
            lemma_split_on_nonempty(s@.take(i as int), sep);
            assert(s@.take(i + 1).drop_last() =~= s@.take(i as int));
            assert(s@.take(i + 1).last() == s@[i as int]);
        }
        if s[i] == sep {
            parts.push(cur);
            cur = Vec::new();
        } else {
            cur.push(s[i]);
        }
        i = i + 1;
    }
    proof {
        assert(s@.take(s.len() as int) =~= s@);
    }
    parts.push(cur);
    parts
}


/// Whether `c` is whitespace (as `char::is_whitespace`).
pub fn is_whitespace(c: char) -> (r: bool)
    ensures
        r == is_ws(c),
{
    ('\u{9}' <= c && c <= '\u{d}') || c == ' ' || c == '\u{85}' || c == '\u{a0}' || c == '\u{1680}'
        || ('\u{2000}' <= c && c <= '\u{200a}') || c == '\u{2028}' || c == '\u{2029}' || c
        == '\u{202f}' || c == '\u{205f}' || c == '\u{3000}'
}

proof fn lemma_trim_start_skip(s: Seq<char>, k: int)
    requires
        0 <= k <= s.len(),
        forall|j: int| 0 <= j < k ==> #[trigger] is_ws(s[j]),
        k == s.len() || !is_ws(s[k]),
    ensures
        trim_start(s) == s.skip(k),
    decreases k,
{
    if k == 0 {
        assert(s.skip(0) =~= s);
    } else {
        assert(is_ws(s[0]));
        let t = s.drop_first();
        assert forall|j: int| 0 <= j < k - 1 implies #[trigger] is_ws(t[j]) by {
            assert(is_ws(s[j + 1]));
        }
        lemma_trim_start_skip(t, k - 1);
        assert(t.skip(k - 1) =~= s.skip(k));
    }
}

proof fn lemma_trim_end_take(s: Seq<char>, m: int)
    requires
        0 <= m <= s.len(),
        forall|j: int| m <= j < s.len() ==> #[trigger] is_ws(s[j]),
        m == 0 || !is_ws(s[m - 1]),
    ensures
        trim_end(s) == s.take(m),
    decreases s.len() - m,
{
    if m == s.len() {
        assert(s.take(m) =~= s);
        if s.len() > 0 {
            assert(s.last() == s[m - 1]);
        }
    } else {
        assert(is_ws(s[s.len() - 1]));
        let t = s.drop_last();
        assert forall|j: int| m <= j < t.len() implies #[trigger] is_ws(t[j]) by {
            assert(is_ws(s[j]));
        }
        lemma_trim_end_take(t, m);
        assert(t.take(m) =~= s.take(m));
    }
}

/// `s` without leading or trailing whitespace (as `str::trim`).
pub fn trim_str(s: &str) -> (r: &str)
    ensures
        r@ == trim(s@),
{
    let cs = chars_of(s);
    let n = cs.len();
    let mut k: usize = 0;
    while k < n && is_whitespace(cs[k])
        invariant
            n == cs.len(),
            cs@ == s@,
            k <= n,
            forall|j: int| 0 <= j < k ==> #[trigger] is_ws(cs@[j]),
        decreases n - k,
    {
        k = k + 1;
    }
    proof {
        lemma_trim_start_skip(s@, k as int);
    }
    let mut m: usize = n;
    while m > k && is_whitespace(cs[m - 1])
        invariant
            n == cs.len(),
            cs@ == s@,
            k <= m <= n,
            forall|j: int| m <= j < n ==> #[trigger] is_ws(cs@[j]),
        decreases m,
    {
        m = m - 1;
    }
    proof {
        let t = s@.skip(k as int);
        assert forall|j: int| m - k <= j < t.len() implies #[trigger] is_ws(t[j]) by {
            assert(is_ws(cs@[j + k]));
        }
        if m > k {
            assert(t[m - k - 1] == cs@[m - 1]);
        }
        lemma_trim_end_take(t, m - k);
        assert(t.take(m - k) =~= s@.subrange(k as int, m as int));
    }
    s.substring_char(k, m)
}

/// `s` without trailing whitespace (as `str::trim_end`).
pub fn trim_end_str(s: &str) -> (r: &str)
    ensures
        r@ == trim_end(s@),
{
    let cs = chars_of(s);
    let n = cs.len();
    let mut m: usize = n;
    while m > 0 && is_whitespace(cs[m - 1])
        invariant
            n == cs.len(),
            cs@ == s@,
            m <= n,
            forall|j: int| m <= j < n ==> #[trigger] is_ws(cs@[j]),
        decreases m,
    {
        m = m - 1;
    }
    proof {
        lemma_trim_end_take(s@, m as int);
    }
    s.substring_char(0, m)
}

/// What `find_from` finds is an occurrence at or after `i`, and the first one.
pub proof fn lemma_find_from_bounds<A>(s: Seq<A>, p: Seq<A>, i: int)
    requires
        0 <= i,
    ensures
        find_from(s, p, i) matches Some(k) ==> i <= k && occurs_at(s, p, k) && k + p.len() <= s.len()
            && forall|j: int| i <= j < k ==> !#[trigger] occurs_at(s, p, j),
        find_from(s, p, i) is None ==> forall|j: int| i <= j ==> !#[trigger] occurs_at(s, p, j),
    decreases s.len() + 1 - i,
{
    if i + p.len() > s.len() {
    } else if occurs_at(s, p, i) {
    } else {
        lemma_find_from_bounds(s, p, i + 1);
    }
}

/// The first occurrence at or after `i` is what `find_from` finds.
pub proof fn lemma_find_from_first<A>(s: Seq<A>, p: Seq<A>, i: int, k: int)
    requires
        0 <= i <= k,
        occurs_at(s, p, k),
        forall|j: int| i <= j < k ==> !#[trigger] occurs_at(s, p, j),
    ensures
        find_from(s, p, i) == Some(k),
    decreases k - i,
{
    if i < k {
        assert(!occurs_at(s, p, i));
        lemma_find_from_first(s, p, i + 1, k);
    }
}

proof fn lemma_find_from_step<A>(s: Seq<A>, p: Seq<A>, i: int)
    requires
        0 <= i,
        i + p.len() <= s.len(),
        !occurs_at(s, p, i),
    ensures
        find_from(s, p, i) == find_from(s, p, i + 1),
{
}

/// The first index at or after `from` where `p` occurs in `s`.
pub fn find_chars(s: &[char], p: &[char], from: usize) -> (r: Option<usize>)
    requires
        from <= s.len(),
    ensures
        match r {
            Some(i) => find_from(s@, p@, from as int) == Some(i as int),
            None => find_from(s@, p@, from as int) is None,
        },
{
    if p.len() > s.len() {
        return None;
    }
    let last = s.len() - p.len();
    let mut i = from;
    while i <= last
        invariant
            from <= i,
            last == s.len() - p.len(),
            p.len() <= s.len(),
            find_from(s@, p@, from as int) == find_from(s@, p@, i as int),
        decreases last + 1 - i,
    {
        let mut j: usize = 0;
        let mut ok = true;
        while j < p.len()
            invariant
                i + p.len() <= s.len(),
                j <= p.len(),
                ok ==> forall|k: int| 0 <= k < j ==> p@[k] == s@[i + k],
                !ok ==> !occurs_at(s@, p@, i as int),
            decreases p.len() - j,
        {
            if p[j] != s[i + j] {
                if ok {
                    assert(s@.subrange(i as int, i + p.len())[j as int] != p@[j as int]);
                }
                ok = false;
            }
            j = j + 1;
        }
        if ok {
            assert(s@.subrange(i as int, i + p.len()) =~= p@);
            return Some(i);
        }
        proof {
            lemma_find_from_step(s@, p@, i as int);
        }
        if i == last {
            return None;
        }
        i = i + 1;
    }
    None
}

/// The first index at or after `from` where `p` occurs in the bytes `s`.
pub fn find_bytes(s: &[u8], p: &[u8], from: usize) -> (r: Option<usize>)
    requires
        from <= s.len(),
    ensures
        match r {
            Some(i) => find_from(s@, p@, from as int) == Some(i as int),
            None => find_from(s@, p@, from as int) is None,
        },
{
    if p.len() > s.len() {
        return None;
    }
    let last = s.len() - p.len();
    let mut i = from;
    while i <= last
        invariant
            from <= i,
            last == s.len() - p.len(),
            p.len() <= s.len(),
            find_from(s@, p@, from as int) == find_from(s@, p@, i as int),
        decreases last + 1 - i,
    {
        let mut j: usize = 0;
        let mut ok = true;
        while j < p.len()
            invariant
                i + p.len() <= s.len(),
                j <= p.len(),
                ok ==> forall|k: int| 0 <= k < j ==> p@[k] == s@[i + k],
                !ok ==> !occurs_at(s@, p@, i as int),
            decreases p.len() - j,
        {
            if p[j] != s[i + j] {
                if ok {
                    assert(s@.subrange(i as int, i + p.len())[j as int] != p@[j as int]);
                }
                ok = false;
            }
            j = j + 1;
        }
        if ok {
            assert(s@.subrange(i as int, i + p.len()) =~= p@);
            return Some(i);
        }
        proof {
            lemma_find_from_step(s@, p@, i as int);
        }
        if i == last {
            return None;
        }
        i = i + 1;
    }
    None
}

/// The first index at or after `from` where `c` occurs in `s`.
pub fn find_char(s: &[char], c: char, from: usize) -> (r: Option<usize>)
    requires
        from <= s.len(),
    ensures
        match r {
            Some(i) => find_from(s@, seq![c], from as int) == Some(i as int),
            None => find_from(s@, seq![c], from as int) is None,
        },
{
    let mut i = from;
    while i < s.len()
        invariant
            from <= i <= s.len(),
            find_from(s@, seq![c], from as int) == find_from(s@, seq![c], i as int),
        decreases s.len() - i,
    {
        if s[i] == c {
            assert(s@.subrange(i as int, i + 1) =~= seq![c]);
            return Some(i);
        }
        assert(s@.subrange(i as int, i + 1)[0] != c);
        i = i + 1;
    }
    None
}

/// The whitespace-separated words of `s` (as `str::split_whitespace`).
pub fn split_whitespace(s: &str) -> (r: Vec<&str>)
    ensures
        r.len() == words(s@).len(),
        forall|k: int| 0 <= k < r.len() ==> #[trigger] r[k]@ == words(s@)[k],
{
    let cs = chars_of(s);
    let n = cs.len();
    let mut ranges: Vec<(usize, usize)> = Vec::new();
    let mut i: usize = 0;
    while i < n
        invariant
            n == cs.len(),
            cs@ == s@,
            i <= n,
            ranges.len() == words(s@.take(i as int)).len(),
            forall|k: int|
                0 <= k < ranges.len() ==> (#[trigger] ranges[k]).0 <= ranges[k].1 <= i && s@.subrange(
                    ranges[k].0 as int,
                    ranges[k].1 as int,
                ) == words(s@.take(i as int))[k],
            i > 0 && !is_ws(s@[i - 1]) ==> ranges.len() > 0 && ranges[ranges.len() - 1].1 == i,
        decreases n - i,
    {
        let ghost prev = words(s@.take(i as int));
        assert(s@.take(i + 1).drop_last() =~= s@.take(i as int));
        assert(s@.take(i + 1).last() == s@[i as int]);
        let c = cs[i];
        if is_whitespace(c) {
        } else if i > 0 && !is_whitespace(cs[i - 1]) {
            assert(s@.take(i + 1)[i - 1] == s@[i - 1]);
            let last = ranges.len() - 1;
            let (a, b) = ranges[last];
            ranges.set(last, (a, i + 1));
            assert(s@.subrange(a as int, i + 1) =~= s@.subrange(a as int, i as int).push(c));
        } else {
            if i > 0 {
                assert(s@.take(i + 1)[i - 1] == s@[i - 1]);
            }
            ranges.push((i, i + 1));
            assert(s@.subrange(i as int, i + 1) =~= seq![c]);
        }
        i = i + 1;
    }
    assert(s@.take(n as int) =~= s@);
    let mut r: Vec<&str> = Vec::new();
    let mut k: usize = 0;
    while k < ranges.len()
        invariant
            k <= ranges.len(),
            r.len() == k,
            ranges.len() == words(s@).len(),
            forall|q: int|
                0 <= q < ranges.len() ==> (#[trigger] ranges[q]).0 <= ranges[q].1 <= s@.len() && s@.subrange(
                    ranges[q].0 as int,
                    ranges[q].1 as int,
                ) == words(s@)[q],
            forall|q: int| 0 <= q < k ==> #[trigger] r[q]@ == words(s@)[q],
        decreases ranges.len() - k,
    {
        let (a, b) = ranges[k];
        r.push(s.substring_char(a, b));
        k = k + 1;
    }
    r
}

/// Parses an unsigned decimal number (as `str::parse::<usize>`).
pub fn parse_usize(s: &str) -> (r: Option<usize>)
    ensures
        r == spec_parse_usize(s@),
{
    let cs = chars_of(s);
    let start: usize = if cs.len() > 0 && cs[0] == '+' {
        1
    } else {
        0
    };
    let ghost d = if s@.len() > 0 && s@[0] == '+' {
        s@.drop_first()
    } else {
        s@
    };
    assert(d =~= s@.skip(start as int));
    if start >= cs.len() {
        return None;
    }
    let mut value: usize = 0;
    let mut i = start;
    while i < cs.len()
        invariant
            cs@ == s@,
            start <= i <= cs.len(),
            d == s@.skip(start as int),
            d == (if s@.len() > 0 && s@[0] == '+' {
                s@.drop_first()
            } else {
                s@
            }),
            start < cs.len(),
            all_digits(s@.subrange(start as int, i as int)),
            value == decimal_value(s@.subrange(start as int, i as int)),
        decreases cs.len() - i,
    {
        let c = cs[i];
        assert(s@.subrange(start as int, i + 1).drop_last() =~= s@.subrange(start as int, i as int));
        if !('0' <= c && c <= '9') {
            assert(d[i - start] == s@[i as int]);
            assert(!is_digit(d[i - start]));
            return None;
        }
        let dv = (c as u32 - '0' as u32) as usize;
        if value > (usize::MAX - dv) / 10 {
            proof {
                let pre = s@.subrange(start as int, i + 1);
                assert(pre.last() == c);
                assert(decimal_value(pre) == value * 10 + dv);
                assert(value * 10 + dv > usize::MAX) by (nonlinear_arith)
                    requires
                        value > (usize::MAX - dv) / 10,
                        dv <= 9,
                ;
                if all_digits(d) {
                    assert(pre.is_prefix_of(d)) by {
                        assert(d.take(pre.len() as int) =~= pre);
                    }
                    lemma_decimal_value_grows(pre, d);
                }
            }
            return None;
        }
        value = value * 10 + dv;
        i = i + 1;
        proof {
            assert forall|k: int| 0 <= k < i - start implies #[trigger] is_digit(
                s@.subrange(start as int, i as int)[k],
            ) by {
                if k < i - 1 - start {
                    assert(s@.subrange(start as int, i as int)[k] == s@.subrange(
                        start as int,
                        i - 1,
                    )[k]);
                }
            }
        }
    }
    assert(s@.subrange(start as int, cs.len() as int) =~= d);
    Some(value)
}

/// Extending a run of digits never lowers its value.
proof fn lemma_decimal_value_grows(pre: Seq<char>, whole: Seq<char>)
    requires
        pre.is_prefix_of(whole),
        all_digits(whole),
    ensures
        decimal_value(pre) <= decimal_value(whole),
    decreases whole.len(),
{
    if whole.len() > pre.len() {
        let w = whole.drop_last();
        assert(pre.is_prefix_of(w)) by {
            assert(w.take(pre.len() as int) =~= whole.take(pre.len() as int));
        }
        assert(all_digits(w)) by {
            assert forall|i: int| 0 <= i < w.len() implies #[trigger] is_digit(w[i]) by {
                assert(is_digit(whole[i]));
            }
        }
        lemma_decimal_value_grows(pre, w);
        lemma_decimal_value_nonneg(w);
        assert(is_digit(whole[whole.len() - 1]));
    } else {
        assert(pre =~= whole);
    }
}

pub proof fn lemma_decimal_value_nonneg(s: Seq<char>)
    requires
        all_digits(s),
    ensures
        decimal_value(s) >= 0,
    decreases s.len(),
{
    if s.len() > 0 {
        assert(all_digits(s.drop_last())) by {
            assert forall|i: int| 0 <= i < s.drop_last().len() implies #[trigger] is_digit(
                s.drop_last()[i],
            ) by {
                assert(is_digit(s[i]));
            }
        }
        lemma_decimal_value_nonneg(s.drop_last());
        assert(is_digit(s[s.len() - 1]));
    }
}

/// Appends `c` to `s` (`String::push`).
#[verifier::external_body]
pub(crate) fn push_char(s: &mut String, c: char)
    ensures
        final(s)@ == old(s)@.push(c),
{
    s.push(c)
}

/// Decodes UTF-8 bytes (`String::from_utf8`): text exactly when the bytes
/// are valid UTF-8.
#[verifier::external_body]
pub(crate) fn utf8_string(bytes: Vec<u8>) -> (r: Option<String>)
    ensures
        r is Some <==> valid_utf8(bytes@),
        r matches Some(t) ==> t@ == decode_utf8(bytes@),
{
    String::from_utf8(bytes).ok()
}

/// Unicode lowercase of a text, as `str::to_lowercase` computes it (the
/// Unicode `Lowercase` mapping of each character).
pub uninterp spec fn lowercase(s: Seq<char>) -> Seq<char>;

/// The lowercase form of `s` (`str::to_lowercase`); on ASCII text only the
/// letters `A` to `Z` change, to `a` to `z`.
#[verifier::external_body]
pub(crate) fn to_lowercase(s: &str) -> (r: String)
    ensures
        r@ == lowercase(s@),
        vstd::utf8::is_ascii_chars(s@) ==> r@ == s@.map_values(|c: char| ascii_lower(c)),
{
    s.to_lowercase()
}

pub open spec fn ascii_lower(c: char) -> char {
    if 'A' <= c <= 'Z' {
        ((c as int) + 32) as char
    } else {
        c
    }
}

/// `a` and `b` are equal when ASCII letters are compared without case (as
/// `str::eq_ignore_ascii_case`).
pub open spec fn eq_ignore_ascii_case(a: Seq<char>, b: Seq<char>) -> bool {
    a.len() == b.len() && forall|i: int| 0 <= i < a.len() ==> ascii_lower(#[trigger] a[i]) == ascii_lower(b[i])
}

fn to_ascii_lower(c: char) -> (r: char)
    ensures
        r == ascii_lower(c),
{
    if 'A' <= c && c <= 'Z' {
        let v = (c as u32) + 32;
        assert(v == c as int + 32);
        proof {
            assert((c as int + 32) as char as int == c as int + 32);
        }
        char_from_ascii(v as u8)
    } else {
        c
    }
}

/// The ASCII character with code `b`.
fn char_from_ascii(b: u8) -> (c: char)
    requires
        b < 128,
    ensures
        c as int == b as int,
{
    b as char
}

pub fn chars_eq_ignore_ascii_case(a: &[char], b: &[char]) -> (r: bool)
    ensures
        r == eq_ignore_ascii_case(a@, b@),
{
    if a.len() != b.len() {
        return false;
    }
    let mut i: usize = 0;
    while i < a.len()
        invariant
            a.len() == b.len(),
            i <= a.len(),
            forall|k: int| 0 <= k < i ==> ascii_lower(#[trigger] a@[k]) == ascii_lower(b@[k]),
        decreases a.len() - i,
    {
        if to_ascii_lower(a[i]) != to_ascii_lower(b[i]) {
            return false;
        }
        i = i + 1;
    }
    true
}

/// The index of the last `c` in `s`.
pub open spec fn last_index_of(s: Seq<char>, c: char) -> Option<int>
    decreases s.len(),
{
    if s.len() == 0 {
        None
    } else if s.last() == c {
        Some(s.len() - 1)
    } else {
        last_index_of(s.drop_last(), c)
    }
}

pub fn rfind_char(s: &[char], c: char) -> (r: Option<usize>)
    ensures
        match r {
            Some(i) => last_index_of(s@, c) == Some(i as int) && i < s.len(),
            None => last_index_of(s@, c) is None,
        },
{
    let mut m = s.len();
    assert(s@.take(m as int) =~= s@);
    while m > 0
        invariant
            m <= s.len(),
            last_index_of(s@, c) == last_index_of(s@.take(m as int), c),
        decreases m,
    {
        assert(s@.take(m as int).drop_last() =~= s@.take(m - 1));
        assert(s@.take(m as int).last() == s@[m - 1]);
        if s[m - 1] == c {
            return Some(m - 1);
        }
        m = m - 1;
    }
    None
}

/// Splitting at the first `sep` of `s`, found at `i`.
pub proof fn lemma_split_at_first(s: Seq<char>, sep: char, i: int)
    requires
        0 <= i < s.len(),
        s[i] == sep,
        !s.take(i).contains(sep),
    ensures
        split_on(s, sep) == seq![s.take(i)] + split_on(s.skip(i + 1), sep),
{
    assert(s =~= s.take(i) + seq![sep] + s.skip(i + 1));
    lemma_split_on_concat(s.take(i), s.skip(i + 1), sep);
    lemma_split_on_no_sep(s.take(i), sep);
}

proof fn lemma_find_char_first(s: Seq<char>, c: char, i: int)
    requires
        find_from(s, seq![c], 0) == Some(i),
    ensures
        0 <= i < s.len(),
        s[i] == c,
        !s.take(i).contains(c),
{
    lemma_find_from_bounds(s, seq![c], 0);
    assert(s.subrange(i, i + 1)[0] == s[i]);
    if s.take(i).contains(c) {
        let k = choose|k: int| 0 <= k < s.take(i).len() && s.take(i)[k] == c;
        assert(s.subrange(k, k + 1) =~= seq![c]);
        assert(occurs_at(s, seq![c], k));
    }
}

proof fn lemma_find_char_none(s: Seq<char>, c: char)
    requires
        find_from(s, seq![c], 0) is None,
    ensures
        !s.contains(c),
{
    lemma_find_from_bounds(s, seq![c], 0);
    if s.contains(c) {
        let k = choose|k: int| 0 <= k < s.len() && s[k] == c;
        assert(s.subrange(k, k + 1) =~= seq![c]);
        assert(occurs_at(s, seq![c], k));
    }
}

/// The first piece of `s` split on `sep` (`s.split(sep).next()`).
pub fn first_piece<'a>(s: &'a str, sep: char) -> (r: &'a str)
    ensures
        r@ == split_on(s@, sep)[0],
{
    let cs = chars_of(s);
    match find_char(cs.as_slice(), sep, 0) {
        Some(i) => {
            proof {
                lemma_find_char_first(s@, sep, i as int);
                lemma_split_at_first(s@, sep, i as int);
            }
            s.substring_char(0, i)
        },
        None => {
            proof {
                lemma_find_char_none(s@, sep);
                lemma_split_on_no_sep(s@, sep);
                assert(s@.subrange(0, s@.len() as int) =~= s@);
            }
            s.substring_char(0, cs.len())
        },
    }
}

/// The second piece of `s` split on `sep` (`s.split(sep).nth(1)`).
pub fn second_piece<'a>(s: &'a str, sep: char) -> (r: Option<&'a str>)
    ensures
        match r {
            Some(p) => split_on(s@, sep).len() > 1 && p@ == split_on(s@, sep)[1],
            None => split_on(s@, sep).len() <= 1,
        },
{
    let cs = chars_of(s);
    match find_char(cs.as_slice(), sep, 0) {
        Some(i) => {
            proof {
                lemma_find_char_first(s@, sep, i as int);
                lemma_split_at_first(s@, sep, i as int);
                lemma_split_on_nonempty(s@.skip(i + 1), sep);
            }
            let rest = s.substring_char(i + 1, cs.len());
            assert(rest@ =~= s@.skip(i + 1));
            Some(first_piece(rest, sep))
        },
        None => {
            proof {
                lemma_find_char_none(s@, sep);
                lemma_split_on_no_sep(s@, sep);
            }
            None
        },
    }
}

} // verus!
