//! Character and string helpers: whitespace trimming, lexicographic order,
//! prefix tests and line splitting, each with an exact specification.

use vstd::prelude::*;

verus! {

/// The Unicode `White_Space` characters, the set that `str::trim` removes.
pub open spec fn is_ws_char(c: char) -> bool {
    c == '\t' || c == '\n' || c == '\u{0B}' || c == '\u{0C}' || c == '\r' || c == ' '
        || c == '\u{85}' || c == '\u{A0}' || c == '\u{1680}' || c == '\u{2000}'
        || c == '\u{2001}' || c == '\u{2002}' || c == '\u{2003}' || c == '\u{2004}'
        || c == '\u{2005}' || c == '\u{2006}' || c == '\u{2007}' || c == '\u{2008}'
        || c == '\u{2009}' || c == '\u{200A}' || c == '\u{2028}' || c == '\u{2029}'
        || c == '\u{202F}' || c == '\u{205F}' || c == '\u{3000}'
}

pub fn is_ws(c: char) -> (r: bool)
    ensures
        r == is_ws_char(c),
{
    c == '\t' || c == '\n' || c == '\u{0B}' || c == '\u{0C}' || c == '\r' || c == ' '
        || c == '\u{85}' || c == '\u{A0}' || c == '\u{1680}' || c == '\u{2000}'
        || c == '\u{2001}' || c == '\u{2002}' || c == '\u{2003}' || c == '\u{2004}'
        || c == '\u{2005}' || c == '\u{2006}' || c == '\u{2007}' || c == '\u{2008}'
        || c == '\u{2009}' || c == '\u{200A}' || c == '\u{2028}' || c == '\u{2029}'
        || c == '\u{202F}' || c == '\u{205F}' || c == '\u{3000}'
}

/// `s` with trailing whitespace removed.
pub open spec fn spec_trim_end(s: Seq<char>) -> Seq<char>
    decreases s.len(),
{
    if s.len() > 0 && is_ws_char(s.last()) {
        spec_trim_end(s.drop_last())
    } else {
        s
    }
}

/// `s` with leading whitespace removed.
pub open spec fn spec_trim_start(s: Seq<char>) -> Seq<char>
    decreases s.len(),
{
    if s.len() > 0 && is_ws_char(s.first()) {
        spec_trim_start(s.drop_first())
    } else {
        s
    }
}

/// `s` with whitespace removed from both ends.
pub open spec fn spec_trim(s: Seq<char>) -> Seq<char> {
    spec_trim_start(spec_trim_end(s))
}

proof fn lemma_trim_end_subrange(s: Seq<char>, j: int)
    requires
        0 <= j <= s.len(),
        forall|k: int| j <= k < s.len() ==> is_ws_char(s[k]),
        j > 0 ==> !is_ws_char(s[j - 1]),
    ensures
        spec_trim_end(s) == s.subrange(0, j),
    decreases s.len(),
{
    if s.len() == j {
        assert(s.subrange(0, j) =~= s);
    } else {
        assert(is_ws_char(s.last()));
        assert(s.drop_last() =~= s.subrange(0, s.len() - 1));
        lemma_trim_end_subrange(s.drop_last(), j);
        assert(s.drop_last().subrange(0, j) =~= s.subrange(0, j));
    }
}

proof fn lemma_trim_start_subrange(s: Seq<char>, i: int)
    requires
        0 <= i <= s.len(),
        forall|k: int| 0 <= k < i ==> is_ws_char(s[k]),
        i < s.len() ==> !is_ws_char(s[i]),
    ensures
        spec_trim_start(s) == s.subrange(i, s.len() as int),
    decreases i,
{
    if i == 0 {
        assert(s.subrange(0, s.len() as int) =~= s);
    } else {
        assert(is_ws_char(s.first()));
        let t = s.drop_first();
        assert(t =~= s.subrange(1, s.len() as int));
        lemma_trim_start_subrange(t, i - 1);
        assert(t.subrange(i - 1, t.len() as int) =~= s.subrange(i, s.len() as int));
    }
}

/// Remove whitespace from both ends of `s`, as `str::trim` does.
pub fn trim(s: &str) -> (r: &str)
    ensures
        r@ == spec_trim(s@),
{
    let n: usize = s.unicode_len();
    let mut end: usize = n;
    while end > 0 && is_ws(s.get_char(end - 1))
        invariant
            end <= n,
            n == s@.len(),
            forall|k: int| end <= k < n ==> is_ws_char(s@[k]),
        decreases end,
    {
        end = end - 1;
    }
    proof {
        lemma_trim_end_subrange(s@, end as int);
    }
    let ghost te = spec_trim_end(s@);
    let mut start: usize = 0;
    while start < end && is_ws(s.get_char(start))
        invariant
            start <= end <= n,
            n == s@.len(),
            te == s@.subrange(0, end as int),
            forall|k: int| 0 <= k < start ==> is_ws_char(s@[k]),
        decreases end - start,
    {
        start = start + 1;
    }
    proof {
        assert(forall|k: int| 0 <= k < start ==> is_ws_char(te[k]));
        assert(start < end ==> !is_ws_char(te[start as int]));
        lemma_trim_start_subrange(te, start as int);
        assert(te.subrange(start as int, te.len() as int) =~= s@.subrange(
            start as int,
            end as int,
        ));
    }
    s.substring_char(start, end)
}

/// Lexicographic order on character sequences, by code point; the order in
/// which accumulated languages are emitted, matching byte order on UTF-8.
pub open spec fn lex_lt(a: Seq<char>, b: Seq<char>) -> bool
    decreases a.len(),
{
    if b.len() == 0 {
        false
    } else if a.len() == 0 {
        true
    } else if (a[0] as int) < (b[0] as int) {
        true
    } else if (a[0] as int) > (b[0] as int) {
        false
    } else {
        lex_lt(a.drop_first(), b.drop_first())
    }
}

pub proof fn lemma_lex_trichotomy(a: Seq<char>, b: Seq<char>)
    ensures
        lex_lt(a, b) || lex_lt(b, a) || a == b,
        lex_lt(a, b) ==> !lex_lt(b, a) && a != b,
        lex_lt(b, a) ==> !lex_lt(a, b) && a != b,
    decreases a.len() + b.len(),
{
    if a.len() == 0 && b.len() == 0 {
        assert(a =~= b);
    } else if a.len() > 0 && b.len() > 0 {
        if a[0] == b[0] {
            lemma_lex_trichotomy(a.drop_first(), b.drop_first());
            if a.drop_first() == b.drop_first() {
                assert forall|k: int| 0 <= k < a.len() implies a[k] == b[k] by {
                    if k > 0 {
                        assert(a[k] == a.drop_first()[k - 1]);
                        assert(b[k] == b.drop_first()[k - 1]);
                    }
                }
                assert(a =~= b);
            }
            if a == b {
                assert(a.drop_first() =~= b.drop_first());
            }
        }
    }
}

pub proof fn lemma_lex_transitive(a: Seq<char>, b: Seq<char>, c: Seq<char>)
    requires
        lex_lt(a, b),
        lex_lt(b, c),
    ensures
        lex_lt(a, c),
    decreases a.len(),
{
    if a.len() > 0 && b.len() > 0 && c.len() > 0 {
        if a[0] == b[0] && b[0] == c[0] {
            lemma_lex_transitive(a.drop_first(), b.drop_first(), c.drop_first());
        }
    }
}

proof fn lemma_lex_skip(a: Seq<char>, b: Seq<char>, i: int)
    requires
        0 <= i <= a.len(),
        i <= b.len(),
        forall|j: int| 0 <= j < i ==> a[j] == b[j],
    ensures
        lex_lt(a, b) == lex_lt(a.skip(i), b.skip(i)),
    decreases i,
{
    if i > 0 {
        assert(a.len() > 0 && b.len() > 0);
        assert(a[0] == b[0]);
        lemma_lex_skip(a.drop_first(), b.drop_first(), i - 1);
        assert(a.drop_first().skip(i - 1) =~= a.skip(i));
        assert(b.drop_first().skip(i - 1) =~= b.skip(i));
    } else {
        assert(a.skip(0) =~= a);
        assert(b.skip(0) =~= b);
    }
}

/// Whether `a` comes strictly before `b` in lexicographic order.
pub fn str_lt(a: &str, b: &str) -> (r: bool)
    ensures
        r == lex_lt(a@, b@),
{
    let an: usize = a.unicode_len();
    let bn: usize = b.unicode_len();
    let mut i: usize = 0;
    loop
        invariant
            i <= an,
            i <= bn,
            an == a@.len(),
            bn == b@.len(),
            forall|j: int| 0 <= j < i ==> a@[j] == b@[j],
        decreases an - i,
    {
        proof {
            lemma_lex_skip(a@, b@, i as int);
        }
        if i >= an || i >= bn {
            proof {
                assert(a@.skip(i as int).len() == an - i);
                assert(b@.skip(i as int).len() == bn - i);
            }
            return an < bn;
        }
        let ca = a.get_char(i);
        let cb = b.get_char(i);
        if (ca as u32) < (cb as u32) {
            proof {
                assert(a@.skip(i as int)[0] == ca);
                assert(b@.skip(i as int)[0] == cb);
            }
            return true;
        }
        if (ca as u32) > (cb as u32) {
            proof {
                assert(a@.skip(i as int)[0] == ca);
                assert(b@.skip(i as int)[0] == cb);
            }
            return false;
        }
        proof {
            assert(ca == cb);
            assert(a@[i as int] == b@[i as int]);
        }
        i = i + 1;
    }
}

/// Whether `a` and `b` hold the same characters.
pub fn str_eq(a: &str, b: &str) -> (r: bool)
    ensures
        r == (a@ == b@),
{
    let an: usize = a.unicode_len();
    let bn: usize = b.unicode_len();
    if an != bn {
        return false;
    }
    let mut i: usize = 0;
    while i < an
        invariant
            i <= an,
            an == a@.len(),
            an == bn,
            bn == b@.len(),
            forall|j: int| 0 <= j < i ==> a@[j] == b@[j],
        decreases an - i,
    {
        if a.get_char(i) != b.get_char(i) {
            return false;
        }
        i = i + 1;
    }
    proof {
        assert(a@ =~= b@);
    }
    true
}

} // verus!

verus! {

/// Whether characters `c1` and `c2` occur adjacently in `s`.
pub open spec fn has_pair(s: Seq<char>, c1: char, c2: char) -> bool {
    exists|i: int| #![trigger s[i]] 0 <= i && i + 1 < s.len() && s[i] == c1 && s[i + 1] == c2
}

pub fn contains_char(s: &str, c: char) -> (r: bool)
    ensures
        r == s@.contains(c),
{
    let n: usize = s.unicode_len();
    let mut i: usize = 0;
    while i < n
        invariant
            i <= n,
            n == s@.len(),
            forall|j: int| 0 <= j < i ==> s@[j] != c,
        decreases n - i,
    {
        if s.get_char(i) == c {
            return true;
        }
        i = i + 1;
    }
    false
}

pub fn contains_pair(s: &str, c1: char, c2: char) -> (r: bool)
    ensures
        r == has_pair(s@, c1, c2),
{
    let n: usize = s.unicode_len();
    if n < 2 {
        return false;
    }
    let mut i: usize = 0;
    while i + 1 < n
        invariant
            i + 1 <= n,
            n == s@.len(),
            forall|j: int| #![trigger s@[j]] 0 <= j && j + 1 < i + 1 ==> !(s@[j] == c1 && s@[
                j + 1
            ] == c2),
        decreases n - i,
    {
        if s.get_char(i) == c1 && s.get_char(i + 1) == c2 {
            return true;
        }
        i = i + 1;
    }
    false
}

/// Whether `p` is a prefix of `s`.
pub open spec fn spec_has_prefix(s: Seq<char>, p: Seq<char>) -> bool {
    p.len() <= s.len() && s.subrange(0, p.len() as int) == p
}

pub fn has_prefix(s: &str, p: &str) -> (r: bool)
    ensures
        r == spec_has_prefix(s@, p@),
{
    let sn: usize = s.unicode_len();
    let pn: usize = p.unicode_len();
    if pn > sn {
        return false;
    }
    let mut i: usize = 0;
    while i < pn
        invariant
            i <= pn <= sn,
            sn == s@.len(),
            pn == p@.len(),
            forall|j: int| 0 <= j < i ==> s@[j] == p@[j],
        decreases pn - i,
    {
        if s.get_char(i) != p.get_char(i) {
            assert(s@.subrange(0, pn as int)[i as int] != p@[i as int]);
            return false;
        }
        i = i + 1;
    }
    proof {
        assert(s@.subrange(0, pn as int) =~= p@);
    }
    true
}

/// The index of the last occurrence of `c` in `s`, if any.
pub open spec fn spec_rfind(s: Seq<char>, c: char) -> Option<int>
    decreases s.len(),
{
    if s.len() == 0 {
        None
    } else if s.last() == c {
        Some(s.len() - 1)
    } else {
        spec_rfind(s.drop_last(), c)
    }
}

proof fn lemma_rfind_range(s: Seq<char>, c: char, i: int)
    requires
        0 <= i <= s.len(),
        forall|k: int| i <= k < s.len() ==> s[k] != c,
    ensures
        spec_rfind(s, c) == spec_rfind(s.subrange(0, i), c),
    decreases s.len() - i,
{
    if i < s.len() {
        assert(s.last() != c);
        assert(s.drop_last() =~= s.subrange(0, s.len() - 1));
        lemma_rfind_range(s.drop_last(), c, i);
        assert(s.drop_last().subrange(0, i) =~= s.subrange(0, i));
    } else {
        assert(s.subrange(0, i) =~= s);
    }
}

pub fn rfind_char(s: &str, c: char) -> (r: Option<usize>)
    ensures
        r matches Some(i) ==> i < s@.len() && s@[i as int] == c && spec_rfind(s@, c) == Some(
            i as int,
        ) && (forall|k: int| i < k < s@.len() ==> s@[k] != c),
        r is None ==> spec_rfind(s@, c) is None && (forall|k: int|
            0 <= k < s@.len() ==> s@[k] != c),
{
    let n: usize = s.unicode_len();
    let mut i: usize = n;
    while i > 0
        invariant
            i <= n,
            n == s@.len(),
            forall|k: int| i <= k < n ==> s@[k] != c,
        decreases i,
    {
        i = i - 1;
        if s.get_char(i) == c {
            proof {
                lemma_rfind_range(s@, c, i + 1);
                assert(s@.subrange(0, i + 1).last() == c);
            }
            return Some(i);
        }
    }
    proof {
        lemma_rfind_range(s@, c, 0);
        assert(s@.subrange(0, 0).len() == 0);
    }
    None
}

/// The index of the first occurrence of `c` in `s`, if any.
pub open spec fn spec_find(s: Seq<char>, c: char) -> Option<int>
    decreases s.len(),
{
    if s.len() == 0 {
        None
    } else if s.first() == c {
        Some(0)
    } else {
        match spec_find(s.drop_first(), c) {
            Some(i) => Some(i + 1),
            None => None,
        }
    }
}

pub proof fn lemma_find_at(s: Seq<char>, c: char, i: int)
    requires
        0 <= i <= s.len(),
        forall|k: int| 0 <= k < i ==> s[k] != c,
        i < s.len() ==> s[i] == c,
    ensures
        i < s.len() ==> spec_find(s, c) == Some(i),
        i == s.len() ==> spec_find(s, c) is None,
    decreases i,
{
    if s.len() == 0 {
    } else if i == 0 {
    } else {
        assert(s.first() != c);
        lemma_find_at(s.drop_first(), c, i - 1);
    }
}

pub fn find_char(s: &str, c: char) -> (r: Option<usize>)
    ensures
        r matches Some(i) ==> i < s@.len() && s@[i as int] == c && spec_find(s@, c) == Some(
            i as int,
        ) && (forall|k: int| 0 <= k < i ==> s@[k] != c),
        r is None ==> spec_find(s@, c) is None && (forall|k: int|
            0 <= k < s@.len() ==> s@[k] != c),
{
    let n: usize = s.unicode_len();
    let mut i: usize = 0;
    while i < n
        invariant
            i <= n,
            n == s@.len(),
            forall|k: int| 0 <= k < i ==> s@[k] != c,
        decreases n - i,
    {
        if s.get_char(i) == c {
            proof {
                lemma_find_at(s@, c, i as int);
            }
            return Some(i);
        }
        i = i + 1;
    }
    proof {
        lemma_find_at(s@, c, n as int);
    }
    None
}

} // verus!

verus! {

/// The character views of a sequence of strings.
pub open spec fn views_of(ss: Seq<String>) -> Seq<Seq<char>> {
    Seq::new(ss.len(), |i: int| ss[i]@)
}

pub open spec fn is_digit(c: char) -> bool {
    ('0' as int) <= (c as int) && (c as int) <= ('9' as int)
}

pub open spec fn digit_val(c: char) -> int {
    (c as int) - ('0' as int)
}

pub open spec fn all_digits(s: Seq<char>) -> bool {
    forall|i: int| 0 <= i < s.len() ==> is_digit(#[trigger] s[i])
}

/// The number denoted by a digit string, most significant digit first.
pub open spec fn digits_val(s: Seq<char>) -> int
    decreases s.len(),
{
    if s.len() == 0 {
        0
    } else {
        digits_val(s.drop_last()) * 10 + digit_val(s.last())
    }
}

proof fn lemma_digits_nonneg(s: Seq<char>)
    requires
        all_digits(s),
    ensures
        digits_val(s) >= 0,
    decreases s.len(),
{
    if s.len() > 0 {
        assert(all_digits(s.drop_last()));
        lemma_digits_nonneg(s.drop_last());
        assert(digits_val(s.drop_last()) * 10 >= 0) by (nonlinear_arith)
            requires
                digits_val(s.drop_last()) >= 0,
        ;
    }
}

proof fn lemma_digits_prefix(s: Seq<char>, i: int)
    requires
        all_digits(s),
        0 <= i <= s.len(),
    ensures
        digits_val(s) >= digits_val(s.subrange(0, i)),
    decreases s.len(),
{
    if i == s.len() {
        assert(s.subrange(0, i) =~= s);
    } else {
        let dl = s.drop_last();
        assert(all_digits(dl));
        lemma_digits_prefix(dl, i);
        assert(dl.subrange(0, i) =~= s.subrange(0, i));
        lemma_digits_nonneg(dl);
        assert(digits_val(dl) * 10 >= digits_val(dl)) by (nonlinear_arith)
            requires
                digits_val(dl) >= 0,
        ;
        assert(is_digit(s.last()));
    }
}

/// What `str::parse::<usize>` accepts: an optional `+`, then decimal digits
/// whose value fits in `usize`.
pub open spec fn spec_parse_usize(s: Seq<char>) -> Option<usize> {
    let body = if s.len() > 0 && s[0] == '+' {
        s.drop_first()
    } else {
        s
    };
    if body.len() == 0 || !all_digits(body) {
        None
    } else if digits_val(body) > usize::MAX {
        None
    } else {
        Some(digits_val(body) as usize)
    }
}

/// Best-effort parse of a non-negative integer: a failure is reported,
/// never panicked on.
pub fn parse_usize(s: &str) -> (r: Option<usize>)
    ensures
        r == spec_parse_usize(s@),
{
    let n: usize = s.unicode_len();
    let start: usize = if n > 0 && s.get_char(0) == '+' {
        1
    } else {
        0
    };
    let ghost body = if s@.len() > 0 && s@[0] == '+' {
        s@.drop_first()
    } else {
        s@
    };
    proof {
        assert(body =~= s@.subrange(start as int, n as int));
    }
    if start == n {
        return None;
    }
    let mut acc: usize = 0;
    let mut i: usize = start;
    while i < n
        invariant
            start <= i <= n,
            n == s@.len(),
            start <= 1,
            body == s@.subrange(start as int, n as int),
            body == (if s@.len() > 0 && s@[0] == '+' {
                s@.drop_first()
            } else {
                s@
            }),
            all_digits(s@.subrange(start as int, i as int)),
            acc == digits_val(s@.subrange(start as int, i as int)),
        decreases n - i,
    {
        let c = s.get_char(i);
        let cv = c as u32;
        let ghost pre = s@.subrange(start as int, i as int);
        let ghost pre1 = s@.subrange(start as int, i + 1);
        proof {
            assert(pre1.drop_last() =~= pre);
            assert(pre1.last() == s@[i as int]);
        }
        if cv < 48 || cv > 57 {
            proof {
                assert(!is_digit(body[i - start]));
            }
            return None;
        }
        let d: usize = (cv - 48) as usize;
        proof {
            assert(is_digit(c));
            assert(d == digit_val(c));
        }
        let wide: u128 = (acc as u128) * 10 + (d as u128);
        if wide > (usize::MAX as u128) {
            proof {
                assert(digits_val(pre1) == acc * 10 + d);
                assert(acc * 10 + d > usize::MAX);
                if all_digits(body) {
                    lemma_digits_prefix(body, i + 1 - start);
                    assert(body.subrange(0, i + 1 - start) =~= pre1);
                }
            }
            return None;
        }
        acc = (acc * 10) + d;
        i = i + 1;
    }
    proof {
        assert(s@.subrange(start as int, n as int) =~= body);
        lemma_digits_nonneg(body);
    }
    Some(acc)
}

/// What `str::parse::<bool>` accepts: exactly `true` or `false`.
pub open spec fn spec_parse_bool(s: Seq<char>) -> Option<bool> {
    if s == "true"@ {
        Some(true)
    } else if s == "false"@ {
        Some(false)
    } else {
        None
    }
}

pub fn parse_bool(s: &str) -> (r: Option<bool>)
    ensures
        r == spec_parse_bool(s@),
{
    if str_eq(s, "true") {
        Some(true)
    } else if str_eq(s, "false") {
        Some(false)
    } else {
        None
    }
}

/// The decimal digit character for `d`.
pub open spec fn digit_char(d: int) -> char {
    if d == 0 {
        '0'
    } else if d == 1 {
        '1'
    } else if d == 2 {
        '2'
    } else if d == 3 {
        '3'
    } else if d == 4 {
        '4'
    } else if d == 5 {
        '5'
    } else if d == 6 {
        '6'
    } else if d == 7 {
        '7'
    } else if d == 8 {
        '8'
    } else {
        '9'
    }
}

/// The decimal rendering of `n`, most significant digit first.
pub open spec fn spec_dec(n: int) -> Seq<char>
    decreases n,
{
    if n < 10 {
        seq![digit_char(n)]
    } else {
        spec_dec(n / 10).push(digit_char(n % 10))
    }
}

fn digit_str(d: usize) -> (r: &'static str)
    requires
        d < 10,
    ensures
        r@ == seq![digit_char(d as int)],
{
    proof {
        reveal_strlit("0");
        reveal_strlit("1");
        reveal_strlit("2");
        reveal_strlit("3");
        reveal_strlit("4");
        reveal_strlit("5");
        reveal_strlit("6");
        reveal_strlit("7");
        reveal_strlit("8");
        reveal_strlit("9");
    }
    let r = if d == 0 {
        "0"
    } else if d == 1 {
        "1"
    } else if d == 2 {
        "2"
    } else if d == 3 {
        "3"
    } else if d == 4 {
        "4"
    } else if d == 5 {
        "5"
    } else if d == 6 {
        "6"
    } else if d == 7 {
        "7"
    } else if d == 8 {
        "8"
    } else {
        "9"
    };
    proof {
        assert(r@ =~= seq![digit_char(d as int)]);
    }
    r
}

/// Render `n` in decimal, as the display form of a width or column number.
pub fn dec_str(n: usize) -> (r: String)
    ensures
        r@ == spec_dec(n as int),
    decreases n,
{
    if n < 10 {
        let mut s = String::new();
        s.append(digit_str(n));
        proof {
            assert(s@ =~= seq![digit_char(n as int)]);
        }
        s
    } else {
        let mut s = dec_str(n / 10);
        s.append(digit_str(n % 10));
        proof {
            assert(s@ =~= spec_dec((n / 10) as int).push(digit_char((n % 10) as int)));
        }
        s
    }
}

/// `n` spaces, the indent unit written for a space style of size `n`.
pub fn spaces(n: usize) -> (r: String)
    ensures
        r@ =~= Seq::new(n as nat, |i: int| ' '),
{
    proof {
        reveal_strlit(" ");
    }
    let mut s = String::new();
    let mut i: usize = 0;
    while i < n
        invariant
            i <= n,
            s@ =~= Seq::new(i as nat, |j: int| ' '),
        decreases n - i,
    {
        proof {
            reveal_strlit(" ");
        }
        s.append(" ");
        i = i + 1;
        proof {
            assert(s@ =~= Seq::new(i as nat, |j: int| ' '));
        }
    }
    s
}

} // verus!

verus! {

pub open spec fn is_upper(c: char) -> bool {
    ('A' as int) <= (c as int) && (c as int) <= ('Z' as int)
}

/// `c` with an ASCII capital letter mapped to its lower-case form.
pub open spec fn lower_char(c: char) -> char {
    if c == 'A' { 'a' } else if c == 'B' { 'b' } else if c == 'C' { 'c' }
    else if c == 'D' { 'd' } else if c == 'E' { 'e' } else if c == 'F' { 'f' }
    else if c == 'G' { 'g' } else if c == 'H' { 'h' } else if c == 'I' { 'i' }
    else if c == 'J' { 'j' } else if c == 'K' { 'k' } else if c == 'L' { 'l' }
    else if c == 'M' { 'm' } else if c == 'N' { 'n' } else if c == 'O' { 'o' }
    else if c == 'P' { 'p' } else if c == 'Q' { 'q' } else if c == 'R' { 'r' }
    else if c == 'S' { 's' } else if c == 'T' { 't' } else if c == 'U' { 'u' }
    else if c == 'V' { 'v' } else if c == 'W' { 'w' } else if c == 'X' { 'x' }
    else if c == 'Y' { 'y' } else if c == 'Z' { 'z' } else { c }
}

/// `s` with ASCII capital letters lowered, the normalization applied to
/// property keys and values before they are recognized.
pub open spec fn spec_lower(s: Seq<char>) -> Seq<char> {
    Seq::new(s.len(), |i: int| lower_char(s[i]))
}

fn lower_lit(c: char) -> (r: &'static str)
    requires
        is_upper(c),
    ensures
        r@ == seq![lower_char(c)],
{
    proof {
        reveal_strlit("a"); reveal_strlit("b"); reveal_strlit("c"); reveal_strlit("d");
        reveal_strlit("e"); reveal_strlit("f"); reveal_strlit("g"); reveal_strlit("h");
        reveal_strlit("i"); reveal_strlit("j"); reveal_strlit("k"); reveal_strlit("l");
        reveal_strlit("m"); reveal_strlit("n"); reveal_strlit("o"); reveal_strlit("p");
        reveal_strlit("q"); reveal_strlit("r"); reveal_strlit("s"); reveal_strlit("t");
        reveal_strlit("u"); reveal_strlit("v"); reveal_strlit("w"); reveal_strlit("x");
        reveal_strlit("y"); reveal_strlit("z");
    }
    let r = if c == 'A' { "a" } else if c == 'B' { "b" } else if c == 'C' { "c" }
    else if c == 'D' { "d" } else if c == 'E' { "e" } else if c == 'F' { "f" }
    else if c == 'G' { "g" } else if c == 'H' { "h" } else if c == 'I' { "i" }
    else if c == 'J' { "j" } else if c == 'K' { "k" } else if c == 'L' { "l" }
    else if c == 'M' { "m" } else if c == 'N' { "n" } else if c == 'O' { "o" }
    else if c == 'P' { "p" } else if c == 'Q' { "q" } else if c == 'R' { "r" }
    else if c == 'S' { "s" } else if c == 'T' { "t" } else if c == 'U' { "u" }
    else if c == 'V' { "v" } else if c == 'W' { "w" } else if c == 'X' { "x" }
    else if c == 'Y' { "y" } else { "z" };
    proof {
        assert(r@ =~= seq![lower_char(c)]);
    }
    r
}

pub fn ascii_lower(s: &str) -> (r: String)
    ensures
        r@ == spec_lower(s@),
{
    let n: usize = s.unicode_len();
    let mut out = String::new();
    let mut i: usize = 0;
    while i < n
        invariant
            i <= n,
            n == s@.len(),
            out@ =~= Seq::new(i as nat, |j: int| lower_char(s@[j])),
        decreases n - i,
    {
        let c = s.get_char(i);
        let cv = c as u32;
        if 65 <= cv && cv <= 90 {
            out.append(lower_lit(c));
        } else {
            let piece = s.substring_char(i, i + 1);
            proof {
                assert(piece@ =~= seq![s@[i as int]]);
                assert(lower_char(s@[i as int]) == s@[i as int]);
            }
            out.append(piece);
        }
        i = i + 1;
        proof {
            assert(out@ =~= Seq::new(i as nat, |j: int| lower_char(s@[j])));
        }
    }
    proof {
        assert(out@ =~= spec_lower(s@));
    }
    out
}

pub open spec fn find_or_len(s: Seq<char>, c: char) -> int {
    match spec_find(s, c) {
        Some(i) => i,
        None => s.len() as int,
    }
}

/// The lines of `s`, split at each newline character; a trailing newline
/// closes the last line rather than opening an empty one, as `str::lines`
/// behaves.  A carriage return before the newline is left on the line; the
/// callers trim it away with the rest of the trailing whitespace.
pub open spec fn spec_lines(s: Seq<char>) -> Seq<Seq<char>>
    decreases s.len(),
{
    if s.len() == 0 {
        Seq::empty()
    } else {
        let i = find_or_len(s, '\n');
        if 0 <= i && i < s.len() {
            seq![s.subrange(0, i)] + spec_lines(s.subrange(i + 1, s.len() as int))
        } else {
            seq![s]
        }
    }
}

pub fn split_lines(s: &str) -> (r: Vec<String>)
    ensures
        views_of(r@) == spec_lines(s@),
{
    let n: usize = s.unicode_len();
    let mut out: Vec<String> = Vec::new();
    let mut start: usize = 0;
    let mut i: usize = 0;
    proof {
        assert(s@.skip(0) =~= s@);
        assert(views_of(out@) =~= Seq::<Seq<char>>::empty());
        assert(views_of(out@) + spec_lines(s@) =~= spec_lines(s@));
    }
    while i < n
        invariant
            start <= i <= n,
            n == s@.len(),
            forall|j: int| start <= j < i ==> s@[j] != '\n',
            views_of(out@) + spec_lines(s@.skip(start as int)) == spec_lines(s@),
        decreases n - i,
    {
        if s.get_char(i) == '\n' {
            let ghost pre = views_of(out@);
            let ghost tail = s@.skip(start as int);
            let line = s.substring_char(start, i).to_owned();
            out.push(line);
            proof {
                assert(forall|j: int| 0 <= j < i - start ==> tail[j] != '\n');
                assert(tail[i - start] == '\n');
                lemma_find_at(tail, '\n', i - start);
                assert(find_or_len(tail, '\n') == i - start);
                assert(tail.subrange(0, i - start) =~= s@.subrange(start as int, i as int));
                assert(tail.subrange(i - start + 1, tail.len() as int) =~= s@.skip(i + 1));
                assert(spec_lines(tail) == seq![s@.subrange(start as int, i as int)]
                    + spec_lines(s@.skip(i + 1)));
                assert(views_of(out@) =~= pre.push(line@));
                assert(views_of(out@) + spec_lines(s@.skip(i + 1)) =~= pre + spec_lines(tail));
            }
            start = i + 1;
        }
        i = i + 1;
    }
    if start < n {
        let ghost pre = views_of(out@);
        let ghost tail = s@.skip(start as int);
        let line = s.substring_char(start, n).to_owned();
        out.push(line);
        proof {
            assert(forall|j: int| 0 <= j < tail.len() ==> tail[j] != '\n');
            lemma_find_at(tail, '\n', tail.len() as int);
            assert(spec_lines(tail) =~= seq![tail]);
            assert(line@ =~= tail);
            assert(views_of(out@) =~= pre.push(line@));
            assert(views_of(out@) =~= pre + spec_lines(tail));
        }
    } else {
        proof {
            assert(s@.skip(start as int).len() == 0);
            assert(spec_lines(s@.skip(start as int)) =~= Seq::<Seq<char>>::empty());
            assert(views_of(out@) =~= views_of(out@) + spec_lines(s@.skip(start as int)));
        }
    }
    out
}

} // verus!

verus! {

/// Remove trailing whitespace from `s`, as `str::trim_end` does.
pub fn trim_end(s: &str) -> (r: &str)
    ensures
        r@ == spec_trim_end(s@),
{
    let n: usize = s.unicode_len();
    let mut end: usize = n;
    while end > 0 && is_ws(s.get_char(end - 1))
        invariant
            end <= n,
            n == s@.len(),
            forall|k: int| end <= k < n ==> is_ws_char(s@[k]),
        decreases end,
    {
        end = end - 1;
    }
    proof {
        lemma_trim_end_subrange(s@, end as int);
    }
    s.substring_char(0, end)
}

/// A sequence that holds `c` has an index of it.
pub proof fn lemma_find_none(s: Seq<char>, c: char)
    requires
        spec_find(s, c) is None,
    ensures
        forall|j: int| 0 <= j < s.len() ==> s[j] != c,
    decreases s.len(),
{
    if s.len() > 0 {
        assert(s.first() != c);
        lemma_find_none(s.drop_first(), c);
        assert forall|j: int| 0 <= j < s.len() implies s[j] != c by {
            if j > 0 {
                assert(s[j] == s.drop_first()[j - 1]);
            }
        }
    }
}

} // verus!
