use vstd::prelude::*;
use vstd::string::StrSliceExecFns;
use crate::formula::spaces;

verus! {

/// Whether two character sequences are equal.
pub fn chars_eq(a: &Vec<char>, b: &Vec<char>) -> (r: bool)
    ensures
        r == (a@ == b@),
{
    if a.len() != b.len() {
        return false;
    }
    let mut i: usize = 0;
    while i < a.len()
        invariant
            i <= a.len(),
            a@.len() == b@.len(),
            a@.subrange(0, i as int) =~= b@.subrange(0, i as int),
        decreases a.len() - i,
    {
        if a[i] != b[i] {
            assert(a@[i as int] != b@[i as int]);
            return false;
        }
        i += 1;
    }
    assert(a@ =~= a@.subrange(0, a@.len() as int));
    assert(b@ =~= b@.subrange(0, b@.len() as int));
    true
}

/// Whether `s` equals the literal `lit`.
pub fn chars_eq_str(s: &Vec<char>, lit: &str) -> (r: bool)
    ensures
        r == (s@ == lit@),
{
    let n = lit.unicode_len();
    if s.len() != n {
        return false;
    }
    let mut i: usize = 0;
    while i < n
        invariant
            i <= n,
            n == lit@.len(),
            s@.len() == n,
            s@.subrange(0, i as int) =~= lit@.subrange(0, i as int),
        decreases n - i,
    {
        if s[i] != lit.get_char(i) {
            return false;
        }
        i += 1;
    }
    assert(s@ =~= s@.subrange(0, n as int));
    assert(lit@ =~= lit@.subrange(0, n as int));
    true
}

/// Copies a character sequence.
pub fn copy_chars(s: &Vec<char>) -> (r: Vec<char>)
    ensures
        r@ == s@,
{
    let mut r: Vec<char> = Vec::new();
    let mut i: usize = 0;
    while i < s.len()
        invariant
            i <= s.len(),
            r@ =~= s@.subrange(0, i as int),
        decreases s.len() - i,
    {
        r.push(s[i]);
        i += 1;
    }
    assert(r@ =~= s@);
    r
}

/// Copies `s[from..to]`.
pub fn slice_chars(s: &Vec<char>, from: usize, to: usize) -> (r: Vec<char>)
    requires
        from <= to <= s@.len(),
    ensures
        r@ == s@.subrange(from as int, to as int),
{
    let mut r: Vec<char> = Vec::new();
    let mut i: usize = from;
    while i < to
        invariant
            from <= i <= to,
            to <= s@.len(),
            r@ =~= s@.subrange(from as int, i as int),
        decreases to - i,
    {
        r.push(s[i]);
        i += 1;
    }
    r
}

} // verus!

verus! {

/// Unicode white space, as `char::is_whitespace` defines it.
pub open spec fn is_ws(c: char) -> bool {
    let u = c as u32;
    (0x9 <= u && u <= 0xD) || u == 0x20 || u == 0x85 || u == 0xA0 || u == 0x1680 || (0x2000 <= u
        && u <= 0x200A) || u == 0x2028 || u == 0x2029 || u == 0x202F || u == 0x205F || u == 0x3000
}

pub fn is_ws_exec(c: char) -> (r: bool)
    ensures
        r == is_ws(c),
{
    let u = c as u32;
    (0x9 <= u && u <= 0xD) || u == 0x20 || u == 0x85 || u == 0xA0 || u == 0x1680 || (0x2000 <= u
        && u <= 0x200A) || u == 0x2028 || u == 0x2029 || u == 0x202F || u == 0x205F || u == 0x3000
}

/// Index of the first non-white-space character at or after `i`.
pub open spec fn ws_lead_end(s: Seq<char>, i: int) -> int
    decreases s.len() - i,
{
    if 0 <= i < s.len() && is_ws(s[i]) {
        ws_lead_end(s, i + 1)
    } else {
        i
    }
}

/// Index just after the last non-white-space character before `j`.
pub open spec fn ws_trail_start(s: Seq<char>, j: int) -> int
    decreases j,
{
    if 0 < j <= s.len() && is_ws(s[j - 1]) {
        ws_trail_start(s, j - 1)
    } else {
        j
    }
}

/// Number of white-space characters that start `s`.
pub open spec fn lead_ws(s: Seq<char>) -> nat {
    ws_lead_end(s, 0) as nat
}

/// Number of white-space characters that end `s`, none counted twice.
pub open spec fn trail_ws(s: Seq<char>) -> nat {
    if lead_ws(s) == s.len() {
        0
    } else {
        (s.len() - ws_trail_start(s, s.len() as int)) as nat
    }
}

/// `s` without white space at either end.
pub open spec fn trim(s: Seq<char>) -> Seq<char> {
    s.subrange(lead_ws(s) as int, s.len() - trail_ws(s))
}

/// The counts of leading and trailing white space of `s`.
pub fn ws_margins(s: &Vec<char>) -> (r: (usize, usize))
    ensures
        r.0 == lead_ws(s@),
        r.1 == trail_ws(s@),
        r.0 + r.1 <= s@.len(),
{
    let mut a: usize = 0;
    while a < s.len() && is_ws_exec(s[a])
        invariant
            a <= s@.len(),
            ws_lead_end(s@, 0) == ws_lead_end(s@, a as int),
        decreases s.len() - a,
    {
        a += 1;
    }
    if a == s.len() {
        return (a, 0);
    }
    let mut b: usize = s.len();
    while b > a + 1 && is_ws_exec(s[b - 1])
        invariant
            a + 1 <= b <= s@.len(),
            !is_ws(s@[a as int]),
            ws_trail_start(s@, s@.len() as int) == ws_trail_start(s@, b as int),
        decreases b,
    {
        b -= 1;
    }
    (a, s.len() - b)
}

/// A copy of `s` without white space at either end.
pub fn trim_chars(s: &Vec<char>) -> (r: Vec<char>)
    ensures
        r@ == trim(s@),
{
    let (a, t) = ws_margins(s);
    slice_chars(s, a, s.len() - t)
}

/// The first index of `c` in `s` at or after `i`.
pub open spec fn find_from(s: Seq<char>, c: char, i: int) -> Option<int>
    decreases s.len() - i,
{
    if i < 0 || i >= s.len() {
        None
    } else if s[i] == c {
        Some(i)
    } else {
        find_from(s, c, i + 1)
    }
}

pub open spec fn find_first(s: Seq<char>, c: char) -> Option<int> {
    find_from(s, c, 0)
}

pub fn find_char(s: &Vec<char>, c: char) -> (r: Option<usize>)
    ensures
        match r {
            Some(i) => find_first(s@, c) == Some(i as int),
            None => find_first(s@, c) is None,
        },
{
    let mut i: usize = 0;
    while i < s.len()
        invariant
            i <= s@.len(),
            find_first(s@, c) == find_from(s@, c, i as int),
        decreases s.len() - i,
    {
        if s[i] == c {
            return Some(i);
        }
        i += 1;
    }
    None
}

/// The part of `s` before the first `c`, all of `s` when there is none.
pub open spec fn before_first(s: Seq<char>, c: char) -> Seq<char> {
    match find_first(s, c) {
        Some(i) => s.subrange(0, i),
        None => s,
    }
}

/// The part of `s` after the first `c`, if there is one.
pub open spec fn after_first(s: Seq<char>, c: char) -> Option<Seq<char>> {
    match find_first(s, c) {
        Some(i) => Some(s.subrange(i + 1, s.len() as int)),
        None => None,
    }
}

pub proof fn lemma_find_from_bounds(s: Seq<char>, c: char, i: int)
    ensures
        match find_from(s, c, i) {
            Some(j) => i <= j < s.len() && s[j] == c,
            None => true,
        },
    decreases s.len() - i,
{
    if 0 <= i < s.len() && s[i] != c {
        lemma_find_from_bounds(s, c, i + 1);
    }
}

pub open spec fn is_digit(c: char) -> bool {
    '0' <= c && c <= '9'
}

/// The number that a string of decimal digits writes.
pub open spec fn digits_value(s: Seq<char>) -> nat
    decreases s.len(),
{
    if s.len() == 0 {
        0
    } else {
        digits_value(s.drop_last()) * 10 + ((s.last() as u32) - ('0' as u32)) as nat
    }
}

pub open spec fn all_digits(s: Seq<char>) -> bool {
    forall|i: int| 0 <= i < s.len() ==> is_digit(#[trigger] s[i])
}

/// What `str::parse::<usize>` gives: an optional `+` and at least one
/// decimal digit, with a value that fits.
pub open spec fn parse_nat(s: Seq<char>) -> Option<nat> {
    let d = if s.len() > 0 && s[0] == '+' { s.drop_first() } else { s };
    if d.len() > 0 && all_digits(d) && digits_value(d) <= usize::MAX {
        Some(digits_value(d))
    } else {
        None
    }
}

pub fn parse_usize(s: &Vec<char>) -> (r: Option<usize>)
    ensures
        match r {
            Some(n) => parse_nat(s@) == Some(n as nat),
            None => parse_nat(s@) is None,
        },
{
    let start: usize = if s.len() > 0 && s[0] == '+' { 1 } else { 0 };
    let ghost d = if s@.len() > 0 && s@[0] == '+' { s@.drop_first() } else { s@ };
    assert(d =~= s@.subrange(start as int, s@.len() as int));
    if start == s.len() {
        return None;
    }
    let mut value: usize = 0;
    let mut i: usize = start;
    while i < s.len()
        invariant
            start <= i <= s@.len(),
            d == (if s@.len() > 0 && s@[0] == '+' { s@.drop_first() } else { s@ }),
            d.len() > 0,
            d =~= s@.subrange(start as int, s@.len() as int),
            all_digits(s@.subrange(start as int, i as int)),
            value == digits_value(s@.subrange(start as int, i as int)),
        decreases s.len() - i,
    {
        let c = s[i];
        let ghost pre = s@.subrange(start as int, i as int + 1);
        assert(pre.drop_last() =~= s@.subrange(start as int, i as int));
        if !('0' <= c && c <= '9') {
            assert(d[i - start] == c);
            assert(!is_digit(d[i - start]));
            assert(!all_digits(d));
            return None;
        }
        let digit = (c as u32 - '0' as u32) as usize;
        assert(all_digits(pre)) by {
            assert forall|j: int| 0 <= j < pre.len() implies is_digit(#[trigger] pre[j]) by {
                if j < pre.len() - 1 {
                    assert(pre[j] == pre.drop_last()[j]);
                }
            }
        }
        if value > (usize::MAX - digit) / 10 {
            proof {
                let v = value as int;
                let dg = digit as int;
                let m = usize::MAX as int;
                assert(v * 10 + dg > m) by (nonlinear_arith)
                    requires
                        v > (m - dg) / 10,
                        0 <= dg <= 9,
                        m > 9,
                ;
                assert(digits_value(pre) == v * 10 + dg);
                lemma_digits_grow(s@, start as int, i as int + 1, s@.len() as int);
                assert(d =~= s@.subrange(start as int, s@.len() as int));
            }
            return None;
        }
        value = value * 10 + digit;
        i += 1;
    }
    Some(value)
}

/// A longer digit string has at least the value of its prefix.
proof fn lemma_digits_grow(s: Seq<char>, start: int, m: int, n: int)
    requires
        0 <= start <= m <= n <= s.len(),
        all_digits(s.subrange(start, m)),
        digits_value(s.subrange(start, m)) > usize::MAX,
    ensures
        !(all_digits(s.subrange(start, n)) && digits_value(s.subrange(start, n)) <= usize::MAX),
    decreases n - m,
{
    if n > m && all_digits(s.subrange(start, n)) {
        let t = s.subrange(start, m + 1);
        assert(t.drop_last() =~= s.subrange(start, m));
        assert(all_digits(t)) by {
            assert forall|i: int| 0 <= i < t.len() implies is_digit(#[trigger] t[i]) by {
                assert(t[i] == s.subrange(start, n)[i]);
            }
        }
        lemma_digits_grow(s, start, m + 1, n);
    }
}

} // verus!

verus! {

proof fn lemma_ws_lead_end_at(s: Seq<char>, i: int, j: int)
    requires
        0 <= i <= j <= s.len(),
        forall|k: int| i <= k < j ==> is_ws(#[trigger] s[k]),
        j == s.len() || !is_ws(s[j]),
    ensures
        ws_lead_end(s, i) == j,
    decreases j - i,
{
    if i < j {
        lemma_ws_lead_end_at(s, i + 1, j);
    }
}

proof fn lemma_ws_trail_start_at(s: Seq<char>, j: int, t: int)
    requires
        0 <= t <= j <= s.len(),
        forall|k: int| t <= k < j ==> is_ws(#[trigger] s[k]),
        t == 0 || !is_ws(s[t - 1]),
    ensures
        ws_trail_start(s, j) == t,
    decreases j - t,
{
    if t < j {
        lemma_ws_trail_start_at(s, j - 1, t);
    }
}

/// No white space at either end.
pub open spec fn tight(x: Seq<char>) -> bool {
    x.len() == 0 || (!is_ws(x[0]) && !is_ws(x.last()))
}

/// Trimming `x` framed by spaces gives `x` back, when `x` has no white space
/// at its ends; the frame is what is counted as leading and trailing.
pub proof fn lemma_trim_framed(pre: nat, x: Seq<char>, post: nat)
    requires
        tight(x),
        x.len() == 0 ==> post == 0,
    ensures
        trim(spaces(pre) + x + spaces(post)) == x,
        lead_ws(spaces(pre) + x + spaces(post)) == pre,
        trail_ws(spaces(pre) + x + spaces(post)) == post,
{
    let s = spaces(pre) + x + spaces(post);
    let n = s.len() as int;
    assert(is_ws(' '));
    lemma_ws_lead_end_at(s, 0, pre as int);
    if x.len() > 0 {
        assert(s[pre as int] == x[0]);
        assert(s[pre + x.len() - 1] == x.last());
        lemma_ws_trail_start_at(s, n, (pre + x.len()) as int);
        assert(s.subrange(pre as int, n - post) =~= x);
    } else {
        assert(s.subrange(pre as int, pre as int) =~= x);
    }
}

proof fn lemma_ws_lead_end_props(s: Seq<char>, i: int)
    requires
        0 <= i <= s.len(),
    ensures
        i <= ws_lead_end(s, i) <= s.len(),
        forall|k: int| i <= k < ws_lead_end(s, i) ==> is_ws(#[trigger] s[k]),
        ws_lead_end(s, i) < s.len() ==> !is_ws(s[ws_lead_end(s, i)]),
    decreases s.len() - i,
{
    if i < s.len() && is_ws(s[i]) {
        lemma_ws_lead_end_props(s, i + 1);
    }
}

proof fn lemma_ws_trail_start_props(s: Seq<char>, j: int)
    requires
        0 <= j <= s.len(),
    ensures
        0 <= ws_trail_start(s, j) <= j,
        forall|k: int| ws_trail_start(s, j) <= k < j ==> is_ws(#[trigger] s[k]),
        ws_trail_start(s, j) > 0 ==> !is_ws(s[ws_trail_start(s, j) - 1]),
    decreases j,
{
    if j > 0 && is_ws(s[j - 1]) {
        lemma_ws_trail_start_props(s, j - 1);
    }
}

/// A trimmed sequence has no white space at its ends, and `s` is its
/// leading white space, itself, and its trailing white space.
pub proof fn lemma_trim_props(s: Seq<char>)
    ensures
        tight(trim(s)),
        lead_ws(s) + trim(s).len() + trail_ws(s) == s.len(),
        forall|k: int| 0 <= k < lead_ws(s) ==> is_ws(#[trigger] s[k]),
        forall|k: int| s.len() - trail_ws(s) <= k < s.len() ==> is_ws(#[trigger] s[k]),
        trim(s).len() == 0 ==> trail_ws(s) == 0,
{
    lemma_ws_lead_end_props(s, 0);
    lemma_ws_trail_start_props(s, s.len() as int);
    let a = ws_lead_end(s, 0);
    let b = ws_trail_start(s, s.len() as int);
    if a < s.len() {
        assert(b > a) by {
            if b <= a {
                assert(is_ws(s[a]));
            }
        }
    }
}

/// Searching `x + y` for a character that `x` lacks searches `y`.
pub proof fn lemma_find_first_concat(x: Seq<char>, y: Seq<char>, c: char)
    requires
        forall|k: int| 0 <= k < x.len() ==> #[trigger] x[k] != c,
    ensures
        find_first(x + y, c) == match find_first(y, c) {
            Some(i) => Some(x.len() + i),
            None => None::<int>,
        },
{
    lemma_find_from_skip(x + y, c, 0, x.len() as int);
    lemma_find_from_shift(x, y, c, 0);
}

proof fn lemma_find_from_skip(s: Seq<char>, c: char, i: int, j: int)
    requires
        0 <= i <= j <= s.len(),
        forall|k: int| i <= k < j ==> #[trigger] s[k] != c,
    ensures
        find_from(s, c, i) == find_from(s, c, j),
    decreases j - i,
{
    if i < j {
        lemma_find_from_skip(s, c, i + 1, j);
    }
}

proof fn lemma_find_from_shift(x: Seq<char>, y: Seq<char>, c: char, k: int)
    requires
        0 <= k <= y.len(),
    ensures
        find_from(x + y, c, x.len() + k) == match find_from(y, c, k) {
            Some(i) => Some(x.len() + i),
            None => None::<int>,
        },
    decreases y.len() - k,
{
    if k < y.len() {
        assert((x + y)[x.len() + k] == y[k]);
        lemma_find_from_shift(x, y, c, k + 1);
    }
}

/// No occurrence of `c` before the first one.
pub proof fn lemma_find_first_none_before(s: Seq<char>, c: char)
    ensures
        match find_first(s, c) {
            Some(i) => 0 <= i < s.len() && s[i] == c && forall|k: int| 0 <= k < i ==> #[trigger] s[k] != c,
            None => forall|k: int| 0 <= k < s.len() ==> #[trigger] s[k] != c,
        },
{
    lemma_find_from_all(s, c, 0);
}

proof fn lemma_find_from_all(s: Seq<char>, c: char, i: int)
    requires
        0 <= i <= s.len(),
    ensures
        match find_from(s, c, i) {
            Some(j) => i <= j < s.len() && s[j] == c && forall|k: int| i <= k < j ==> #[trigger] s[k] != c,
            None => forall|k: int| i <= k < s.len() ==> #[trigger] s[k] != c,
        },
    decreases s.len() - i,
{
    if i < s.len() && s[i] != c {
        lemma_find_from_all(s, c, i + 1);
    }
}

} // verus!
