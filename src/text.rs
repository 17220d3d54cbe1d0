use vstd::prelude::*;
use vstd::string::*;

verus! {

/// Unicode `White_Space`, the set that `char::is_whitespace` tests.
pub open spec fn is_whitespace(c: char) -> bool {
    let u = c as u32;
    (9 <= u && u <= 13) || u == 32 || u == 0x85 || u == 0xa0 || u == 0x1680 || (0x2000 <= u && u
        <= 0x200a) || u == 0x2028 || u == 0x2029 || u == 0x202f || u == 0x205f || u == 0x3000
}

/// Number of whitespace characters at the start of `s`.
pub open spec fn leading_ws(s: Seq<char>) -> nat
    decreases s.len(),
{
    if s.len() > 0 && is_whitespace(s[0]) {
        1 + leading_ws(s.drop_first())
    } else {
        0
    }
}

/// Number of whitespace characters at the end of `s`.
pub open spec fn trailing_ws(s: Seq<char>) -> nat
    decreases s.len(),
{
    if s.len() > 0 && is_whitespace(s.last()) {
        1 + trailing_ws(s.drop_last())
    } else {
        0
    }
}

/// `s` without its leading and trailing whitespace.
pub open spec fn trim(s: Seq<char>) -> Seq<char> {
    let t = s.skip(leading_ws(s) as int);
    t.take(t.len() - trailing_ws(t))
}

/// Index of the first `c` among the first `n` characters of `s`, or -1.
pub open spec fn find_in(s: Seq<char>, c: char, n: int) -> int
    decreases n,
{
    if n <= 0 {
        -1
    } else {
        let r = find_in(s, c, n - 1);
        if r >= 0 {
            r
        } else if s[n - 1] == c {
            n - 1
        } else {
            -1
        }
    }
}

/// Index of the first `c` in `s`, or -1.
pub open spec fn find(s: Seq<char>, c: char) -> int {
    find_in(s, c, s.len() as int)
}

/// What comes before the first `c` in `s` (all of `s` if there is none).
pub open spec fn head(s: Seq<char>, c: char) -> Seq<char> {
    let k = find(s, c);
    if k < 0 {
        s
    } else {
        s.take(k)
    }
}

/// What comes after the first `c` in `s`, if `s` holds one.
pub open spec fn tail(s: Seq<char>, c: char) -> Option<Seq<char>> {
    let k = find(s, c);
    if k < 0 {
        None
    } else {
        Some(s.skip(k + 1))
    }
}

pub open spec fn is_digit(c: char) -> bool {
    48 <= (c as u32) && (c as u32) <= 57
}

pub open spec fn all_digits(s: Seq<char>) -> bool {
    forall|i: int| 0 <= i < s.len() ==> is_digit(#[trigger] s[i])
}

pub open spec fn digit_value(c: char) -> nat {
    if is_digit(c) {
        (c as u32 - 48) as nat
    } else {
        0
    }
}

/// The number that a string of decimal digits writes.
pub open spec fn decimal_value(s: Seq<char>) -> nat
    decreases s.len(),
{
    if s.len() == 0 {
        0
    } else {
        (decimal_value(s.drop_last()) * 10 + digit_value(s.last())) as nat
    }
}

/// A non-empty run of decimal digits whose value is at most `max`.
pub open spec fn digits_of(d: Seq<char>, max: nat) -> Option<nat> {
    if d.len() > 0 && all_digits(d) && decimal_value(d) <= max {
        Some(decimal_value(d))
    } else {
        None
    }
}

/// An unsigned decimal integer at most `max`, with an optional `+`, as
/// Rust's `from_str` reads it for an unsigned type.
pub open spec fn unsigned_of(s: Seq<char>, max: nat) -> Option<nat> {
    if s.len() > 0 && s[0] == '+' {
        digits_of(s.drop_first(), max)
    } else {
        digits_of(s, max)
    }
}

/// A signed decimal integer within `i64`, with an optional `+` or `-`, as
/// Rust's `from_str` reads it for `i64`.
pub open spec fn i64_of(s: Seq<char>) -> Option<int> {
    if s.len() > 0 && s[0] == '-' {
        match digits_of(s.drop_first(), 0x8000_0000_0000_0000) {
            Some(v) => Some(-v),
            None => None,
        }
    } else {
        match unsigned_of(s, 0x7fff_ffff_ffff_ffff) {
            Some(v) => Some(v as int),
            None => None,
        }
    }
}

/// Whether `c` is whitespace, by the same table as `is_whitespace`.
pub fn is_whitespace_char(c: char) -> (r: bool)
    ensures
        r == is_whitespace(c),
{
    let u = c as u32;
    (9 <= u && u <= 13) || u == 32 || u == 0x85 || u == 0xa0 || u == 0x1680 || (0x2000 <= u && u
        <= 0x200a) || u == 0x2028 || u == 0x2029 || u == 0x202f || u == 0x205f || u == 0x3000
}

/// `s` without leading and trailing whitespace.
pub fn trim_str(s: &str) -> (r: &str)
    ensures
        r@ == trim(s@),
{
    let n = s.unicode_len();
    let mut i: usize = 0;
    assert(s@.skip(0) =~= s@);
    while i < n && is_whitespace_char(s.get_char(i))
        invariant
            i <= n,
            n == s@.len(),
            leading_ws(s@) == i + leading_ws(s@.skip(i as int)),
        decreases n - i,
    {
        assert(s@.skip(i as int).drop_first() =~= s@.skip(i + 1));
        i = i + 1;
    }
    assert(leading_ws(s@.skip(i as int)) == 0);
    let t = s.substring_char(i, n);
    assert(t@ =~= s@.skip(i as int));
    let m = n - i;
    let mut j: usize = m;
    assert(t@.take(m as int) =~= t@);
    while j > 0 && is_whitespace_char(t.get_char(j - 1))
        invariant
            j <= m,
            t@.len() == m,
            trailing_ws(t@) == (m - j) + trailing_ws(t@.take(j as int)),
        decreases j,
    {
        assert(t@.take(j as int).drop_last() =~= t@.take(j - 1));
        j = j - 1;
    }
    assert(trailing_ws(t@.take(j as int)) == 0);
    t.substring_char(0, j)
}

pub proof fn lemma_find_in_stable(s: Seq<char>, c: char, k: int, m: int)
    requires
        0 <= k <= m,
        find_in(s, c, k) >= 0,
    ensures
        find_in(s, c, m) == find_in(s, c, k),
    decreases m - k,
{
    if m > k {
        lemma_find_in_stable(s, c, k, m - 1);
    }
}

/// Index of the first `c` in `s`.
pub fn find_char(s: &str, c: char) -> (r: Option<usize>)
    ensures
        match r {
            Some(k) => find(s@, c) == k,
            None => find(s@, c) == -1,
        },
{
    let n = s.unicode_len();
    let mut i: usize = 0;
    while i < n
        invariant
            i <= n,
            n == s@.len(),
            find_in(s@, c, i as int) == -1,
        decreases n - i,
    {
        if s.get_char(i) == c {
            proof {
                lemma_find_in_stable(s@, c, i + 1, n as int);
            }
            return Some(i);
        }
        i = i + 1;
    }
    None
}

/// `s` cut at the first `c`: what comes before it, and what comes after it
/// if there is one.
pub fn split_once(s: &str, c: char) -> (r: (&str, Option<&str>))
    ensures
        r.0@ == head(s@, c),
        match r.1 {
            Some(t) => tail(s@, c) == Some(t@),
            None => tail(s@, c) is None,
        },
{
    match find_char(s, c) {
        None => (s, None),
        Some(k) => {
            proof {
                find_in_bounds(s@, c, s@.len() as int);
            }
            let n = s.unicode_len();
            let before = s.substring_char(0, k);
            let after = s.substring_char(k + 1, n);
            assert(before@ =~= s@.take(k as int));
            assert(after@ =~= s@.skip(k + 1));
            (before, Some(after))
        },
    }
}

pub proof fn find_in_bounds(s: Seq<char>, c: char, n: int)
    requires
        0 <= n <= s.len(),
    ensures
        -1 <= find_in(s, c, n) < n,
        find_in(s, c, n) >= 0 ==> s[find_in(s, c, n)] == c,
    decreases n,
{
    if n > 0 {
        find_in_bounds(s, c, n - 1);
    }
}

/// The digits of `s` from position `from` on, read as a number at most `max`.
fn parse_digits(s: &str, from: usize, max: u64) -> (r: Option<u64>)
    requires
        from <= s@.len(),
    ensures
        match r {
            Some(v) => digits_of(s@.skip(from as int), max as nat) == Some(v as nat),
            None => digits_of(s@.skip(from as int), max as nat) is None,
        },
{
    let n = s.unicode_len();
    let ghost d = s@.skip(from as int);
    let mut i: usize = from;
    let mut acc: u64 = 0;
    let mut over = false;
    while i < n
        invariant
            from <= i <= n,
            n == s@.len(),
            d == s@.skip(from as int),
            all_digits(s@.subrange(from as int, i as int)),
            !over ==> acc == decimal_value(s@.subrange(from as int, i as int)) && acc <= max,
            over ==> decimal_value(s@.subrange(from as int, i as int)) > max,
        decreases n - i,
    {
        let c = s.get_char(i);
        let u = c as u32;
        if u < 48 || u > 57 {
            assert(d[i - from] == c);
            return None;
        }
        let ghost pre = s@.subrange(from as int, i as int);
        let ghost next = s@.subrange(from as int, i + 1);
        assert(next.drop_last() =~= pre);
        assert(next.last() == c);
        assert(decimal_value(next) == decimal_value(pre) * 10 + digit_value(c));
        if !over {
            let nv: u128 = acc as u128 * 10 + (u - 48) as u128;
            if nv > max as u128 {
                over = true;
            } else {
                acc = nv as u64;
            }
        }
        assert(all_digits(next)) by {
            assert forall|k: int| 0 <= k < next.len() implies is_digit(#[trigger] next[k]) by {
                if k < pre.len() {
                    assert(next[k] == pre[k]);
                }
            }
        }
        i = i + 1;
    }
    assert(s@.subrange(from as int, n as int) =~= d);
    if i == from || over {
        None
    } else {
        Some(acc)
    }
}

/// Reads `s` as Rust's `u32::from_str` does.
pub fn parse_u32(s: &str) -> (r: Option<u32>)
    ensures
        match r {
            Some(v) => unsigned_of(s@, 0xffff_ffff) == Some(v as nat),
            None => unsigned_of(s@, 0xffff_ffff) is None,
        },
{
    let start: usize = if s.unicode_len() > 0 && s.get_char(0) == '+' {
        1
    } else {
        0
    };
    assert(s@.skip(1) =~= s@.drop_first());
    assert(s@.skip(0) =~= s@);
    match parse_digits(s, start, 0xffff_ffff) {
        Some(v) => Some(v as u32),
        None => None,
    }
}

/// Reads `s` as Rust's `u64::from_str` does.
pub fn parse_u64(s: &str) -> (r: Option<u64>)
    ensures
        match r {
            Some(v) => unsigned_of(s@, 0xffff_ffff_ffff_ffff) == Some(v as nat),
            None => unsigned_of(s@, 0xffff_ffff_ffff_ffff) is None,
        },
{
    let start: usize = if s.unicode_len() > 0 && s.get_char(0) == '+' {
        1
    } else {
        0
    };
    assert(s@.skip(1) =~= s@.drop_first());
    assert(s@.skip(0) =~= s@);
    parse_digits(s, start, 0xffff_ffff_ffff_ffff)
}

/// Reads `s` as Rust's `i64::from_str` does.
pub fn parse_i64(s: &str) -> (r: Option<i64>)
    ensures
        match r {
            Some(v) => i64_of(s@) == Some(v as int),
            None => i64_of(s@) is None,
        },
{
    assert(s@.skip(1) =~= s@.drop_first());
    assert(s@.skip(0) =~= s@);
    if s.unicode_len() > 0 && s.get_char(0) == '-' {
        match parse_digits(s, 1, 0x8000_0000_0000_0000) {
            Some(v) => {
                if v == 0x8000_0000_0000_0000 {
                    Some(i64::MIN)
                } else {
                    Some(-(v as i64))
                }
            },
            None => None,
        }
    } else {
        let start: usize = if s.unicode_len() > 0 && s.get_char(0) == '+' {
            1
        } else {
            0
        };
        match parse_digits(s, start, 0x7fff_ffff_ffff_ffff) {
            Some(v) => Some(v as i64),
            None => None,
        }
    }
}

/// Leading whitespace stops at the first character that is not whitespace.
pub proof fn lemma_leading_ws_bound(s: Seq<char>, i: int)
    requires
        0 <= i < s.len(),
        !is_whitespace(s[i]),
    ensures
        leading_ws(s) <= i,
    decreases i,
{
    if i > 0 && is_whitespace(s[0]) {
        assert(s.drop_first()[i - 1] == s[i]);
        lemma_leading_ws_bound(s.drop_first(), i - 1);
    }
}

/// Trailing whitespace stops at the last character that is not whitespace.
pub proof fn lemma_trailing_ws_bound(s: Seq<char>, j: int)
    requires
        0 <= j < s.len(),
        !is_whitespace(s[j]),
    ensures
        trailing_ws(s) <= s.len() - 1 - j,
    decreases s.len(),
{
    if is_whitespace(s.last()) {
        assert(s.drop_last()[j] == s[j]);
        lemma_trailing_ws_bound(s.drop_last(), j);
    }
}

/// A string that holds a character other than whitespace does not trim to
/// nothing.
pub proof fn lemma_trim_keeps_non_whitespace(s: Seq<char>, i: int)
    requires
        0 <= i < s.len(),
        !is_whitespace(s[i]),
    ensures
        trim(s).len() > 0,
{
    lemma_leading_ws_bound(s, i);
    let lw = leading_ws(s) as int;
    let t = s.skip(lw);
    assert(t[i - lw] == s[i]);
    lemma_trailing_ws_bound(t, i - lw);
}

/// The first `c` of `a + [c] + b`, where `a` holds no `c`, is the one
/// after `a`.
pub proof fn lemma_find_after(a: Seq<char>, c: char, b: Seq<char>)
    requires
        forall|i: int| 0 <= i < a.len() ==> a[i] != c,
    ensures
        find(a + seq![c] + b, c) == a.len(),
        head(a + seq![c] + b, c) == a,
        tail(a + seq![c] + b, c) == Some(b),
{
    let s = a + seq![c] + b;
    assert forall|n: int| 0 <= n <= a.len() implies find_in(s, c, n) == -1 by {
        lemma_find_in_absent(s, c, n, a);
    }
    assert(find_in(s, c, a.len() as int) == -1);
    assert(s[a.len() as int] == c);
    assert(find_in(s, c, a.len() as int + 1) == a.len());
    lemma_find_in_stable(s, c, a.len() as int + 1, s.len() as int);
    assert(s.take(a.len() as int) =~= a);
    assert(s.skip(a.len() as int + 1) =~= b);
}

proof fn lemma_find_in_absent(s: Seq<char>, c: char, n: int, a: Seq<char>)
    requires
        0 <= n <= a.len(),
        a.len() <= s.len(),
        forall|i: int| 0 <= i < a.len() ==> a[i] != c,
        forall|i: int| 0 <= i < a.len() ==> s[i] == a[i],
    ensures
        find_in(s, c, n) == -1,
    decreases n,
{
    if n > 0 {
        lemma_find_in_absent(s, c, n - 1, a);
    }
}

/// A string that neither begins nor ends with whitespace trims to itself.
pub proof fn lemma_trim_plain(s: Seq<char>)
    requires
        s.len() > 0,
        !is_whitespace(s[0]),
        !is_whitespace(s.last()),
    ensures
        trim(s) == s,
{
    assert(leading_ws(s) == 0);
    assert(s.skip(0) =~= s);
    assert(trailing_ws(s) == 0);
    assert(s.take(s.len() as int) =~= s);
}

} // verus!
