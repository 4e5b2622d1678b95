use vstd::prelude::*;
use crate::text::is_digit;
use crate::protocol::SCALE;

verus! {

/// At most this many digits before the decimal point are accepted.
pub const MAX_INT_DIGITS: usize = 9;

pub open spec fn digit_val(c: char) -> int {
    (c as u32) as int - ('0' as u32) as int
}

pub open spec fn all_digits(s: Seq<char>) -> bool {
    forall|i: int| 0 <= i < s.len() ==> is_digit(#[trigger] s[i])
}

/// The decimal number written by the digits `s`.
pub open spec fn digits_value(s: Seq<char>) -> int
    decreases s.len(),
{
    if s.len() == 0 { 0 } else { digits_value(s.drop_last()) * 10 + digit_val(s.last()) }
}

pub open spec fn pow10(n: nat) -> int
    decreases n,
{
    if n == 0 { 1 } else { 10 * pow10((n - 1) as nat) }
}

/// Millionths written by the fraction digits `f` (digits past the sixth are dropped).
pub open spec fn frac_micro(f: Seq<char>) -> int {
    let k: int = if f.len() < 6 { f.len() as int } else { 6 };
    digits_value(f.take(k)) * pow10((6 - k) as nat)
}

/// Position of the first `c` in `s`, or -1.
pub open spec fn first_pos(s: Seq<char>, c: char) -> int
    decreases s.len(),
{
    if s.len() == 0 {
        -1
    } else if s[0] == c {
        0
    } else {
        let r = first_pos(s.skip(1), c);
        if r < 0 { -1 } else { r + 1 }
    }
}

/// Value in millionths of an unsigned decimal `digits[.digits]` with at
/// least one digit and at most `MAX_INT_DIGITS` digits before the point.
pub open spec fn unsigned_value(s: Seq<char>) -> Option<int> {
    let d = first_pos(s, '.');
    let ip = if d < 0 { s } else { s.take(d) };
    let fp = if d < 0 { Seq::<char>::empty() } else { s.skip(d + 1) };
    if all_digits(ip) && all_digits(fp) && ip.len() <= MAX_INT_DIGITS && ip.len() + fp.len() >= 1 {
        Some(digits_value(ip) * SCALE + frac_micro(fp))
    } else {
        None
    }
}

/// Value in millionths of an optionally signed decimal number.
pub open spec fn parse_fixed(s: Seq<char>) -> Option<int> {
    if s.len() > 0 && s[0] == '-' {
        match unsigned_value(s.skip(1)) {
            Some(v) => Some(-v),
            None => None,
        }
    } else if s.len() > 0 && s[0] == '+' {
        unsigned_value(s.skip(1))
    } else {
        unsigned_value(s)
    }
}

proof fn lemma_pow10_values()
    ensures
        pow10(0) == 1, pow10(1) == 10, pow10(2) == 100, pow10(3) == 1000, pow10(4) == 10000,
        pow10(5) == 100000, pow10(6) == 1000000, pow10(7) == 10000000, pow10(8) == 100000000,
        pow10(9) == 1000000000,
{
    reveal_with_fuel(pow10, 10);
}

proof fn lemma_first_pos(s: Seq<char>, c: char)
    ensures
        -1 <= first_pos(s, c) < s.len(),
        first_pos(s, c) >= 0 ==> s[first_pos(s, c)] == c,
        forall|j: int| 0 <= j < s.len() && (first_pos(s, c) < 0 || j < first_pos(s, c)) ==> #[trigger] s[j] != c,
    decreases s.len(),
{
    if s.len() > 0 {
        lemma_first_pos(s.skip(1), c);
        assert forall|j: int| 0 <= j < s.len() && (first_pos(s, c) < 0 || j < first_pos(s, c)) implies #[trigger] s[j] != c by {
            if j > 0 { assert(s[j] == s.skip(1)[j - 1]); }
        }
    }
}

proof fn lemma_digits_bound(s: Seq<char>)
    requires
        all_digits(s),
    ensures
        0 <= digits_value(s) < pow10(s.len()),
    decreases s.len(),
{
    if s.len() > 0 {
        assert(is_digit(s[s.len() - 1]));
        assert forall|i: int| 0 <= i < s.drop_last().len() implies is_digit(#[trigger] s.drop_last()[i]) by {
            assert(s.drop_last()[i] == s[i]);
        }
        lemma_digits_bound(s.drop_last());
    }
}

proof fn lemma_pow10_mono(a: nat, b: nat)
    requires
        a <= b,
    ensures
        1 <= pow10(a) <= pow10(b),
    decreases b,
{
    if b > 0 && a < b {
        lemma_pow10_mono(a, (b - 1) as nat);
    } else if b > 0 {
        lemma_pow10_mono(0, (b - 1) as nat);
    }
}

/// Parses the unsigned decimal `s[start..]` to millionths.
fn parse_unsigned(s: &Vec<char>, start: usize) -> (r: Option<i64>)
    requires
        start <= s@.len(),
    ensures
        r matches Some(v) ==> unsigned_value(s@.skip(start as int)) == Some(v as int),
        r matches Some(v) ==> 0 <= v < 2_000_000_000_000_000,
        r is None ==> unsigned_value(s@.skip(start as int)) is None,
{
    let n = s.len();
    let ghost u = s@.skip(start as int);
    let mut acc: i64 = 0;
    let mut i: usize = start;
    proof { lemma_pow10_values(); }
    while i < n && '0' <= s[i] && s[i] <= '9'
        invariant
            n == s@.len(),
            start <= i <= n,
            u == s@.skip(start as int),
            i - start <= MAX_INT_DIGITS,
            all_digits(s@.subrange(start as int, i as int)),
            acc == digits_value(s@.subrange(start as int, i as int)),
            0 <= acc < pow10((i - start) as nat),
            pow10(8) == 100000000,
        decreases n - i,
    {
        if i - start == MAX_INT_DIGITS {
            proof {
                lemma_first_pos(u, '.');
                let d = first_pos(u, '.');
                assert forall|j: int| 0 <= j <= MAX_INT_DIGITS implies is_digit(#[trigger] u[j]) by {
                    if j < MAX_INT_DIGITS {
                        assert(u[j] == s@.subrange(start as int, i as int)[j]);
                    }
                }
                if d >= 0 && d <= MAX_INT_DIGITS {
                    assert(is_digit(u[d]));
                }
                if d < 0 {
                    assert(u.len() > MAX_INT_DIGITS);
                } else {
                    assert(u.take(d).len() > MAX_INT_DIGITS);
                }
            }
            return None;
        }
        let dv = (s[i] as u32 - '0' as u32) as i64;
        proof {
            let a = s@.subrange(start as int, i as int);
            let b = s@.subrange(start as int, i as int + 1);
            assert(b.drop_last() =~= a);
            assert(pow10((i + 1 - start) as nat) == 10 * pow10((i - start) as nat));
            lemma_pow10_mono((i - start) as nat, 8);
            assert forall|m: int| 0 <= m < b.len() implies is_digit(#[trigger] b[m]) by {
                if m < a.len() { assert(b[m] == a[m]); }
            }
        }
        acc = acc * 10 + dv;
        i = i + 1;
    }
    let ghost ilen = (i - start) as int;
    let ghost ip_seen = s@.subrange(start as int, i as int);
    proof {
        lemma_first_pos(u, '.');
        lemma_pow10_mono(ilen as nat, 9);
        assert forall|j: int| 0 <= j < ilen implies #[trigger] u[j] == ip_seen[j] && u[j] != '.' by {
            assert(is_digit(ip_seen[j]));
        }
    }
    if i == n {
        proof {
            assert(u =~= ip_seen);
            let d = first_pos(u, '.');
            if d >= 0 { assert(u[d] == ip_seen[d]); }
            assert(d < 0);
            assert(Seq::<char>::empty().take(0) =~= Seq::<char>::empty());
            assert(frac_micro(Seq::<char>::empty()) == 0);
        }
        if i == start {
            return None;
        }
        return Some(acc * SCALE);
    }
    if s[i] != '.' {
        proof {
            let d = first_pos(u, '.');
            assert(u[ilen] == s@[i as int]);
            assert(!is_digit(u[ilen]));
            if d >= 0 {
                if d < ilen { assert(u[d] == ip_seen[d]); }
                assert(d != ilen);
                assert(u.take(d)[ilen] == u[ilen]);
            } else {
                assert(!all_digits(u));
            }
        }
        return None;
    }
    proof {
        let d = first_pos(u, '.');
        assert(u[ilen] == '.');
        if d >= 0 && d < ilen { assert(u[d] == ip_seen[d]); }
        assert(d == ilen);
        assert(u.take(d) =~= ip_seen);
    }
    let fstart = i + 1;
    let ghost fp = s@.skip(fstart as int);
    proof { assert(fp =~= u.skip(ilen + 1)); }
    let mut facc: i64 = 0;
    let mut j: usize = fstart;
    while j < n
        invariant
            n == s@.len(),
            fstart <= j <= n,
            fp == s@.skip(fstart as int),
            first_pos(u, '.') >= 0,
            u == s@.skip(start as int),
            fp == u.skip(first_pos(u, '.') + 1),
            all_digits(s@.subrange(fstart as int, j as int)),
            facc == digits_value(fp.take(if j - fstart < 6 { (j - fstart) as int } else { 6 })),
            0 <= facc < 1000000,
        decreases n - j,
    {
        if !('0' <= s[j] && s[j] <= '9') {
            proof {
                assert(fp[j - fstart] == s@[j as int]);
                assert(!all_digits(fp));
                assert(unsigned_value(u) is None);
            }
            return None;
        }
        let k = j - fstart;
        if k < 6 {
            let dv = (s[j] as u32 - '0' as u32) as i64;
            proof {
                let t = fp.take(k as int + 1);
                assert(t.drop_last() =~= fp.take(k as int));
                assert(t.last() == s@[j as int]);
                assert forall|m: int| 0 <= m < t.len() implies is_digit(#[trigger] t[m]) by {
                    if m < k { assert(t[m] == s@.subrange(fstart as int, j as int)[m]); }
                }
                lemma_digits_bound(t);
                lemma_pow10_mono((k + 1) as nat, 6);
                lemma_pow10_values();
            }
            facc = facc * 10 + dv;
        } else {
            proof {
                assert(fp.take(6) =~= fp.take(6));
            }
        }
        proof {
            assert(s@.subrange(fstart as int, j as int + 1) =~= s@.subrange(fstart as int, j as int).push(s@[j as int]));
        }
        j = j + 1;
    }
    proof {
        assert(s@.subrange(fstart as int, j as int) =~= fp);
    }
    if i == start && j == fstart {
        return None;
    }
    let flen = j - fstart;
    let k: usize = if flen < 6 { flen } else { 6 };
    let mut scale: i64 = 1;
    let mut m: usize = k;
    while m < 6
        invariant
            k <= m <= 6,
            scale == pow10((m - k) as nat),
            1 <= scale <= pow10((m - k) as nat),
            pow10(6) == 1000000,
        decreases 6 - m,
    {
        proof {
            assert(pow10((m + 1 - k) as nat) == 10 * pow10((m - k) as nat));
            lemma_pow10_mono((m + 1 - k) as nat, 6);
        }
        scale = scale * 10;
        m = m + 1;
    }
    proof {
        lemma_pow10_mono((m - k) as nat, 6);
        assert(facc * scale <= 999999 * 1000000) by (nonlinear_arith)
            requires 0 <= facc < 1000000, 1 <= scale <= 1000000;
        assert(acc <= 999999999);
    }
    Some(acc * SCALE + facc * scale)
}

/// Parses an optionally signed decimal number (`-12.5`, `+3`, `.25`, `7.`) to
/// millionths; digits past the sixth decimal are dropped.
pub fn parse_fixed_exec(s: &Vec<char>) -> (r: Option<i64>)
    ensures
        r matches Some(v) ==> parse_fixed(s@) == Some(v as int),
        r is None ==> parse_fixed(s@) is None,
        r matches Some(v) ==> -2_000_000_000_000_000 < v < 2_000_000_000_000_000,
{
    let n = s.len();
    if n > 0 && (s[0] == '-' || s[0] == '+') {
        match parse_unsigned(s, 1) {
            Some(v) => if s[0] == '-' { Some(-v) } else { Some(v) },
            None => None,
        }
    } else {
        proof { assert(s@.skip(0) =~= s@); }
        parse_unsigned(s, 0)
    }
}

/// Characters that can be part of a number token.
pub open spec fn number_char(c: char) -> bool {
    is_digit(c) || c == '.' || c == '-' || c == '+'
}

/// Decimal commas read as points; everything that cannot be part of a number
/// becomes a space.
pub open spec fn number_cleaned(s: Seq<char>) -> Seq<char> {
    s.map_values(|c: char| if c == ',' { '.' } else if number_char(c) { c } else { ' ' })
}

/// End of the run of non-space characters that starts at `i`.
pub open spec fn run_end(t: Seq<char>, i: int) -> int
    decreases t.len() - i,
{
    if i < 0 || i >= t.len() || t[i] == ' ' { i } else { run_end(t, i + 1) }
}

/// The first space-separated token of `t` at or after `i` that parses.
pub open spec fn first_number_from(t: Seq<char>, i: int) -> Option<int>
    decreases t.len() - i,
{
    if i < 0 || i >= t.len() {
        None
    } else if t[i] == ' ' {
        first_number_from(t, i + 1)
    } else {
        let j = run_end(t, i);
        if j <= i || j > t.len() {
            None
        } else {
            match parse_fixed(t.subrange(i, j)) {
                Some(v) => Some(v),
                None => first_number_from(t, j),
            }
        }
    }
}

/// The first number written in `s`, in millionths.
pub open spec fn first_number(s: Seq<char>) -> Option<int> {
    first_number_from(number_cleaned(s), 0)
}

proof fn lemma_run_end(t: Seq<char>, i: int)
    requires
        0 <= i <= t.len(),
    ensures
        i <= run_end(t, i) <= t.len(),
        forall|k: int| i <= k < run_end(t, i) ==> t[k] != ' ',
        run_end(t, i) < t.len() ==> t[run_end(t, i)] == ' ',
    decreases t.len() - i,
{
    if i < t.len() && t[i] != ' ' {
        lemma_run_end(t, i + 1);
    }
}

/// Finds the first number written in `s` (see `first_number`).
pub fn first_number_exec(s: &Vec<char>) -> (r: Option<i64>)
    ensures
        r matches Some(v) ==> first_number(s@) == Some(v as int),
        r is None ==> first_number(s@) is None,
        r matches Some(v) ==> -2_000_000_000_000_000 < v < 2_000_000_000_000_000,
{
    let mut t: Vec<char> = Vec::new();
    let mut k: usize = 0;
    while k < s.len()
        invariant
            k <= s@.len(),
            t@ == number_cleaned(s@.take(k as int)),
        decreases s@.len() - k,
    {
        let c = s[k];
        let d = if c == ',' { '.' } else if ('0' <= c && c <= '9') || c == '.' || c == '-' || c == '+' { c } else { ' ' };
        t.push(d);
        proof { assert(t@ =~= number_cleaned(s@.take(k as int + 1))); }
        k = k + 1;
    }
    proof { assert(s@.take(k as int) =~= s@); }
    let n = t.len();
    let mut i: usize = 0;
    while i < n
        invariant
            n == t@.len(),
            i <= n,
            t@ == number_cleaned(s@),
            first_number(s@) == first_number_from(t@, i as int),
        decreases n - i,
    {
        if t[i] == ' ' {
            i = i + 1;
        } else {
            let mut j: usize = i;
            while j < n && t[j] != ' '
                invariant
                    n == t@.len(),
                    i <= j <= n,
                    run_end(t@, i as int) == run_end(t@, j as int),
                decreases n - j,
            {
                j = j + 1;
            }
            proof { lemma_run_end(t@, j as int); }
            let tok = crate::text::slice_vec(&t, i, j);
            match parse_fixed_exec(&tok) {
                Some(v) => { return Some(v); }
                None => { i = j; }
            }
        }
    }
    None
}

} // verus!
