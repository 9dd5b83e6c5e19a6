use vstd::prelude::*;
use vstd::string::*;

verus! {

// ---------------------------------------------------------------------------
// Searching for characters and substrings
// ---------------------------------------------------------------------------

/// Index of the first occurrence of `c` in `s`, or -1 when absent.
pub open spec fn first_ix(s: Seq<char>, c: char) -> int
    decreases s.len(),
{
    if s.len() == 0 {
        -1
    } else if s[0] == c {
        0
    } else {
        let r = first_ix(s.skip(1), c);
        if r < 0 {
            -1
        } else {
            r + 1
        }
    }
}

pub proof fn lemma_first_ix(s: Seq<char>, c: char)
    ensures
        first_ix(s, c) == -1 ==> forall|j: int| 0 <= j < s.len() ==> s[j] != c,
        first_ix(s, c) != -1 ==> {
            &&& 0 <= first_ix(s, c) < s.len()
            &&& s[first_ix(s, c)] == c
            &&& forall|j: int| 0 <= j < first_ix(s, c) ==> s[j] != c
        },
    decreases s.len(),
{
    if s.len() > 0 && s[0] != c {
        lemma_first_ix(s.skip(1), c);
        let t = s.skip(1);
        if first_ix(s, c) == -1 {
            assert forall|j: int| 0 <= j < s.len() implies s[j] != c by {
                if j > 0 {
                    assert(t[j - 1] == s[j]);
                }
            }
        } else {
            let r = first_ix(t, c);
            assert(s[r + 1] == t[r]);
            assert forall|j: int| 0 <= j < r + 1 implies s[j] != c by {
                if j > 0 {
                    assert(t[j - 1] == s[j]);
                }
            }
        }
    }
}

/// The characterization pins `first_ix` down: an occurrence with nothing
/// before it is the first occurrence.
pub proof fn lemma_first_ix_is(s: Seq<char>, c: char, k: int)
    requires
        0 <= k < s.len(),
        s[k] == c,
        forall|j: int| 0 <= j < k ==> s[j] != c,
    ensures
        first_ix(s, c) == k,
{
    lemma_first_ix(s, c);
}

/// Index of the first occurrence of the substring `pat` in `s`, or -1.
pub open spec fn first_sub_ix(s: Seq<char>, pat: Seq<char>) -> int
    decreases s.len(),
{
    if s.len() < pat.len() {
        -1
    } else if s.take(pat.len() as int) == pat {
        0
    } else if s.len() == 0 {
        -1
    } else {
        let r = first_sub_ix(s.skip(1), pat);
        if r < 0 {
            -1
        } else {
            r + 1
        }
    }
}

pub open spec fn matches_at(s: Seq<char>, pat: Seq<char>, i: int) -> bool {
    0 <= i && i + pat.len() <= s.len() && s.subrange(i, i + pat.len() as int) == pat
}

pub proof fn lemma_first_sub_ix(s: Seq<char>, pat: Seq<char>)
    requires
        pat.len() > 0,
    ensures
        first_sub_ix(s, pat) == -1 ==> forall|j: int| #![trigger s.subrange(j, j + pat.len() as int)]
            0 <= j ==> !matches_at(s, pat, j),
        first_sub_ix(s, pat) != -1 ==> {
            &&& matches_at(s, pat, first_sub_ix(s, pat))
            &&& forall|j: int| #![trigger s.subrange(j, j + pat.len() as int)]
                0 <= j < first_sub_ix(s, pat) ==> !matches_at(s, pat, j)
        },
    decreases s.len(),
{
    if s.len() >= pat.len() && s.take(pat.len() as int) == pat {
        assert(s.subrange(0, pat.len() as int) == s.take(pat.len() as int));
    } else if s.len() > 0 {
        lemma_first_sub_ix(s.skip(1), pat);
        let t = s.skip(1);
        assert forall|j: int| #![trigger s.subrange(j, j + pat.len() as int)] 1 <= j
            && j + pat.len() <= s.len() implies s.subrange(j, j + pat.len() as int) == t.subrange(
            j - 1,
            j - 1 + pat.len() as int,
        ) by {
            assert(s.subrange(j, j + pat.len() as int) =~= t.subrange(
                j - 1,
                j - 1 + pat.len() as int,
            ));
        }
        if s.len() < pat.len() {
        } else {
            assert(s.take(pat.len() as int) == s.subrange(0, pat.len() as int));
            assert(!matches_at(s, pat, 0));
        }
    }
}

pub proof fn lemma_first_sub_ix_is(s: Seq<char>, pat: Seq<char>, k: int)
    requires
        pat.len() > 0,
        matches_at(s, pat, k),
        forall|j: int| #![trigger s.subrange(j, j + pat.len() as int)] 0 <= j < k ==> !matches_at(
            s,
            pat,
            j,
        ),
    ensures
        first_sub_ix(s, pat) == k,
{
    lemma_first_sub_ix(s, pat);
}

/// Where the first occurrence lands when a `c`-free prefix is put in front.
pub proof fn lemma_first_ix_concat(x: Seq<char>, y: Seq<char>, c: char)
    requires
        forall|j: int| 0 <= j < x.len() ==> x[j] != c,
    ensures
        ({
            let f = first_ix(y, c);
            first_ix(x + y, c) == if f >= 0 {
                x.len() + f
            } else {
                -1
            }
        }),
{
    lemma_first_ix(y, c);
    let f = first_ix(y, c);
    if f >= 0 {
        assert((x + y)[x.len() + f] == y[f]);
        assert forall|j: int| 0 <= j < x.len() + f implies (x + y)[j] != c by {
            if j < x.len() {
                assert((x + y)[j] == x[j]);
            } else {
                assert((x + y)[j] == y[j - x.len()]);
            }
        }
        lemma_first_ix_is(x + y, c, x.len() + f);
    } else {
        assert forall|j: int| 0 <= j < (x + y).len() implies (x + y)[j] != c by {
            if j < x.len() {
                assert((x + y)[j] == x[j]);
            } else {
                assert((x + y)[j] == y[j - x.len()]);
            }
        }
        lemma_first_ix(x + y, c);
        if first_ix(x + y, c) != -1 {
            assert(false);
        }
    }
}

/// How many times `c` occurs in `s`.
pub open spec fn count_char(s: Seq<char>, c: char) -> nat
    decreases s.len(),
{
    if s.len() == 0 {
        0
    } else {
        count_char(s.drop_last(), c) + if s.last() == c {
            1nat
        } else {
            0nat
        }
    }
}

/// Counting distributes over concatenation.
pub proof fn lemma_count_char_concat(x: Seq<char>, y: Seq<char>, c: char)
    ensures
        count_char(x + y, c) == count_char(x, c) + count_char(y, c),
    decreases y.len(),
{
    if y.len() == 0 {
        assert(x + y =~= x);
    } else {
        lemma_count_char_concat(x, y.drop_last(), c);
        assert((x + y).drop_last() =~= x + y.drop_last());
        assert((x + y).last() == y.last());
    }
}

/// A `c`-free string counts zero occurrences of `c`.
pub proof fn lemma_count_char_zero(s: Seq<char>, c: char)
    requires
        forall|j: int| 0 <= j < s.len() ==> s[j] != c,
    ensures
        count_char(s, c) == 0,
    decreases s.len(),
{
    if s.len() > 0 {
        lemma_count_char_zero(s.drop_last(), c);
    }
}

// ---------------------------------------------------------------------------
// Trimming, as Rust's `str::trim` does: Unicode `White_Space` at both ends
// ---------------------------------------------------------------------------

pub open spec fn is_space(c: char) -> bool {
    let u = c as u32;
    (9 <= u && u <= 13) || u == 32 || u == 133 || u == 160 || u == 0x1680 || (0x2000 <= u && u
        <= 0x200A) || u == 0x2028 || u == 0x2029 || u == 0x202F || u == 0x205F || u == 0x3000
}

pub fn is_space_exec(c: char) -> (r: bool)
    ensures
        r == is_space(c),
{
    let u = c as u32;
    (9 <= u && u <= 13) || u == 32 || u == 133 || u == 160 || u == 0x1680 || (0x2000 <= u && u
        <= 0x200A) || u == 0x2028 || u == 0x2029 || u == 0x202F || u == 0x205F || u == 0x3000
}

pub open spec fn trim_start_spec(s: Seq<char>) -> Seq<char>
    decreases s.len(),
{
    if s.len() > 0 && is_space(s[0]) {
        trim_start_spec(s.skip(1))
    } else {
        s
    }
}

pub open spec fn trim_end_spec(s: Seq<char>) -> Seq<char>
    decreases s.len(),
{
    if s.len() > 0 && is_space(s.last()) {
        trim_end_spec(s.drop_last())
    } else {
        s
    }
}

pub open spec fn trim_spec(s: Seq<char>) -> Seq<char> {
    trim_end_spec(trim_start_spec(s))
}

// ---------------------------------------------------------------------------
// Decimal numerals
// ---------------------------------------------------------------------------

pub open spec fn is_digit(c: char) -> bool {
    48 <= c as u32 && c as u32 <= 57
}

pub open spec fn digit_char(d: nat) -> char {
    ((48 + d) as u8) as char
}

pub open spec fn all_digits(s: Seq<char>) -> bool {
    forall|i: int| 0 <= i < s.len() ==> is_digit(#[trigger] s[i])
}

/// Numeric value of a sequence of decimal digits.
pub open spec fn digits_val(s: Seq<char>) -> nat
    decreases s.len(),
{
    if s.len() == 0 {
        0
    } else {
        digits_val(s.drop_last()) * 10 + (s.last() as u32 - 48) as nat
    }
}

/// Decimal numeral of `n`, most significant digit first, no leading zeros
/// (a single `'0'` for zero).
pub open spec fn dec_digits(n: nat) -> Seq<char>
    decreases n,
{
    if n < 10 {
        seq![digit_char(n)]
    } else {
        dec_digits(n / 10) + seq![digit_char(n % 10)]
    }
}

/// Decimal numeral of a signed value: a leading '-' for negatives.
pub open spec fn i64_dec_digits(n: i64) -> Seq<char> {
    if n >= 0 {
        dec_digits(n as nat)
    } else {
        seq!['-'] + dec_digits((-(n as int)) as nat)
    }
}

/// `s` left-padded with '0' up to width `w` (unchanged when already longer).
pub open spec fn zero_pad(s: Seq<char>, w: nat) -> Seq<char> {
    if s.len() >= w {
        s
    } else {
        Seq::new((w - s.len()) as nat, |i: int| '0') + s
    }
}

/// What Rust's `str::parse` accepts for an unsigned integer bounded by `max`:
/// an optional leading '+', then at least one digit, and no overflow.
pub open spec fn strip_plus(s: Seq<char>) -> Seq<char> {
    if s.len() > 0 && s[0] == '+' {
        s.skip(1)
    } else {
        s
    }
}

pub open spec fn uint_parse_ok(s: Seq<char>, max: nat) -> bool {
    let d = strip_plus(s);
    d.len() > 0 && all_digits(d) && digits_val(d) <= max
}

pub open spec fn uint_parse_val(s: Seq<char>) -> nat {
    digits_val(strip_plus(s))
}

/// What Rust's `str::parse` accepts for an `i64`: an optional sign, then at
/// least one digit, and no overflow.
pub open spec fn i64_parse_ok(s: Seq<char>) -> bool {
    if s.len() > 0 && s[0] == '-' {
        let d = s.skip(1);
        d.len() > 0 && all_digits(d) && digits_val(d) <= 0x8000000000000000
    } else {
        uint_parse_ok(s, 0x7FFFFFFFFFFFFFFF)
    }
}

pub open spec fn i64_parse_val(s: Seq<char>) -> int {
    if s.len() > 0 && s[0] == '-' {
        -(digits_val(s.skip(1)) as int)
    } else {
        uint_parse_val(s) as int
    }
}

// ---------------------------------------------------------------------------
// Executable counterparts
// ---------------------------------------------------------------------------

pub fn find_char(s: &str, c: char) -> (r: Option<usize>)
    ensures
        match r {
            Some(i) => first_ix(s@, c) == i,
            None => first_ix(s@, c) == -1,
        },
{
    let n = s.unicode_len();
    let mut k: usize = 0;
    while k < n
        invariant
            k <= n,
            n == s@.len(),
            forall|j: int| 0 <= j < k ==> s@[j] != c,
        decreases n - k,
    {
        if s.get_char(k) == c {
            proof {
                lemma_first_ix_is(s@, c, k as int);
            }
            return Some(k);
        }
        k += 1;
    }
    proof {
        lemma_first_ix(s@, c);
    }
    None
}

/// First occurrence of the (non-empty) substring `pat` in `s`.
pub fn find_sub(s: &str, pat: &str) -> (r: Option<usize>)
    requires
        pat@.len() > 0,
    ensures
        match r {
            Some(i) => first_sub_ix(s@, pat@) == i,
            None => first_sub_ix(s@, pat@) == -1,
        },
{
    let n = s.unicode_len();
    let m = pat.unicode_len();
    if m > n {
        proof {
            lemma_first_sub_ix(s@, pat@);
            assert forall|j: int| 0 <= j implies !matches_at(s@, pat@, j) by {}
        }
        return None;
    }
    let mut k: usize = 0;
    while k <= n - m
        invariant
            0 < m <= n,
            k <= n - m + 1,
            n == s@.len(),
            m == pat@.len(),
            forall|j: int| #![trigger s@.subrange(j, j + pat@.len() as int)] 0 <= j < k
                ==> !matches_at(s@, pat@, j),
        decreases n - k,
    {
        let mut p: usize = 0;
        let mut all: bool = true;
        while p < m
            invariant
                k + m <= n,
                n == s@.len(),
                m == pat@.len(),
                p <= m,
                all <==> forall|q: int| 0 <= q < p ==> s@[k + q] == pat@[q],
            decreases m - p,
        {
            if s.get_char(k + p) != pat.get_char(p) {
                all = false;
                p = m;
            } else {
                p += 1;
            }
        }
        if all {
            proof {
                assert(s@.subrange(k as int, k + pat@.len() as int) =~= pat@);
                lemma_first_sub_ix_is(s@, pat@, k as int);
            }
            return Some(k);
        }
        proof {
            assert(!matches_at(s@, pat@, k as int)) by {
                let q = choose|q: int| 0 <= q < m && s@[k + q] != pat@[q];
                if s@.subrange(k as int, k + pat@.len() as int) == pat@ {
                    assert(s@.subrange(k as int, k + pat@.len() as int)[q] == s@[k + q]);
                }
            }
        }
        k += 1;
    }
    proof {
        lemma_first_sub_ix(s@, pat@);
        assert forall|j: int| #![trigger s@.subrange(j, j + pat@.len() as int)] 0 <= j implies
            !matches_at(s@, pat@, j) by {}
    }
    None
}

pub fn str_eq(a: &str, b: &str) -> (r: bool)
    ensures
        r <==> a@ == b@,
{
    let n = a.unicode_len();
    if n != b.unicode_len() {
        return false;
    }
    let mut k: usize = 0;
    while k < n
        invariant
            k <= n,
            n == a@.len(),
            n == b@.len(),
            forall|j: int| 0 <= j < k ==> a@[j] == b@[j],
        decreases n - k,
    {
        if a.get_char(k) != b.get_char(k) {
            return false;
        }
        k += 1;
    }
    proof {
        assert(a@ =~= b@);
    }
    true
}

pub fn count_char_exec(s: &str, c: char) -> (r: usize)
    ensures
        r == count_char(s@, c),
{
    let n = s.unicode_len();
    let mut k: usize = 0;
    let mut cnt: usize = 0;
    while k < n
        invariant
            k <= n,
            n == s@.len(),
            cnt == count_char(s@.take(k as int), c),
            cnt <= k,
        decreases n - k,
    {
        proof {
            assert(s@.take(k + 1).drop_last() =~= s@.take(k as int));
            assert(s@.take(k + 1).last() == s@[k as int]);
        }
        if s.get_char(k) == c {
            cnt += 1;
        }
        k += 1;
    }
    proof {
        assert(s@.take(n as int) =~= s@);
    }
    cnt
}

/// `str::trim`: both ends stripped of whitespace.
pub fn trim_exec(s: &str) -> (r: String)
    ensures
        r@ == trim_spec(s@),
{
    let n = s.unicode_len();
    proof {
        assert(s@.skip(0) =~= s@);
    }
    let mut lo: usize = 0;
    while lo < n && is_space_exec(s.get_char(lo))
        invariant
            lo <= n,
            n == s@.len(),
            trim_start_spec(s@) == trim_start_spec(s@.skip(lo as int)),
        decreases n - lo,
    {
        proof {
            assert(s@.skip(lo as int).skip(1) =~= s@.skip(lo + 1));
        }
        lo += 1;
    }
    proof {
        if lo < n {
            assert(s@.skip(lo as int)[0] == s@[lo as int]);
        }
        assert(trim_start_spec(s@) == s@.skip(lo as int));
    }
    let mut hi: usize = n;
    while hi > lo && is_space_exec(s.get_char(hi - 1))
        invariant
            lo <= hi <= n,
            n == s@.len(),
            trim_start_spec(s@) == s@.skip(lo as int),
            trim_end_spec(s@.skip(lo as int)) == trim_end_spec(
                s@.subrange(lo as int, hi as int),
            ),
        decreases hi,
    {
        proof {
            let cur = s@.subrange(lo as int, hi as int);
            assert(cur.last() == s@[hi - 1]);
            assert(cur.drop_last() =~= s@.subrange(lo as int, hi - 1));
        }
        hi -= 1;
    }
    proof {
        let cur = s@.subrange(lo as int, hi as int);
        if hi > lo {
            assert(cur.last() == s@[hi - 1]);
        }
        assert(trim_end_spec(cur) == cur);
        assert(s@.skip(lo as int) =~= s@.subrange(lo as int, n as int));
    }
    let sub = s.substring_char(lo, hi);
    String::from_str(sub)
}

// ---------------------------------------------------------------------------
// Decimal parsing and formatting, executable
// ---------------------------------------------------------------------------

proof fn lemma_digits_val_grows(s: Seq<char>, k: int)
    requires
        0 <= k <= s.len(),
    ensures
        digits_val(s.take(k)) <= digits_val(s),
    decreases s.len() - k,
{
    if k < s.len() {
        lemma_digits_val_grows(s, k + 1);
        assert(s.take(k + 1).drop_last() =~= s.take(k));
    } else {
        assert(s.take(k) =~= s);
    }
}

/// Value of the digits of `s` from position `from` on, when they are all
/// digits, fit under `bound`, and there is at least one of them.
fn parse_digits_bounded(s: &str, from: usize, bound: u64) -> (r: Option<u64>)
    requires
        from <= s@.len(),
    ensures
        ({
            let d = s@.skip(from as int);
            match r {
                Some(v) => d.len() > 0 && all_digits(d) && v == digits_val(d) && v <= bound,
                None => d.len() == 0 || !all_digits(d) || digits_val(d) > bound,
            }
        }),
{
    let ghost d = s@.skip(from as int);
    let n = s.unicode_len();
    if from == n {
        return None;
    }
    let mut k: usize = from;
    let mut acc: u64 = 0;
    while k < n
        invariant
            from <= k <= n,
            n == s@.len(),
            d == s@.skip(from as int),
            all_digits(d.take(k - from)),
            acc == digits_val(d.take(k - from)),
            acc <= bound,
        decreases n - k,
    {
        let c = s.get_char(k);
        let u = c as u32;
        proof {
            assert(d[k - from] == s@[k as int]);
            assert(d.take(k - from + 1).drop_last() =~= d.take(k - from));
            assert(d.take(k - from + 1).last() == d[k - from]);
        }
        if u < 48 || u > 57 {
            return None;
        }
        let dig = (u - 48) as u64;
        let wide: u64 = if acc <= 0xFFFF_FFFF_FFFF_FFFFu64 / 10 {
            let t = acc * 10;
            if t <= u64::MAX - dig {
                t + dig
            } else {
                proof {
                    lemma_digits_val_grows(d, k - from + 1);
                }
                return None;
            }
        } else {
            proof {
                assert(acc * 10 + dig > bound) by (nonlinear_arith)
                    requires
                        acc > 0xFFFF_FFFF_FFFF_FFFFu64 / 10,
                        bound <= 0xFFFF_FFFF_FFFF_FFFFu64,
                        dig >= 0,
                {}
                lemma_digits_val_grows(d, k - from + 1);
            }
            return None;
        };
        if wide > bound {
            proof {
                lemma_digits_val_grows(d, k - from + 1);
            }
            return None;
        }
        acc = wide;
        k += 1;
    }
    proof {
        assert(d.take(n - from) =~= d);
    }
    Some(acc)
}

/// What `str::parse::<u8>` yields on `s`.
pub fn parse_u8(s: &str) -> (r: Option<u8>)
    ensures
        match r {
            Some(v) => uint_parse_ok(s@, 255) && v == uint_parse_val(s@),
            None => !uint_parse_ok(s@, 255),
        },
{
    let n = s.unicode_len();
    let from: usize = if n > 0 && s.get_char(0) == '+' {
        1
    } else {
        0
    };
    proof {
        assert(strip_plus(s@) == s@.skip(from as int));
    }
    match parse_digits_bounded(s, from, 255) {
        Some(v) => Some(v as u8),
        None => None,
    }
}

/// What `str::parse::<i64>` yields on `s`.
pub fn parse_i64(s: &str) -> (r: Option<i64>)
    ensures
        match r {
            Some(v) => i64_parse_ok(s@) && v == i64_parse_val(s@),
            None => !i64_parse_ok(s@),
        },
{
    let n = s.unicode_len();
    if n > 0 && s.get_char(0) == '-' {
        match parse_digits_bounded(s, 1, 0x8000_0000_0000_0000u64) {
            Some(v) => {
                if v == 0x8000_0000_0000_0000u64 {
                    Some(i64::MIN)
                } else {
                    Some(-(v as i64))
                }
            },
            None => None,
        }
    } else {
        let from: usize = if n > 0 && s.get_char(0) == '+' {
            1
        } else {
            0
        };
        proof {
            assert(strip_plus(s@) == s@.skip(from as int));
        }
        match parse_digits_bounded(s, from, 0x7FFF_FFFF_FFFF_FFFFu64) {
            Some(v) => Some(v as i64),
            None => None,
        }
    }
}

fn digit_str(d: u8) -> (r: &'static str)
    requires
        d < 10,
    ensures
        r@ =~= seq![digit_char(d as nat)],
{
    proof {
        reveal_strlit("0");
        reveal_strlit("1");
        reveal_strlit("2");
        reveal_strlit("3");
        reveal_strlit("4");
        reveal_strlit("5");
        reveal_strlit("6");
        reveal_strlit("7");
        reveal_strlit("8");
        reveal_strlit("9");
    }
    match d {
        0 => "0",
        1 => "1",
        2 => "2",
        3 => "3",
        4 => "4",
        5 => "5",
        6 => "6",
        7 => "7",
        8 => "8",
        _ => "9",
    }
}

pub fn u64_to_dec(n: u64) -> (r: String)
    ensures
        r@ == dec_digits(n as nat),
    decreases n,
{
    if n < 10 {
        String::from_str(digit_str(n as u8))
    } else {
        let mut s = u64_to_dec(n / 10);
        s.append(digit_str((n % 10) as u8));
        s
    }
}

pub fn i64_to_dec(n: i64) -> (r: String)
    ensures
        r@ == i64_dec_digits(n),
{
    if n >= 0 {
        u64_to_dec(n as u64)
    } else {
        let m: u64 = if n == i64::MIN {
            0x8000_0000_0000_0000u64
        } else {
            (-n) as u64
        };
        proof {
            assert(m == -(n as int));
        }
        let mut s = String::from_str("-");
        proof {
            reveal_strlit("-");
            assert(s@ =~= seq!['-']);
        }
        let rest = u64_to_dec(m);
        s.append(rest.as_str());
        s
    }
}

pub fn zero_pad_exec(s: String, w: u8) -> (r: String)
    ensures
        r@ == zero_pad(s@, w as nat),
{
    let mut cur = s;
    let ghost orig = cur@;
    while cur.as_str().unicode_len() < w as usize
        invariant
            cur@.len() >= orig.len(),
            cur@.len() == orig.len() || cur@.len() <= w as int,
            cur@ =~= Seq::new((cur@.len() - orig.len()) as nat, |i: int| '0') + orig,
        decreases w as int - cur@.len(),
    {
        let mut p = String::from_str("0");
        proof {
            reveal_strlit("0");
            assert(p@ =~= seq!['0']);
        }
        p.append(cur.as_str());
        cur = p;
        proof {
            assert(cur@ =~= Seq::new((cur@.len() - orig.len()) as nat, |i: int| '0') + orig);
        }
    }
    proof {
        assert(cur@ =~= zero_pad(orig, w as nat));
    }
    cur
}

// ---------------------------------------------------------------------------
// Numerals written out always read back
// ---------------------------------------------------------------------------

pub proof fn lemma_digit_char_val(d: nat)
    requires
        d < 10,
    ensures
        digit_char(d) as u32 == 48 + d,
        is_digit(digit_char(d)),
{
    assert(48 + d < 256);
    assert(((48 + d) as u8) as int == 48 + d);
    assert((((48 + d) as u8) as char) as u32 == 48 + d);
}

pub proof fn lemma_dec_digits_props(n: nat)
    ensures
        dec_digits(n).len() >= 1,
        all_digits(dec_digits(n)),
        digits_val(dec_digits(n)) == n,
    decreases n,
{
    if n < 10 {
        lemma_digit_char_val(n);
        let s0 = seq![digit_char(n)];
        assert(dec_digits(n) =~= s0);
        assert(s0.drop_last() =~= Seq::<char>::empty());
        assert(digits_val(s0.drop_last()) == 0);
        assert(s0.last() == digit_char(n));
        assert(digits_val(s0) == n);
    } else {
        lemma_digit_char_val(n % 10);
        lemma_dec_digits_props(n / 10);
        let x = dec_digits(n / 10);
        let s = x + seq![digit_char(n % 10)];
        assert(s.drop_last() =~= x);
        assert(s.last() == digit_char(n % 10));
        assert forall|i: int| 0 <= i < s.len() implies is_digit(#[trigger] s[i]) by {
            if i < x.len() {
                assert(s[i] == x[i]);
            }
        }
        assert(digits_val(s) == (n / 10) * 10 + n % 10);
    }
}

/// A numeral rendered from a bounded value parses back to that value.
pub proof fn lemma_uint_parse_round(n: nat, max: nat)
    requires
        n <= max,
    ensures
        uint_parse_ok(dec_digits(n), max),
        uint_parse_val(dec_digits(n)) == n,
{
    lemma_dec_digits_props(n);
    let d = dec_digits(n);
    assert(is_digit(d[0]));
    assert(d[0] != '+');
    assert(strip_plus(d) == d);
}

/// A signed numeral rendered from an `i64` parses back to that value.
pub proof fn lemma_i64_parse_round(c: i64)
    ensures
        i64_parse_ok(i64_dec_digits(c)),
        i64_parse_val(i64_dec_digits(c)) == c,
{
    if c >= 0 {
        lemma_uint_parse_round(c as nat, 0x7FFFFFFFFFFFFFFF);
        let d = dec_digits(c as nat);
        lemma_dec_digits_props(c as nat);
        assert(is_digit(d[0]));
        assert(d[0] != '-');
    } else {
        let m = (-(c as int)) as nat;
        lemma_dec_digits_props(m);
        let s = seq!['-'] + dec_digits(m);
        assert(s[0] == '-');
        assert(s.skip(1) =~= dec_digits(m));
        assert(digits_val(dec_digits(m)) == m <= 0x8000000000000000);
    }
}

/// Every character of a numeral is a decimal digit, hence never a
/// separator.
pub proof fn lemma_i64_dec_digits_chars(c: i64)
    ensures
        forall|i: int| 0 <= i < i64_dec_digits(c).len() ==> (is_digit(
            #[trigger] i64_dec_digits(c)[i],
        ) || i64_dec_digits(c)[i] == '-'),
{
    if c >= 0 {
        lemma_dec_digits_props(c as nat);
    } else {
        let m = (-(c as int)) as nat;
        lemma_dec_digits_props(m);
        let s = seq!['-'] + dec_digits(m);
        assert forall|i: int| 0 <= i < s.len() implies (is_digit(#[trigger] s[i]) || s[i] == '-') by {
            if i > 0 {
                assert(s[i] == dec_digits(m)[i - 1]);
            }
        }
    }
}

} // verus!
