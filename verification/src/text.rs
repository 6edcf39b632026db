//! Character-sequence utilities with exact specifications: decimal parsing and
//! printing, Unicode whitespace trimming and splitting on a separator.
use vstd::prelude::*;

verus! {

broadcast use vstd::string::group_string_axioms;

/// The characters of `s`, in order.
pub fn chars_of(s: &str) -> (r: Vec<char>)
    ensures
        r@ == s@,
{
    let mut r: Vec<char> = Vec::new();
    for c in it: s.chars()
        invariant
            r@ == it.seq().take(it.index() as int),
    {
        r.push(c);
    }
    r
}

/// A `String` holding exactly the characters of `v`.
#[verifier::external_body]
pub(crate) fn string_from_chars(v: &Vec<char>) -> (r: String)
    ensures
        r@ == v@,
{
    v.iter().collect()
}

// ------------------------------------------------------------------
// Decimal digits
// ------------------------------------------------------------------

pub open spec fn is_digit(c: char) -> bool {
    '0' <= c && c <= '9'
}

pub open spec fn digit_value(c: char) -> nat {
    (c as int - '0' as int) as nat
}

/// The number that a string of decimal digits denotes (most significant first).
pub open spec fn digits_value(d: Seq<char>) -> nat
    decreases d.len(),
{
    if d.len() == 0 {
        0
    } else {
        digits_value(d.drop_last()) * 10 + digit_value(d.last())
    }
}

/// The index of the first character at or after `i` that is not a decimal digit
/// (or `d.len()` when there is none).
pub open spec fn scan_digits(d: Seq<char>, i: int) -> int
    decreases d.len() - i,
{
    if 0 <= i < d.len() && is_digit(d[i]) {
        scan_digits(d, i + 1)
    } else {
        i
    }
}

/// Why a string is not accepted as an unsigned decimal integer.
#[derive(Debug, Clone, Copy, PartialEq, Eq)]
pub enum IntErrorKind {
    Empty,
    InvalidDigit,
    PosOverflow,
}

/// How std's `usize::from_str` reads `s`: an optional `+`, then decimal digits,
/// scanned left to right; the first invalid digit or the first overflow decides
/// the error.
pub open spec fn spec_parse_usize(s: Seq<char>) -> Result<usize, IntErrorKind> {
    if s.len() == 0 {
        Err(IntErrorKind::Empty)
    } else if (s[0] == '+' || s[0] == '-') && s.len() == 1 {
        Err(IntErrorKind::InvalidDigit)
    } else {
        let d = if s[0] == '+' { s.drop_first() } else { s };
        let k = scan_digits(d, 0);
        let v = digits_value(d.take(k));
        if v > usize::MAX {
            Err(IntErrorKind::PosOverflow)
        } else if k < d.len() {
            Err(IntErrorKind::InvalidDigit)
        } else {
            Ok(v as usize)
        }
    }
}

/// The text of std's `ParseIntError` for each kind.
pub open spec fn int_error_text(k: IntErrorKind) -> Seq<char> {
    match k {
        IntErrorKind::Empty => "cannot parse integer from empty string"@,
        IntErrorKind::InvalidDigit => "invalid digit found in string"@,
        IntErrorKind::PosOverflow => "number too large to fit in target type"@,
    }
}

/// The message std prints for a `ParseIntError` of kind `k`.
pub fn int_error_message(k: IntErrorKind) -> (r: String)
    ensures
        r@ == int_error_text(k),
{
    match k {
        IntErrorKind::Empty => String::from_str("cannot parse integer from empty string"),
        IntErrorKind::InvalidDigit => String::from_str("invalid digit found in string"),
        IntErrorKind::PosOverflow => String::from_str("number too large to fit in target type"),
    }
}

proof fn lemma_scan_digits_bounds(d: Seq<char>, i: int)
    requires
        0 <= i <= d.len(),
    ensures
        i <= scan_digits(d, i) <= d.len(),
        forall|j: int| i <= j < scan_digits(d, i) ==> is_digit(d[j]),
        scan_digits(d, i) < d.len() ==> !is_digit(d[scan_digits(d, i)]),
    decreases d.len() - i,
{
    if i < d.len() && is_digit(d[i]) {
        lemma_scan_digits_bounds(d, i + 1);
    }
}

proof fn lemma_digits_value_monotone(d: Seq<char>, a: int, b: int)
    requires
        0 <= a <= b <= d.len(),
    ensures
        digits_value(d.take(a)) <= digits_value(d.take(b)),
    decreases b - a,
{
    if a < b {
        lemma_digits_value_monotone(d, a, b - 1);
        assert(d.take(b).drop_last() =~= d.take(b - 1));
    }
}

/// Index of the end of the run of digits that starts at `i`.
fn digit_run_end(d: &Vec<char>, i: usize) -> (k: usize)
    requires
        i <= d.len(),
    ensures
        k == scan_digits(d@, i as int),
{
    let mut k = i;
    while k < d.len() && '0' <= d[k] && d[k] <= '9'
        invariant
            i <= k <= d.len(),
            scan_digits(d@, i as int) == scan_digits(d@, k as int),
        decreases d.len() - k,
    {
        k = k + 1;
    }
    k
}

/// Value of the digits `d[from..to]`, or `None` when it exceeds `limit`.
fn bounded_digits_value(d: &Vec<char>, from: usize, to: usize, limit: u64) -> (r: Option<u64>)
    requires
        from <= to <= d.len(),
        forall|j: int| from <= j < to ==> is_digit(d@[j]),
        limit <= u64::MAX / 16,
    ensures
        match r {
            Some(v) => v == digits_value(d@.subrange(from as int, to as int)) && v <= limit,
            None => digits_value(d@.subrange(from as int, to as int)) > limit,
        },
{
    let mut acc: u64 = 0;
    let mut j = from;
    while j < to
        invariant
            from <= j <= to <= d.len(),
            forall|q: int| from <= q < to ==> is_digit(d@[q]),
            limit <= u64::MAX / 16,
            acc == digits_value(d@.subrange(from as int, j as int)),
            acc <= limit,
        decreases to - j,
    {
        assert(d@.subrange(from as int, j + 1).drop_last() =~= d@.subrange(from as int, j as int));
        let dv = (d[j] as u32 - '0' as u32) as u64;
        assert(dv == digit_value(d@[j as int]));
        assert(dv <= 9);
        let next = acc * 10 + dv;
        if next > limit {
            proof {
                lemma_digits_value_prefix_grows(d@, from as int, j as int + 1, to as int);
            }
            return None;
        }
        acc = next;
        j = j + 1;
    }
    Some(acc)
}

proof fn lemma_digits_value_prefix_grows(d: Seq<char>, from: int, a: int, b: int)
    requires
        0 <= from <= a <= b <= d.len(),
    ensures
        digits_value(d.subrange(from, a)) <= digits_value(d.subrange(from, b)),
{
    let s = d.subrange(from, b);
    lemma_digits_value_monotone(s, a - from, b - from);
    assert(s.take(a - from) =~= d.subrange(from, a));
    assert(s.take(b - from) =~= s);
}

/// Reads `s` as std's `str::parse::<usize>` does.
pub fn parse_usize(s: &Vec<char>) -> (r: Result<usize, IntErrorKind>)
    ensures
        r == spec_parse_usize(s@),
{
    if s.len() == 0 {
        return Err(IntErrorKind::Empty);
    }
    if (s[0] == '+' || s[0] == '-') && s.len() == 1 {
        return Err(IntErrorKind::InvalidDigit);
    }
    let start: usize = if s[0] == '+' { 1 } else { 0 };
    let ghost d = if s@[0] == '+' { s@.drop_first() } else { s@ };
    assert(d =~= s@.subrange(start as int, s.len() as int));
    let k = digit_run_end(s, start);
    proof {
        lemma_scan_digits_shift(s@, start as int, d, start as int);
        lemma_scan_digits_bounds(s@, start as int);
        assert(d.take(k - start) =~= s@.subrange(start as int, k as int));
    }
    let limit: u64 = if usize::MAX as u64 > u64::MAX / 16 { u64::MAX / 16 } else { usize::MAX as u64 };
    let v = bounded_digits_value(s, start, k, limit);
    match v {
        None => {
            if limit < usize::MAX as u64 {
                // 64-bit usize: fall back to checked arithmetic over the whole run.
                let w = checked_digits_value(s, start, k);
                match w {
                    None => Err(IntErrorKind::PosOverflow),
                    Some(w) => {
                        if k < s.len() {
                            Err(IntErrorKind::InvalidDigit)
                        } else {
                            Ok(w)
                        }
                    }
                }
            } else {
                Err(IntErrorKind::PosOverflow)
            }
        }
        Some(v) => {
            if k < s.len() {
                Err(IntErrorKind::InvalidDigit)
            } else {
                Ok(v as usize)
            }
        }
    }
}

/// Value of the digits `d[from..to]` computed with checked `usize` arithmetic.
fn checked_digits_value(d: &Vec<char>, from: usize, to: usize) -> (r: Option<usize>)
    requires
        from <= to <= d.len(),
        forall|j: int| from <= j < to ==> is_digit(d@[j]),
    ensures
        match r {
            Some(v) => v == digits_value(d@.subrange(from as int, to as int)),
            None => digits_value(d@.subrange(from as int, to as int)) > usize::MAX,
        },
{
    let mut acc: usize = 0;
    let mut j = from;
    while j < to
        invariant
            from <= j <= to <= d.len(),
            forall|q: int| from <= q < to ==> is_digit(d@[q]),
            acc == digits_value(d@.subrange(from as int, j as int)),
        decreases to - j,
    {
        assert(d@.subrange(from as int, j + 1).drop_last() =~= d@.subrange(from as int, j as int));
        let dv = (d[j] as u32 - '0' as u32) as usize;
        assert(dv == digit_value(d@[j as int]));
        let m = acc.checked_mul(10);
        match m {
            None => {
                proof {
                    lemma_digits_value_prefix_grows(d@, from as int, j as int + 1, to as int);
                }
                return None;
            }
            Some(m) => {
                let n = m.checked_add(dv);
                match n {
                    None => {
                        proof {
                            lemma_digits_value_prefix_grows(d@, from as int, j as int + 1, to as int);
                        }
                        return None;
                    }
                    Some(n) => {
                        acc = n;
                    }
                }
            }
        }
        j = j + 1;
    }
    Some(acc)
}

proof fn lemma_scan_digits_shift(s: Seq<char>, off: int, d: Seq<char>, i: int)
    requires
        0 <= off <= i <= s.len(),
        d =~= s.subrange(off, s.len() as int),
    ensures
        scan_digits(s, i) == scan_digits(d, i - off) + off,
    decreases s.len() - i,
{
    if i < s.len() && is_digit(s[i]) {
        lemma_scan_digits_shift(s, off, d, i + 1);
    }
}


/// How std's `str::parse::<i32>` reads `s`: an optional sign, then decimal digits;
/// `None` where it reports an error.
pub open spec fn spec_parse_i32(s: Seq<char>) -> Option<i32> {
    if s.len() == 0 || ((s[0] == '+' || s[0] == '-') && s.len() == 1) {
        None
    } else {
        let neg = s[0] == '-';
        let d = if s[0] == '+' || s[0] == '-' { s.drop_first() } else { s };
        if scan_digits(d, 0) < d.len() {
            None
        } else if neg {
            if digits_value(d) <= 0x8000_0000 {
                Some((0 - digits_value(d)) as i32)
            } else {
                None
            }
        } else if digits_value(d) <= i32::MAX {
            Some(digits_value(d) as i32)
        } else {
            None
        }
    }
}

/// Reads `s[from..to]` as std's `str::parse::<i32>` does.
pub fn parse_i32_range(s: &Vec<char>, from: usize, to: usize) -> (r: Option<i32>)
    requires
        from <= to <= s.len(),
    ensures
        r == spec_parse_i32(s@.subrange(from as int, to as int)),
{
    let ghost t = s@.subrange(from as int, to as int);
    if from == to {
        return None;
    }
    if (s[from] == '+' || s[from] == '-') && to - from == 1 {
        return None;
    }
    let neg = s[from] == '-';
    let start: usize = if s[from] == '+' || s[from] == '-' { from + 1 } else { from };
    let ghost d = if t[0] == '+' || t[0] == '-' { t.drop_first() } else { t };
    assert(d =~= s@.subrange(start as int, to as int));
    let sub = slice_chars(s, start, to);
    assert(sub@ =~= d);
    let k = digit_run_end(&sub, 0);
    if k < sub.len() {
        return None;
    }
    proof {
        lemma_scan_digits_bounds(d, 0);
        assert(sub@.subrange(0, sub.len() as int) =~= d);
    }
    let v = bounded_digits_value(&sub, 0, sub.len(), 0x8000_0000);
    match v {
        None => None,
        Some(v) => {
            if neg {
                Some((0 - (v as i64)) as i32)
            } else if v <= 0x7fff_ffff {
                Some(v as i32)
            } else {
                None
            }
        }
    }
}

/// The characters `s[from..to]`.
pub fn slice_chars(s: &Vec<char>, from: usize, to: usize) -> (r: Vec<char>)
    requires
        from <= to <= s.len(),
    ensures
        r@ == s@.subrange(from as int, to as int),
{
    let mut r: Vec<char> = Vec::new();
    let mut i = from;
    while i < to
        invariant
            from <= i <= to <= s.len(),
            r@ == s@.subrange(from as int, i as int),
        decreases to - i,
    {
        r.push(s[i]);
        i = i + 1;
    }
    r
}

// ------------------------------------------------------------------
// Whitespace
// ------------------------------------------------------------------

/// Unicode `White_Space`, as std's `char::is_whitespace`.
pub open spec fn is_whitespace(c: char) -> bool {
    ('\u{9}' <= c && c <= '\u{d}') || c == ' ' || c == '\u{85}' || c == '\u{a0}' || c == '\u{1680}'
        || ('\u{2000}' <= c && c <= '\u{200a}') || c == '\u{2028}' || c == '\u{2029}'
        || c == '\u{202f}' || c == '\u{205f}' || c == '\u{3000}'
}

pub fn char_is_whitespace(c: char) -> (b: bool)
    ensures
        b == is_whitespace(c),
{
    ('\u{9}' <= c && c <= '\u{d}') || c == ' ' || c == '\u{85}' || c == '\u{a0}' || c == '\u{1680}'
        || ('\u{2000}' <= c && c <= '\u{200a}') || c == '\u{2028}' || c == '\u{2029}'
        || c == '\u{202f}' || c == '\u{205f}' || c == '\u{3000}'
}

/// Index of the first non-whitespace character at or after `i`.
pub open spec fn skip_ws_forward(s: Seq<char>, i: int) -> int
    decreases s.len() - i,
{
    if 0 <= i < s.len() && is_whitespace(s[i]) {
        skip_ws_forward(s, i + 1)
    } else {
        i
    }
}

/// One past the last non-whitespace character before `j`, not going below `lo`.
pub open spec fn skip_ws_backward(s: Seq<char>, lo: int, j: int) -> int
    decreases j - lo,
{
    if lo < j && j <= s.len() && is_whitespace(s[j - 1]) {
        skip_ws_backward(s, lo, j - 1)
    } else {
        j
    }
}

/// `s` without leading and trailing whitespace, as std's `str::trim`.
pub open spec fn trim(s: Seq<char>) -> Seq<char> {
    let a = skip_ws_forward(s, 0);
    s.subrange(a, skip_ws_backward(s, a, s.len() as int))
}

proof fn lemma_skip_ws_forward(s: Seq<char>, i: int)
    requires
        0 <= i <= s.len(),
    ensures
        i <= skip_ws_forward(s, i) <= s.len(),
    decreases s.len() - i,
{
    if i < s.len() && is_whitespace(s[i]) {
        lemma_skip_ws_forward(s, i + 1);
    }
}

proof fn lemma_skip_ws_backward(s: Seq<char>, lo: int, j: int)
    requires
        0 <= lo <= j <= s.len(),
    ensures
        lo <= skip_ws_backward(s, lo, j) <= j,
    decreases j - lo,
{
    if lo < j && is_whitespace(s[j - 1]) {
        lemma_skip_ws_backward(s, lo, j - 1);
    }
}

pub proof fn lemma_trim_len(s: Seq<char>)
    ensures
        trim(s).len() <= s.len(),
{
    lemma_skip_ws_forward(s, 0);
    let a = skip_ws_forward(s, 0);
    lemma_skip_ws_backward(s, a, s.len() as int);
}

/// `s` without leading and trailing whitespace.
pub fn trim_chars(s: &Vec<char>) -> (r: Vec<char>)
    ensures
        r@ == trim(s@),
{
    let mut a: usize = 0;
    while a < s.len() && char_is_whitespace(s[a])
        invariant
            a <= s.len(),
            skip_ws_forward(s@, 0) == skip_ws_forward(s@, a as int),
        decreases s.len() - a,
    {
        a = a + 1;
    }
    let mut b: usize = s.len();
    while a < b && char_is_whitespace(s[b - 1])
        invariant
            a <= b <= s.len(),
            skip_ws_backward(s@, a as int, s.len() as int) == skip_ws_backward(s@, a as int, b as int),
        decreases b - a,
    {
        b = b - 1;
    }
    slice_chars(s, a, b)
}

// ------------------------------------------------------------------
// Decimal printing
// ------------------------------------------------------------------

pub open spec fn digit_char(d: nat) -> char {
    (d + '0' as nat) as char
}

/// The decimal representation of `n`, as `to_string` prints it.
pub open spec fn decimal(n: nat) -> Seq<char>
    decreases n,
{
    if n < 10 {
        seq![digit_char(n)]
    } else {
        decimal(n / 10).push(digit_char(n % 10))
    }
}

/// The decimal representation of `n` is a non-empty string of decimal digits
/// whose value is `n`.
pub proof fn lemma_decimal_value(n: nat)
    ensures
        decimal(n).len() >= 1,
        forall|i: int| 0 <= i < decimal(n).len() ==> is_digit(#[trigger] decimal(n)[i]),
        digits_value(decimal(n)) == n,
    decreases n,
{
    if n < 10 {
        let c = digit_char(n);
        assert(c as int == n + 48);
        assert(decimal(n).drop_last() =~= Seq::<char>::empty());
        assert(decimal(n).last() == c);
        assert(digit_value(c) == n);
        assert(digits_value(decimal(n)) == digits_value(decimal(n).drop_last()) * 10 + digit_value(c));
    } else {
        lemma_decimal_value(n / 10);
        let d = decimal(n);
        let c = digit_char(n % 10);
        assert(c as int == n % 10 + 48);
        assert(d.drop_last() =~= decimal(n / 10));
        assert(d.last() == c);
        assert(digit_value(c) == n % 10);
        assert(digits_value(d) == digits_value(decimal(n / 10)) * 10 + n % 10);
        assert((n / 10) * 10 + n % 10 == n);
        assert forall|i: int| 0 <= i < d.len() implies is_digit(#[trigger] d[i]) by {
            if i < d.len() - 1 {
                assert(d[i] == decimal(n / 10)[i]);
            }
        }
    }
}

/// std's `usize::from_str` reads the decimal representation of `n` back as `n`.
pub proof fn lemma_parse_decimal(n: usize)
    ensures
        spec_parse_usize(decimal(n as nat)) == Ok::<usize, IntErrorKind>(n),
{
    let s = decimal(n as nat);
    lemma_decimal_value(n as nat);
    assert(is_digit(s[0]));
    lemma_scan_digits_bounds(s, 0);
    if scan_digits(s, 0) < s.len() {
        assert(is_digit(s[scan_digits(s, 0)]));
    }
    assert(s.take(s.len() as int) =~= s);
}

/// std's `str::parse::<i32>` reads the decimal representation of `n` back as `n`.
pub proof fn lemma_parse_i32_decimal(n: nat)
    requires
        n <= i32::MAX,
    ensures
        spec_parse_i32(decimal(n)) == Some(n as i32),
{
    let s = decimal(n);
    lemma_decimal_value(n);
    assert(is_digit(s[0]));
    lemma_scan_digits_bounds(s, 0);
    if scan_digits(s, 0) < s.len() {
        assert(is_digit(s[scan_digits(s, 0)]));
    }
}

/// A text that starts with a digit and has a character that is not a digit is
/// not read as an `i32`.
pub proof fn lemma_parse_i32_stops(s: Seq<char>, j: int)
    requires
        s.len() > 0,
        is_digit(s[0]),
        0 <= j < s.len(),
        !is_digit(s[j]),
    ensures
        spec_parse_i32(s) is None,
{
    lemma_scan_digits_bounds(s, 0);
}

/// A text that neither starts nor ends with whitespace is its own trim.
pub proof fn lemma_trim_plain(s: Seq<char>)
    requires
        s.len() > 0,
        !is_whitespace(s[0]),
        !is_whitespace(s[s.len() - 1]),
    ensures
        trim(s) == s,
{
    assert(skip_ws_forward(s, 0) == 0);
    assert(skip_ws_backward(s, 0, s.len() as int) == s.len());
    assert(s.subrange(0, s.len() as int) =~= s);
}

/// The decimal representation of `n`.
pub fn decimal_chars(n: u64) -> (r: Vec<char>)
    ensures
        r@ == decimal(n as nat),
    decreases n,
{
    if n < 10 {
        let c = char_of_digit(n as u32);
        let mut r: Vec<char> = Vec::new();
        r.push(c);
        r
    } else {
        let mut r = decimal_chars(n / 10);
        let c = char_of_digit((n % 10) as u32);
        r.push(c);
        r
    }
}

fn char_of_digit(d: u32) -> (c: char)
    requires
        d < 10,
    ensures
        c == digit_char(d as nat),
{
    if d == 0 { '0' }
    else if d == 1 { '1' }
    else if d == 2 { '2' }
    else if d == 3 { '3' }
    else if d == 4 { '4' }
    else if d == 5 { '5' }
    else if d == 6 { '6' }
    else if d == 7 { '7' }
    else if d == 8 { '8' }
    else { '9' }
}


/// Tells whether `ch` occurs in `c`.
pub fn contains_char(c: &Vec<char>, ch: char) -> (b: bool)
    ensures
        b == c@.contains(ch),
{
    let mut i: usize = 0;
    while i < c.len()
        invariant
            i <= c.len(),
            forall|j: int| 0 <= j < i ==> c@[j] != ch,
        decreases c.len() - i,
    {
        if c[i] == ch {
            assert(c@[i as int] == ch);
            return true;
        }
        i = i + 1;
    }
    false
}

/// A vector holding the single character `ch`.
pub fn single_char(ch: char) -> (r: Vec<char>)
    ensures
        r@ == seq![ch],
{
    let mut r: Vec<char> = Vec::new();
    r.push(ch);
    assert(r@ =~= seq![ch]);
    r
}

// ------------------------------------------------------------------
// Searching and splitting
// ------------------------------------------------------------------

/// `sep` occurs in `s` starting at index `i`.
pub open spec fn occurs_at(s: Seq<char>, sep: Seq<char>, i: int) -> bool {
    0 <= i && i + sep.len() <= s.len() && s.subrange(i, i + sep.len()) == sep
}

/// The first index at or after `i` where `sep` occurs in `s`, or -1.
pub open spec fn find_from(s: Seq<char>, sep: Seq<char>, i: int) -> int
    decreases s.len() + 1 - i,
{
    if i < 0 || i + sep.len() > s.len() {
        -1
    } else if occurs_at(s, sep, i) {
        i
    } else {
        find_from(s, sep, i + 1)
    }
}

pub proof fn lemma_find_from(s: Seq<char>, sep: Seq<char>, i: int)
    requires
        0 <= i,
    ensures
        find_from(s, sep, i) == -1 || (i <= find_from(s, sep, i) && occurs_at(s, sep, find_from(s, sep, i))),
        find_from(s, sep, i) == -1 ==> forall|j: int| i <= j ==> !occurs_at(s, sep, j),
        find_from(s, sep, i) != -1 ==> forall|j: int| i <= j < find_from(s, sep, i) ==> !occurs_at(s, sep, j),
    decreases s.len() + 1 - i,
{
    if i + sep.len() > s.len() {
    } else if occurs_at(s, sep, i) {
    } else {
        lemma_find_from(s, sep, i + 1);
        assert forall|j: int| i <= j && find_from(s, sep, i) == -1 implies !occurs_at(s, sep, j) by {
            if j == i {
            }
        }
    }
}

/// The pieces of `s` between the non-overlapping occurrences of `sep`, scanned left
/// to right, as std's `str::split` with a string pattern.
pub open spec fn split_by(s: Seq<char>, sep: Seq<char>) -> Seq<Seq<char>>
    decreases s.len(),
{
    if sep.len() == 0 {
        seq![s]
    } else {
        let i = find_from(s, sep, 0);
        if i < 0 {
            seq![s]
        } else {
            proof {
                lemma_find_from(s, sep, 0);
            }
            seq![s.take(i)] + split_by(s.skip(i + sep.len()), sep)
        }
    }
}

/// The views of a sequence of character vectors.
pub open spec fn views(v: Seq<Vec<char>>) -> Seq<Seq<char>> {
    v.map_values(|x: Vec<char>| x@)
}

proof fn lemma_find_from_shift(s: Seq<char>, sep: Seq<char>, off: int, j: int)
    requires
        0 <= off <= j,
        off <= s.len(),
    ensures
        find_from(s.skip(off), sep, j - off) == if find_from(s, sep, j) == -1 { -1 } else { find_from(s, sep, j) - off },
    decreases s.len() + 1 - j,
{
    let r = s.skip(off);
    if j + sep.len() > s.len() {
    } else {
        assert(occurs_at(r, sep, j - off) == occurs_at(s, sep, j)) by {
            assert(r.subrange(j - off, j - off + sep.len()) =~= s.subrange(j, j + sep.len()));
        }
        if !occurs_at(s, sep, j) {
            lemma_find_from_shift(s, sep, off, j + 1);
        }
    }
}

/// First absolute index `j >= from` where `sep` occurs in `s`.
pub fn find_chars(s: &Vec<char>, sep: &Vec<char>, from: usize) -> (r: Option<usize>)
    requires
        from <= s.len(),
        sep.len() > 0,
    ensures
        match r {
            Some(j) => find_from(s@, sep@, from as int) == j as int,
            None => find_from(s@, sep@, from as int) == -1,
        },
{
    let mut j = from;
    while j <= s.len() && sep.len() <= s.len() - j
        invariant
            from <= j,
            sep.len() > 0,
            find_from(s@, sep@, from as int) == find_from(s@, sep@, j as int),
        decreases s.len() + 1 - j,
    {
        if matches_at(s, sep, j) {
            return Some(j);
        }
        j = j + 1;
    }
    None
}

/// `sep` occurs in `s` at index `j`.
pub fn matches_at(s: &Vec<char>, sep: &Vec<char>, j: usize) -> (b: bool)
    ensures
        b == occurs_at(s@, sep@, j as int),
{
    if j > s.len() || sep.len() > s.len() - j {
        return false;
    }
    let mut k: usize = 0;
    while k < sep.len()
        invariant
            j + sep.len() <= s.len(),
            k <= sep.len(),
            forall|q: int| 0 <= q < k ==> s@[j + q] == sep@[q],
        decreases sep.len() - k,
    {
        if s[j + k] != sep[k] {
            assert(s@.subrange(j as int, j + sep.len())[k as int] != sep@[k as int]);
            return false;
        }
        k = k + 1;
    }
    assert(s@.subrange(j as int, j + sep.len()) =~= sep@);
    true
}

/// The pieces of `s` between the occurrences of `sep`.
pub fn split_chars(s: &Vec<char>, sep: &Vec<char>) -> (r: Vec<Vec<char>>)
    requires
        sep.len() > 0,
    ensures
        views(r@) == split_by(s@, sep@),
{
    let mut r: Vec<Vec<char>> = Vec::new();
    let mut start: usize = 0;
    assert(s@.skip(0) =~= s@);
    assert(views(r@) =~= Seq::<Seq<char>>::empty());
    loop
        invariant
            sep.len() > 0,
            start <= s.len(),
            views(r@) + split_by(s@.skip(start as int), sep@) == split_by(s@, sep@),
        decreases s.len() - start,
    {
        let ghost rest = s@.skip(start as int);
        let f = find_chars(s, sep, start);
        proof {
            lemma_find_from_shift(s@, sep@, start as int, start as int);
            lemma_find_from(s@, sep@, start as int);
        }
        match f {
            None => {
                let piece = slice_chars(s, start, s.len());
                assert(piece@ =~= rest);
                assert(split_by(rest, sep@) == seq![rest]);
                let ghost before = views(r@);
                r.push(piece);
                assert(views(r@) =~= before.push(rest));
                return r;
            }
            Some(j) => {
                let piece = slice_chars(s, start, j);
                let ghost i = j - start;
                assert(piece@ =~= rest.take(i));
                assert(rest.skip(i + sep.len()) =~= s@.skip(j + sep.len()));
                let ghost before = views(r@);
                r.push(piece);
                assert(views(r@) =~= before.push(rest.take(i)));
                assert(split_by(rest, sep@) == seq![rest.take(i)] + split_by(rest.skip(i + sep.len()), sep@));
                assert(views(r@) + split_by(s@.skip(j + sep.len()), sep@) =~= before + split_by(rest, sep@));
                start = j + sep.len();
            }
        }
    }
}

} // verus!
