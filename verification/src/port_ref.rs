//! Port references of interconnects: `"fle[3:0].out"` lists expanded into single
//! ports, the block a reference names, and whether a reference is a clock.
use vstd::prelude::*;
use crate::text::{
    decimal, decimal_chars, is_whitespace, char_is_whitespace, skip_ws_forward, spec_parse_i32, parse_i32_range,
    slice_chars, chars_of, string_from_chars, views, find_from, find_chars,
};
use crate::pb_type::{PBType, Port, PortClass, Interconnect};

verus! {

broadcast use vstd::string::group_string_axioms;

// ------------------------------------------------------------------
// Words
// ------------------------------------------------------------------

/// The index of the first whitespace character at or after `i` (or the length).
pub open spec fn skip_nonws(s: Seq<char>, i: int) -> int
    decreases s.len() - i,
{
    if 0 <= i < s.len() && !is_whitespace(s[i]) {
        skip_nonws(s, i + 1)
    } else {
        i
    }
}

pub proof fn lemma_skip_ws(s: Seq<char>, i: int)
    requires
        0 <= i <= s.len(),
    ensures
        i <= skip_ws_forward(s, i) <= s.len(),
        skip_ws_forward(s, i) < s.len() ==> !is_whitespace(s[skip_ws_forward(s, i)]),
        forall|j: int| i <= j < skip_ws_forward(s, i) ==> is_whitespace(#[trigger] s[j]),
    decreases s.len() - i,
{
    if i < s.len() && is_whitespace(s[i]) {
        lemma_skip_ws(s, i + 1);
    }
}

pub proof fn lemma_skip_nonws(s: Seq<char>, i: int)
    requires
        0 <= i <= s.len(),
    ensures
        i <= skip_nonws(s, i) <= s.len(),
        skip_nonws(s, i) < s.len() ==> is_whitespace(s[skip_nonws(s, i)]),
        forall|j: int| i <= j < skip_nonws(s, i) ==> !is_whitespace(#[trigger] s[j]),
    decreases s.len() - i,
{
    if i < s.len() && !is_whitespace(s[i]) {
        lemma_skip_nonws(s, i + 1);
    }
}

/// The words of `s` from index `i` on: the runs of characters between
/// whitespace, as std's `str::split_whitespace` gives them.
pub open spec fn words_from(s: Seq<char>, i: int) -> Seq<Seq<char>>
    decreases s.len() - i,
{
    if i < 0 || i > s.len() {
        Seq::empty()
    } else {
        let a = skip_ws_forward(s, i);
        proof {
            lemma_skip_ws(s, i);
        }
        if a >= s.len() {
            Seq::empty()
        } else {
            let b = skip_nonws(s, a);
            proof {
                lemma_skip_nonws(s, a);
            }
            seq![s.subrange(a, b)] + words_from(s, b)
        }
    }
}

/// The words of `s`, as std's `str::split_whitespace` gives them.
pub fn split_whitespace(s: &Vec<char>) -> (r: Vec<Vec<char>>)
    ensures
        views(r@) == words_from(s@, 0),
{
    let mut r: Vec<Vec<char>> = Vec::new();
    let mut i: usize = 0;
    while i < s.len()
        invariant
            i <= s.len(),
            views(r@) + words_from(s@, i as int) == words_from(s@, 0),
        decreases s.len() - i,
    {
        let mut a = i;
        while a < s.len() && char_is_whitespace(s[a])
            invariant
                i <= a <= s.len(),
                skip_ws_forward(s@, i as int) == skip_ws_forward(s@, a as int),
            decreases s.len() - a,
        {
            a = a + 1;
        }
        proof {
            lemma_skip_ws(s@, i as int);
        }
        if a == s.len() {
            assert(words_from(s@, i as int) =~= Seq::<Seq<char>>::empty());
            assert(views(r@) =~= views(r@) + words_from(s@, i as int));
            i = a;
        } else {
            let mut b = a;
            while b < s.len() && !char_is_whitespace(s[b])
                invariant
                    a <= b <= s.len(),
                    skip_nonws(s@, a as int) == skip_nonws(s@, b as int),
                decreases s.len() - b,
            {
                b = b + 1;
            }
            proof {
                lemma_skip_nonws(s@, a as int);
            }
            let w = slice_chars(s, a, b);
            let ghost before = r@;
            r.push(w);
            assert(views(r@) =~= views(before).push(w@));
            assert(views(r@) + words_from(s@, b as int) =~= views(before) + words_from(s@, i as int));
            i = b;
        }
    }
    assert(words_from(s@, i as int) =~= Seq::<Seq<char>>::empty());
    assert(views(r@) =~= views(r@) + words_from(s@, i as int));
    r
}

// ------------------------------------------------------------------
// Bit ranges
// ------------------------------------------------------------------

/// The first index at or after `i` where `c` is, or -1.
pub open spec fn index_from(s: Seq<char>, c: char, i: int) -> int
    decreases s.len() - i,
{
    if i < 0 || i >= s.len() {
        -1
    } else if s[i] == c {
        i
    } else {
        index_from(s, c, i + 1)
    }
}

pub proof fn lemma_index_from(s: Seq<char>, c: char, i: int)
    requires
        0 <= i,
    ensures
        index_from(s, c, i) == -1 || (i <= index_from(s, c, i) < s.len() && s[index_from(s, c, i)] == c),
        forall|j: int| i <= j < s.len() && (index_from(s, c, i) == -1 || j < index_from(s, c, i)) ==> #[trigger] s[j] != c,
    decreases s.len() - i,
{
    if i < s.len() && s[i] != c {
        lemma_index_from(s, c, i + 1);
    }
}

/// The first index at or after `from` where `c` is in `s`.
fn find_char(s: &Vec<char>, c: char, from: usize) -> (r: Option<usize>)
    ensures
        match r {
            Some(j) => index_from(s@, c, from as int) == j,
            None => index_from(s@, c, from as int) == -1,
        },
{
    let mut j = from;
    while j < s.len()
        invariant
            from <= j,
            index_from(s@, c, from as int) == index_from(s@, c, j as int),
        decreases s.len() - j,
    {
        if s[j] == c {
            return Some(j);
        }
        j = j + 1;
    }
    None
}

/// The first bit range of `t` at or after `from`, scanning as the expansion does:
/// a `[`, the first `]` after it, and between them two decimal integers split at
/// the first `:`. Brackets whose content is no such range are passed over; a `[`
/// without a `]` ends the scan. Gives the positions of the brackets and the two
/// integers (most significant first).
pub open spec fn first_range(t: Seq<char>, from: int) -> Option<(int, int, i32, i32)>
    decreases t.len() - from,
{
    if from < 0 {
        None
    } else {
        let o = index_from(t, '[', from);
        if o < 0 {
            None
        } else {
            let c = index_from(t, ']', o);
            proof {
                lemma_index_from(t, '[', from);
                lemma_index_from(t, ']', o);
            }
            if c < 0 {
                None
            } else {
                let k = index_from(t, ':', o + 1);
                if 0 <= k < c && spec_parse_i32(t.subrange(o + 1, k)) is Some && spec_parse_i32(t.subrange(k + 1, c)) is Some {
                    Some((o, c, spec_parse_i32(t.subrange(o + 1, k))->0, spec_parse_i32(t.subrange(k + 1, c))->0))
                } else {
                    first_range(t, c + 1)
                }
            }
        }
    }
}

/// The integers from `msb` to `lsb`, both included, one by one.
pub open spec fn range_values(msb: int, lsb: int) -> Seq<int> {
    if msb >= lsb {
        Seq::new((msb - lsb + 1) as nat, |k: int| msb - k)
    } else {
        Seq::new((lsb - msb + 1) as nat, |k: int| msb + k)
    }
}

/// `v` in decimal, with a `-` before a negative value.
pub open spec fn int_text(v: int) -> Seq<char> {
    if v < 0 {
        seq!['-'] + decimal((-v) as nat)
    } else {
        decimal(v as nat)
    }
}

/// `t` with its characters `o..=c` replaced by `[v]`.
pub open spec fn with_index(t: Seq<char>, o: int, c: int, v: int) -> Seq<char> {
    t.subrange(0, o) + seq!['['] + int_text(v) + seq![']'] + t.subrange(c + 1, t.len() as int)
}

/// The number of `:` in `s`.
pub open spec fn colons(s: Seq<char>) -> nat
    decreases s.len(),
{
    if s.len() == 0 {
        0
    } else {
        colons(s.drop_last()) + if s.last() == ':' { 1nat } else { 0nat }
    }
}

pub proof fn lemma_colons_add(a: Seq<char>, b: Seq<char>)
    ensures
        colons(a + b) == colons(a) + colons(b),
    decreases b.len(),
{
    if b.len() > 0 {
        assert((a + b).drop_last() =~= a + b.drop_last());
        lemma_colons_add(a, b.drop_last());
    } else {
        assert(a + b =~= a);
    }
}

pub proof fn lemma_colons_none(s: Seq<char>)
    requires
        forall|i: int| 0 <= i < s.len() ==> #[trigger] s[i] != ':',
    ensures
        colons(s) == 0,
    decreases s.len(),
{
    if s.len() > 0 {
        lemma_colons_none(s.drop_last());
    }
}

pub proof fn lemma_colons_some(s: Seq<char>, k: int)
    requires
        0 <= k < s.len(),
        s[k] == ':',
    ensures
        colons(s) >= 1,
    decreases s.len(),
{
    if k < s.len() - 1 {
        lemma_colons_some(s.drop_last(), k);
    }
}

pub proof fn lemma_decimal_digits(n: nat)
    ensures
        forall|i: int| 0 <= i < decimal(n).len() ==> #[trigger] decimal(n)[i] != ':' && decimal(n)[i] != ']',
    decreases n,
{
    if n >= 10 {
        lemma_decimal_digits(n / 10);
        assert forall|i: int| 0 <= i < decimal(n).len() implies #[trigger] decimal(n)[i] != ':' && decimal(n)[i] != ']' by {
            if i < decimal(n / 10).len() {
                assert(decimal(n)[i] == decimal(n / 10)[i]);
            }
        }
    }
}

pub proof fn lemma_int_text(v: int)
    ensures
        forall|i: int| 0 <= i < int_text(v).len() ==> #[trigger] int_text(v)[i] != ':' && int_text(v)[i] != ']',
{
    if v < 0 {
        lemma_decimal_digits((-v) as nat);
        assert forall|i: int| 0 <= i < int_text(v).len() implies #[trigger] int_text(v)[i] != ':' && int_text(v)[i] != ']' by {
            if i > 0 {
                assert(int_text(v)[i] == decimal((-v) as nat)[i - 1]);
            }
        }
    } else {
        lemma_decimal_digits(v as nat);
    }
}

pub proof fn lemma_first_range(t: Seq<char>, from: int)
    requires
        first_range(t, from) is Some,
    ensures
        ({
            let (o, c, msb, lsb) = first_range(t, from)->0;
            &&& 0 <= from <= o < c < t.len()
            &&& colons(t.subrange(o, c + 1)) >= 1
        }),
    decreases t.len() - from,
{
    let o = index_from(t, '[', from);
    let c = index_from(t, ']', o);
    lemma_index_from(t, '[', from);
    lemma_index_from(t, ']', o);
    let k = index_from(t, ':', o + 1);
    lemma_index_from(t, ':', o + 1);
    if 0 <= k < c && spec_parse_i32(t.subrange(o + 1, k)) is Some && spec_parse_i32(t.subrange(k + 1, c)) is Some {
        lemma_colons_some(t.subrange(o, c + 1), k - o);
    } else {
        lemma_first_range(t, c + 1);
    }
}

/// Replacing a bit range by one index removes a `:`.
pub proof fn lemma_with_index_colons(t: Seq<char>, o: int, c: int, v: int)
    requires
        0 <= o < c < t.len(),
        colons(t.subrange(o, c + 1)) >= 1,
    ensures
        colons(with_index(t, o, c, v)) < colons(t),
{
    let pre = t.subrange(0, o);
    let mid = t.subrange(o, c + 1);
    let post = t.subrange(c + 1, t.len() as int);
    assert(t =~= pre + mid + post);
    lemma_colons_add(pre + mid, post);
    lemma_colons_add(pre, mid);
    let nm = seq!['['] + int_text(v) + seq![']'];
    lemma_int_text(v);
    assert forall|i: int| 0 <= i < nm.len() implies #[trigger] nm[i] != ':' by {
        if 0 < i < nm.len() - 1 {
            assert(nm[i] == int_text(v)[i - 1]);
        }
    }
    lemma_colons_none(nm);
    assert(with_index(t, o, c, v) =~= pre + nm + post);
    lemma_colons_add(pre + nm, post);
    lemma_colons_add(pre, nm);
}

/// The number of values of the first bit range of `t` (0 where it has none).
pub open spec fn range_len(t: Seq<char>) -> nat {
    match first_range(t, 0) {
        None => 0,
        Some((o, c, msb, lsb)) => range_values(msb as int, lsb as int).len(),
    }
}

/// The single ports the reference `t` stands for, from the `k`-th value of its
/// first bit range on: that range replaced by each value in turn, from the most
/// significant, each result expanded in turn. A reference without a bit range
/// stands for itself.
pub open spec fn expand_from(t: Seq<char>, k: nat) -> Seq<Seq<char>>
    decreases colons(t), gap(k as int, range_len(t) as int),
{
    match first_range(t, 0) {
        None => if k == 0 {
            seq![t]
        } else {
            Seq::empty()
        },
        Some((o, c, msb, lsb)) => {
            let vals = range_values(msb as int, lsb as int);
            if k >= vals.len() {
                Seq::empty()
            } else {
                proof {
                    lemma_first_range(t, 0);
                    lemma_with_index_colons(t, o, c, vals[k as int]);
                }
                expand_from(with_index(t, o, c, vals[k as int]), 0) + expand_from(t, k + 1)
            }
        },
    }
}

/// How far `a` is below `b` (0 when it is not).
pub open spec fn gap(a: int, b: int) -> nat {
    if a < b {
        (b - a) as nat
    } else {
        0
    }
}

/// The single ports the reference `t` stands for.
pub open spec fn expand_token(t: Seq<char>) -> Seq<Seq<char>> {
    expand_from(t, 0)
}

/// The single ports the references `ws` stand for, in order.
pub open spec fn expand_words(ws: Seq<Seq<char>>) -> Seq<Seq<char>>
    decreases ws.len(),
{
    if ws.len() == 0 {
        Seq::empty()
    } else {
        expand_words(ws.drop_last()) + expand_token(ws.last())
    }
}

/// The single ports a whitespace-separated list of references stands for.
pub open spec fn expand_list(s: Seq<char>) -> Seq<Seq<char>> {
    expand_words(words_from(s, 0))
}

/// The first bit range of `t` from `from` on, found as `first_range` does.
fn find_range(t: &Vec<char>) -> (r: Option<(usize, usize, i32, i32)>)
    ensures
        match r {
            Some((o, c, msb, lsb)) => first_range(t@, 0) == Some((o as int, c as int, msb, lsb)),
            None => first_range(t@, 0) is None,
        },
{
    let mut start_search: usize = 0;
    while start_search <= t.len()
        invariant
            first_range(t@, 0) == first_range(t@, start_search as int),
        decreases t.len() + 1 - start_search,
    {
        let open = match find_char(t, '[', start_search) {
            Some(o) => o,
            None => return None,
        };
        proof {
            lemma_index_from(t@, '[', start_search as int);
        }
        let close = match find_char(t, ']', open) {
            Some(c) => c,
            None => return None,
        };
        proof {
            lemma_index_from(t@, ']', open as int);
            lemma_index_from(t@, ':', open + 1);
        }
        if let Some(k) = find_char(t, ':', open + 1) {
            if k < close {
                let msb = parse_i32_range(t, open + 1, k);
                let lsb = parse_i32_range(t, k + 1, close);
                if let (Some(msb), Some(lsb)) = (msb, lsb) {
                    return Some((open, close, msb, lsb));
                }
            }
        }
        start_search = close + 1;
    }
    None
}

/// `v` in decimal, as `format!` prints an `i32`.
fn int_chars(v: i32) -> (r: Vec<char>)
    ensures
        r@ == int_text(v as int),
{
    if v < 0 {
        let mut r: Vec<char> = Vec::new();
        r.push('-');
        let m = (0 - (v as i64)) as u64;
        let d = decimal_chars(m);
        let mut i: usize = 0;
        while i < d.len()
            invariant
                i <= d.len(),
                r@ == seq!['-'] + d@.take(i as int),
            decreases d.len() - i,
        {
            r.push(d[i]);
            assert(d@.take(i + 1) =~= d@.take(i as int).push(d@[i as int]));
            i = i + 1;
        }
        assert(d@.take(i as int) =~= d@);
        r
    } else {
        decimal_chars(v as u64)
    }
}

/// `t` with its characters `o..=c` replaced by `[v]`.
fn replace_range(t: &Vec<char>, o: usize, c: usize, v: i32) -> (r: Vec<char>)
    requires
        o < c < t.len(),
    ensures
        r@ == with_index(t@, o as int, c as int, v as int),
{
    let mut r = slice_chars(t, 0, o);
    r.push('[');
    let d = int_chars(v);
    let mut i: usize = 0;
    let ghost base = r@;
    while i < d.len()
        invariant
            i <= d.len(),
            r@ == base + d@.take(i as int),
        decreases d.len() - i,
    {
        r.push(d[i]);
        assert(d@.take(i + 1) =~= d@.take(i as int).push(d@[i as int]));
        i = i + 1;
    }
    assert(d@.take(i as int) =~= d@);
    r.push(']');
    let post = slice_chars(t, c + 1, t.len());
    let mut j: usize = 0;
    let ghost base2 = r@;
    while j < post.len()
        invariant
            j <= post.len(),
            r@ == base2 + post@.take(j as int),
        decreases post.len() - j,
    {
        r.push(post[j]);
        assert(post@.take(j + 1) =~= post@.take(j as int).push(post@[j as int]));
        j = j + 1;
    }
    assert(post@.take(j as int) =~= post@);
    assert(r@ =~= with_index(t@, o as int, c as int, v as int));
    r
}

/// Appends the expansion of the reference `t` to `out`.
fn expand_token_into(t: &Vec<char>, out: &mut Vec<Vec<char>>)
    ensures
        views(final(out)@) == views(old(out)@) + expand_token(t@),
    decreases colons(t@),
{
    match find_range(t) {
        None => {
            let ghost before = out@;
            let copy = slice_chars(t, 0, t.len());
            assert(copy@ =~= t@);
            out.push(copy);
            assert(views(out@) =~= views(before).push(t@));
            assert(expand_token(t@) == seq![t@]);
            assert(views(out@) =~= views(before) + expand_token(t@));
        },
        Some((open, close, msb, lsb)) => {
            proof {
                lemma_first_range(t@, 0);
            }
            let ghost vals = range_values(msb as int, lsb as int);
            let ghost start = views(out@);
            let step: i32 = if msb >= lsb { -1 } else { 1 };
            let mut current = msb;
            let mut k: usize = 0;
            loop
                invariant_except_break
                    0 <= k < vals.len(),
                    current as int == vals[k as int],
                    views(out@) + expand_from(t@, k as nat) == start + expand_from(t@, 0),
                invariant
                    first_range(t@, 0) == Some((open as int, close as int, msb, lsb)),
                    vals == range_values(msb as int, lsb as int),
                    step == (if msb >= lsb { -1i32 } else { 1i32 }),
                    open < close < t.len(),
                    colons(t@.subrange(open as int, close + 1)) >= 1,
                ensures
                    views(out@) == start + expand_from(t@, 0),
                decreases vals.len() - k,
            {
                let nt = replace_range(t, open, close, current);
                proof {
                    lemma_with_index_colons(t@, open as int, close as int, current as int);
                }
                let ghost mid = views(out@);
                expand_token_into(&nt, out);
                assert(expand_from(t@, k as nat) == expand_from(nt@, 0) + expand_from(t@, (k + 1) as nat));
                if current == lsb {
                    assert(expand_from(t@, (k + 1) as nat) =~= Seq::<Seq<char>>::empty());
                    assert(views(out@) =~= start + expand_from(t@, 0));
                    break;
                }
                assert(views(out@) + expand_from(t@, (k + 1) as nat) =~= start + expand_from(t@, 0));
                current = current + step;
                k = k + 1;
            }
        },
    }
}

/// The single port references a list stands for, in order: `"fle[3:0].out"`
/// gives `fle[3].out` down to `fle[0].out`, and every bit range of a reference is
/// expanded, the first one varying slowest.
pub fn expand_port_list(port_list_str: &str) -> (r: Vec<String>)
    ensures
        r@.map_values(|s: String| s@) == expand_list(port_list_str@),
{
    let chars = chars_of(port_list_str);
    let parts = split_whitespace(&chars);
    let mut out: Vec<Vec<char>> = Vec::new();
    let ghost ws = words_from(chars@, 0);
    let mut i: usize = 0;
    while i < parts.len()
        invariant
            i <= parts.len(),
            views(parts@) == ws,
            ws == words_from(chars@, 0),
            views(out@) == expand_words(ws.take(i as int)),
        decreases parts.len() - i,
    {
        expand_token_into(&parts[i], &mut out);
        assert(ws[i as int] == parts@[i as int]@);
        assert(ws.take(i + 1).drop_last() =~= ws.take(i as int));
        i = i + 1;
    }
    assert(ws.take(i as int) =~= ws);
    let mut r: Vec<String> = Vec::new();
    let mut j: usize = 0;
    while j < out.len()
        invariant
            j <= out.len(),
            r@.map_values(|s: String| s@) == views(out@).take(j as int),
        decreases out.len() - j,
    {
        let s = string_from_chars(&out[j]);
        let ghost before = r@;
        let ghost sv = s@;
        r.push(s);
        assert(r@.map_values(|s: String| s@) =~= before.map_values(|s: String| s@).push(sv));
        assert(r@.map_values(|s: String| s@) =~= views(out@).take(j + 1));
        j = j + 1;
    }
    assert(views(out@).take(j as int) =~= views(out@));
    r
}

// ------------------------------------------------------------------
// Names in references
// ------------------------------------------------------------------

/// `s` up to, not including, the first `c` (all of `s` where there is none).
pub open spec fn before_char(s: Seq<char>, c: char) -> Seq<char> {
    let i = index_from(s, c, 0);
    if i < 0 {
        s
    } else {
        s.subrange(0, i)
    }
}

/// `s` after the first `c` (all of `s` where there is none).
pub open spec fn after_char(s: Seq<char>, c: char) -> Seq<char> {
    let i = index_from(s, c, 0);
    if i < 0 {
        s
    } else {
        s.subrange(i + 1, s.len() as int)
    }
}

/// The characters of `s` before the first `c`.
fn prefix_before(s: &Vec<char>, c: char) -> (r: Vec<char>)
    ensures
        r@ == before_char(s@, c),
{
    proof {
        lemma_index_from(s@, c, 0);
    }
    match find_char(s, c, 0) {
        Some(i) => slice_chars(s, 0, i),
        None => slice_chars(s, 0, s.len()),
    }
}

/// The block a port reference names: what comes before its first `.`
/// (`"clb.I"` gives `"clb"`; a reference without a `.` names itself).
pub fn pb_name_from_port(port: &str) -> (r: Option<String>)
    ensures
        r matches Some(name) && name@ == before_char(port@, '.'),
{
    let c = chars_of(port);
    let p = prefix_before(&c, '.');
    Some(string_from_chars(&p))
}

/// A port reference without the name of its block: what comes after its first
/// `.` (`"adder.a"` gives `"a"`; a reference without a `.` is kept whole).
pub fn strip_prefix(port_ref: &str) -> (r: String)
    ensures
        r@ == after_char(port_ref@, '.'),
{
    let c = chars_of(port_ref);
    proof {
        lemma_index_from(c@, '.', 0);
    }
    match find_char(&c, '.', 0) {
        Some(i) => {
            let rest = slice_chars(&c, i + 1, c.len());
            string_from_chars(&rest)
        },
        None => string_from_chars(&c),
    }
}

/// The last index where `c` is in `s`, or -1.
pub open spec fn last_index(s: Seq<char>, c: char) -> int
    decreases s.len(),
{
    if s.len() == 0 {
        -1
    } else if s.last() == c {
        s.len() - 1
    } else {
        last_index(s.drop_last(), c)
    }
}

pub proof fn lemma_last_index(s: Seq<char>, c: char)
    ensures
        -1 <= last_index(s, c) < s.len(),
        last_index(s, c) >= 0 ==> s[last_index(s, c)] == c,
    decreases s.len(),
{
    if s.len() > 0 && s.last() != c {
        lemma_last_index(s.drop_last(), c);
    }
}

/// A port reference split into the instance it names, if any, and the port's
/// name: `"clk[0]"` gives no instance and `"clk"`, `"clb.clk[0]"` gives `"clb"`
/// and `"clk"`, `"fle[0].clk[0]"` gives `"fle[0]"` and `"clk"` (the instance is
/// what precedes the last `.`).
pub open spec fn ref_parts(s: Seq<char>) -> (Option<Seq<char>>, Seq<char>) {
    let d = last_index(s, '.');
    if d >= 0 {
        (Some(s.subrange(0, d)), before_char(s.subrange(d + 1, s.len() as int), '['))
    } else {
        (None, before_char(s, '['))
    }
}

/// The lowercase form of `s`, as std's `str::to_lowercase` gives it.
pub uninterp spec fn lowercase(s: Seq<char>) -> Seq<char>;

/// Every character of `s` is ASCII.
pub open spec fn is_ascii_text(s: Seq<char>) -> bool {
    forall|i: int| 0 <= i < s.len() ==> (#[trigger] s[i] as int) < 128
}

/// The ASCII lowercase of a character: `A`..`Z` become `a`..`z`, every other
/// character stays.
pub open spec fn ascii_lower(c: char) -> char {
    if 'A' <= c && c <= 'Z' {
        ((c as int) + 32) as char
    } else {
        c
    }
}

/// `s` with every character taken to its ASCII lowercase.
pub open spec fn ascii_lowercase(s: Seq<char>) -> Seq<char> {
    s.map_values(|c: char| ascii_lower(c))
}

/// std's `str::to_lowercase`: the lowercase form of `s`, by Unicode's mapping
/// (which may change the number of characters). The contract names the result
/// as a function of `s`, and states it for ASCII text, where Unicode's lowercase
/// mapping takes `A`..`Z` to `a`..`z` and leaves every other character as it is.
#[verifier::external_body]
fn to_lowercase(s: &str) -> (r: String)
    ensures
        r@ == lowercase(s@),
        is_ascii_text(s@) ==> r@ == ascii_lowercase(s@),
{
    s.to_lowercase()
}

/// `s` has `clk` or `clock` in it.
pub open spec fn has_clock_word(s: Seq<char>) -> bool {
    find_from(s, "clk"@, 0) >= 0 || find_from(s, "clock"@, 0) >= 0
}

/// Whether the (lowercased) name `lower` has `clk` or `clock` in it.
pub fn mentions_clock(lower: &str) -> (r: bool)
    ensures
        r == has_clock_word(lower@),
{
    let c = chars_of(lower);
    let clk = chars_of("clk");
    let clock = chars_of("clock");
    proof {
        reveal_strlit("clk");
        reveal_strlit("clock");
    }
    let a = find_chars(&c, &clk, 0);
    let b = find_chars(&c, &clock, 0);
    a.is_some() || b.is_some()
}

/// A name that reads as a clock: its lowercase form has `clk` or `clock` in it.
/// For an ASCII name that form is its ASCII lowercase.
pub open spec fn clockish(name: Seq<char>) -> bool {
    if is_ascii_text(name) {
        has_clock_word(ascii_lowercase(name))
    } else {
        has_clock_word(lowercase(name))
    }
}

/// Whether the name `name` reads as a clock.
fn is_clockish(name: &Vec<char>) -> (r: bool)
    ensures
        r == clockish(name@),
{
    let s = string_from_chars(name);
    let lower = to_lowercase(s.as_str());
    mentions_clock(lower.as_str())
}

/// The port `p` is named `name` and is a clock: a clock port, or an input or
/// output of the clock class or whose name reads as a clock.
pub open spec fn port_is_clock_named(p: Port, name: Seq<char>) -> bool {
    match p {
        Port::Clock(c) => c.name@ == name,
        Port::Input(i) => i.name@ == name && (i.port_class == PortClass::Clock || clockish(i.name@)),
        Port::Output(o) => o.name@ == name && (o.port_class == PortClass::Clock || clockish(o.name@)),
    }
}

/// Some port of `ports` is named `name` and is a clock.
pub open spec fn has_clock_port(ports: Seq<Port>, name: Seq<char>) -> bool {
    exists|i: int| 0 <= i < ports.len() && port_is_clock_named(#[trigger] ports[i], name)
}

/// The index of the first child named `name`, or -1.
pub open spec fn first_child_named(children: Seq<PBType>, name: Seq<char>, from: int) -> int
    decreases children.len() - from,
{
    if from < 0 || from >= children.len() {
        -1
    } else if children[from].name@ == name {
        from
    } else {
        first_child_named(children, name, from + 1)
    }
}

/// The port reference `port_ref` is a clock, seen from `current` with the
/// children `children`: with an instance, the first child named as the instance
/// (without its index) has a clock port of that name; without one, `current` has;
/// and in any case, a port whose name reads as a clock is one.
pub open spec fn is_clock_ref(port_ref: Seq<char>, current: PBType, children: Seq<PBType>) -> bool {
    let (instance, name) = ref_parts(port_ref);
    let found = match instance {
        Some(inst) => {
            let k = first_child_named(children, before_char(inst, '['), 0);
            k >= 0 && has_clock_port(children[k].ports@, name)
        },
        None => has_clock_port(current.ports@, name),
    };
    found || clockish(name)
}

/// `c` does not occur in `s`.
pub open spec fn lacks(s: Seq<char>, c: char) -> bool {
    forall|j: int| 0 <= j < s.len() ==> #[trigger] s[j] != c
}

/// An index suffix of a port reference: nothing, or a `[`-led part without `.`.
pub open spec fn index_suffix(sfx: Seq<char>) -> bool {
    (sfx.len() == 0 || sfx[0] == '[') && lacks(sfx, '.')
}

/// Where `c` first occurs at `p`, the first index of `c` is `p`; where it does
/// not occur, there is none.
proof fn lemma_index_from_at(s: Seq<char>, c: char, p: int)
    requires
        -1 <= p < s.len(),
        p >= 0 ==> s[p] == c,
        forall|j: int| 0 <= j < s.len() && (p == -1 || j < p) ==> #[trigger] s[j] != c,
    ensures
        index_from(s, c, 0) == p,
{
    lemma_index_from(s, c, 0);
    let f = index_from(s, c, 0);
    if f != p {
        if f == -1 {
            assert(s[p] != c);
        } else if p == -1 || f < p {
            assert(s[f] != c);
        } else {
            assert(s[p] != c);
        }
    }
}

/// Where `c` occurs at `p` and not after it, its last index is `p`.
proof fn lemma_last_index_at(s: Seq<char>, c: char, p: int)
    requires
        -1 <= p < s.len(),
        p >= 0 ==> s[p] == c,
        forall|j: int| p < j < s.len() ==> #[trigger] s[j] != c,
    ensures
        last_index(s, c) == p,
    decreases s.len(),
{
    if s.len() > 0 && p < s.len() - 1 {
        assert(s.last() == s[s.len() - 1]);
        let d = s.drop_last();
        assert forall|j: int| p < j < d.len() implies #[trigger] d[j] != c by {
            assert(d[j] == s[j]);
        }
        if p >= 0 {
            assert(d[p] == s[p]);
        }
        lemma_last_index_at(d, c, p);
    }
}

/// The name in a reference `n` followed by an index suffix is `n`.
proof fn lemma_name_before_index(n: Seq<char>, sfx: Seq<char>)
    requires
        lacks(n, '['),
        index_suffix(sfx),
    ensures
        before_char(n + sfx, '[') == n,
{
    let t = n + sfx;
    if sfx.len() == 0 {
        assert forall|j: int| 0 <= j < t.len() implies #[trigger] t[j] != '[' by {
            assert(t[j] == n[j]);
        }
        lemma_index_from_at(t, '[', -1);
        assert(t =~= n);
    } else {
        assert forall|j: int| 0 <= j < t.len() && j < n.len() implies #[trigger] t[j] != '[' by {
            assert(t[j] == n[j]);
        }
        assert(t[n.len() as int] == sfx[0]);
        lemma_index_from_at(t, '[', n.len() as int);
        assert(t.subrange(0, n.len() as int) =~= n);
    }
}

/// A reference to a port that its block declares as a clock is a clock, whatever
/// the port's name: the port `n` of the current block (`"n"`, `"n[3]"`), or the
/// port `n` of the first child named `child` (`"child.n"`, `"child[1].n[0]"`).
pub proof fn law_declared_clock_port_is_clock(
    current: PBType,
    children: Seq<PBType>,
    n: Seq<char>,
    sfx: Seq<char>,
    child: Seq<char>,
    isfx: Seq<char>,
    i: int,
    k: int,
    j: int,
)
    requires
        lacks(n, '.'),
        lacks(n, '['),
        index_suffix(sfx),
        lacks(child, '.'),
        lacks(child, '['),
        index_suffix(isfx),
    ensures
        0 <= i < current.ports.len() && current.ports@[i] is Clock && current.ports@[i]->Clock_0.name@ == n ==> is_clock_ref(
            n + sfx,
            current,
            children,
        ),
        0 <= k < children.len() && children[k].name@ == child && (forall|m: int| 0 <= m < k ==> #[trigger] children[m].name@
            != child) && 0 <= j < children[k].ports.len() && children[k].ports@[j] is Clock
            && children[k].ports@[j]->Clock_0.name@ == n ==> is_clock_ref(child + isfx + seq!['.'] + n + sfx, current, children),
{
    let own = n + sfx;
    assert forall|q: int| -1 < q < own.len() implies #[trigger] own[q] != '.' by {
        if q < n.len() {
            assert(own[q] == n[q]);
        } else {
            assert(own[q] == sfx[q - n.len()]);
        }
    }
    lemma_last_index_at(own, '.', -1);
    lemma_name_before_index(n, sfx);
    if 0 <= i < current.ports.len() && current.ports@[i] is Clock && current.ports@[i]->Clock_0.name@ == n {
        assert(port_is_clock_named(current.ports@[i], n));
    }
    let inst = child + isfx;
    let full = inst + seq!['.'] + own;
    let d = inst.len() as int;
    assert(full[d] == '.');
    assert forall|q: int| d < q < full.len() implies #[trigger] full[q] != '.' by {
        assert(full[q] == own[q - d - 1]);
    }
    lemma_last_index_at(full, '.', d);
    assert(full.subrange(0, d) =~= inst);
    assert(full.subrange(d + 1, full.len() as int) =~= own);
    lemma_name_before_index(child, isfx);
    assert(child + isfx + seq!['.'] + n + sfx =~= full);
    assert(ref_parts(full) == (Some(inst), n));
    if 0 <= k < children.len() && children[k].name@ == child && (forall|m: int| 0 <= m < k ==> #[trigger] children[m].name@
        != child) && 0 <= j < children[k].ports.len() && children[k].ports@[j] is Clock
        && children[k].ports@[j]->Clock_0.name@ == n {
        lemma_first_child_named_at(children, child, k, 0);
        assert(port_is_clock_named(children[k].ports@[j], n));
        assert(has_clock_port(children[k].ports@, n));
    }
}

/// The first child named `name` from `from` on is at `k` when `k` has that name
/// and none between `from` and `k` has.
proof fn lemma_first_child_named_at(children: Seq<PBType>, name: Seq<char>, k: int, from: int)
    requires
        0 <= from <= k < children.len(),
        children[k].name@ == name,
        forall|m: int| 0 <= m < k ==> #[trigger] children[m].name@ != name,
    ensures
        first_child_named(children, name, from) == k,
    decreases k - from,
{
    if from < k {
        lemma_first_child_named_at(children, name, k, from + 1);
    }
}

/// Whether two character vectors are equal.
fn chars_eq(a: &Vec<char>, b: &Vec<char>) -> (r: bool)
    ensures
        r == (a@ == b@),
{
    if a.len() != b.len() {
        return false;
    }
    let mut i: usize = 0;
    while i < a.len()
        invariant
            a.len() == b.len(),
            i <= a.len(),
            forall|j: int| 0 <= j < i ==> a@[j] == b@[j],
        decreases a.len() - i,
    {
        if a[i] != b[i] {
            return false;
        }
        i = i + 1;
    }
    assert(a@ =~= b@);
    true
}

/// Whether some port of `ports` is named `name` and is a clock.
fn find_clock_port(ports: &Vec<Port>, name: &Vec<char>) -> (r: bool)
    ensures
        r == has_clock_port(ports@, name@),
{
    let mut i: usize = 0;
    while i < ports.len()
        invariant
            i <= ports.len(),
            forall|j: int| 0 <= j < i ==> !port_is_clock_named(#[trigger] ports@[j], name@),
        decreases ports.len() - i,
    {
        let hit = match &ports[i] {
            Port::Clock(c) => {
                let n = chars_of(c.name.as_str());
                chars_eq(&n, name)
            },
            Port::Input(p) => {
                let n = chars_of(p.name.as_str());
                if chars_eq(&n, name) {
                    p.port_class == PortClass::Clock || is_clockish(&n)
                } else {
                    false
                }
            },
            Port::Output(p) => {
                let n = chars_of(p.name.as_str());
                if chars_eq(&n, name) {
                    p.port_class == PortClass::Clock || is_clockish(&n)
                } else {
                    false
                }
            },
        };
        if hit {
            assert(port_is_clock_named(ports@[i as int], name@));
            return true;
        }
        i = i + 1;
    }
    false
}

/// Whether the port reference `port_ref` is a clock, seen from `current_pb` with
/// the children `children`. The reference may name a port of `current_pb`
/// (`"clk[0]"`) or of a child instance (`"clb.clk[0]"`, `"fle[0].clk[0]"`). A port
/// is a clock where it is declared as one, is of the clock class or has a name
/// that reads as one; where the port is not found, its name decides.
pub fn is_clock_port(port_ref: &str, current_pb: &PBType, children: &Vec<PBType>) -> (r: bool)
    ensures
        r == is_clock_ref(port_ref@, *current_pb, children@),
{
    let s = chars_of(port_ref);
    let ghost parts = ref_parts(s@);
    // Split into the instance, if any, and the port's name.
    let mut d = s.len();
    let mut found_dot = false;
    assert(s@.take(s.len() as int) =~= s@);
    while d > 0
        invariant_except_break
            !found_dot,
        invariant
            d <= s.len(),
            last_index(s@, '.') == last_index(s@.take(d as int), '.'),
        ensures
            d <= s.len(),
            last_index(s@, '.') == last_index(s@.take(d as int), '.'),
            found_dot ==> d > 0 && s@[d - 1] == '.',
            !found_dot ==> d == 0,
        decreases d,
    {
        assert(s@.take(d as int).drop_last() =~= s@.take(d - 1));
        assert(s@.take(d as int).last() == s@[d - 1]);
        if s[d - 1] == '.' {
            found_dot = true;
            break;
        }
        d = d - 1;
    }
    proof {
        if !found_dot {
            assert(s@.take(0) =~= Seq::<char>::empty());
        } else {
            assert(s@.take(d as int).last() == s@[d - 1]);
        }
    }
    let found = if found_dot {
        let dot = d - 1;
        assert(last_index(s@, '.') == dot);
        let instance = slice_chars(&s, 0, dot);
        let port_part = slice_chars(&s, dot + 1, s.len());
        let port_name = prefix_before(&port_part, '[');
        assert(parts == (Some(instance@), port_name@));
        let child_name = prefix_before(&instance, '[');
        // The first child with that name decides.
        let mut k: usize = 0;
        let mut result = false;
        let mut done = false;
        while k < children.len() && !done
            invariant
                k <= children.len(),
                !done ==> first_child_named(children@, child_name@, 0) == first_child_named(children@, child_name@, k as int),
                done ==> ({
                    let j = first_child_named(children@, child_name@, 0);
                    j >= 0 && result == has_clock_port(children@[j].ports@, port_name@)
                }),
            decreases (children.len() - k) * 2 + (if done { 0int } else { 1int }),
        {
            let n = chars_of(children[k].name.as_str());
            if chars_eq(&n, &child_name) {
                result = find_clock_port(&children[k].ports, &port_name);
                done = true;
            } else {
                k = k + 1;
            }
        }
        let r = if done { result } else { false };
        (r, port_name)
    } else {
        assert(last_index(s@, '.') == -1);
        let port_name = prefix_before(&s, '[');
        let r = find_clock_port(&current_pb.ports, &port_name);
        (r, port_name)
    };
    let (hit, port_name) = found;
    assert(port_name@ == parts.1);
    hit || is_clockish(&port_name)
}

/// Every reference of `refs` is a clock, seen from `current` with `children`.
pub open spec fn all_clock_refs(refs: Seq<Seq<char>>, current: PBType, children: Seq<PBType>) -> bool {
    forall|i: int| 0 <= i < refs.len() ==> is_clock_ref(#[trigger] refs[i], current, children)
}

/// `ic` is a complete interconnect all of whose inputs and outputs, once their
/// lists are expanded, are clocks.
pub open spec fn is_clock_complete(ic: Interconnect, current: PBType, children: Seq<PBType>) -> bool {
    match ic {
        Interconnect::Complete(c) => all_clock_refs(expand_list(c.input@), current, children) && all_clock_refs(
            expand_list(c.output@),
            current,
            children,
        ),
        _ => false,
    }
}

/// Whether every reference of `refs` is a clock.
fn all_clock(refs: &Vec<String>, current_pb: &PBType, children: &Vec<PBType>) -> (r: bool)
    ensures
        r == all_clock_refs(refs@.map_values(|s: String| s@), *current_pb, children@),
{
    let ghost v = refs@.map_values(|s: String| s@);
    let mut i: usize = 0;
    while i < refs.len()
        invariant
            i <= refs.len(),
            v == refs@.map_values(|s: String| s@),
            forall|j: int| 0 <= j < i ==> is_clock_ref(#[trigger] v[j], *current_pb, children@),
        decreases refs.len() - i,
    {
        if !is_clock_port(refs[i].as_str(), current_pb, children) {
            assert(!is_clock_ref(v[i as int], *current_pb, children@));
            return false;
        }
        i = i + 1;
    }
    true
}

/// Whether `interconnect` is a complete interconnect that carries clocks only:
/// every port of its input and output lists is a clock.
pub fn is_clock_complete_interconnect(interconnect: &Interconnect, current_pb: &PBType, children: &Vec<PBType>) -> (r: bool)
    ensures
        r == is_clock_complete(*interconnect, *current_pb, children@),
{
    if let Interconnect::Complete(c) = interconnect {
        // Expand port lists to get individual port references
        let raw_inputs = expand_port_list(c.input.as_str());
        let raw_outputs = expand_port_list(c.output.as_str());
        let all_inputs_clock = all_clock(&raw_inputs, current_pb, children);
        let all_outputs_clock = all_clock(&raw_outputs, current_pb, children);
        all_inputs_clock && all_outputs_clock
    } else {
        false
    }
}

/// A reference without a bit range stands for itself alone.
pub proof fn law_plain_reference_is_kept(t: Seq<char>)
    requires
        first_range(t, 0) is None,
    ensures
        expand_token(t) == seq![t],
{
}

/// A reference whose only bit range is `[msb:lsb]` stands for one reference per
/// value from `msb` to `lsb`, in that order.
pub proof fn law_single_range_expands_in_order(t: Seq<char>)
    requires
        first_range(t, 0) matches Some((o, c, msb, lsb)) && forall|v: int|
            #![trigger with_index(t, o, c, v)]
            first_range(with_index(t, o, c, v), 0) is None,
    ensures
        ({
            let (o, c, msb, lsb) = first_range(t, 0)->0;
            let vals = range_values(msb as int, lsb as int);
            &&& expand_token(t).len() == vals.len()
            &&& forall|k: int| 0 <= k < vals.len() ==> #[trigger] expand_token(t)[k] == with_index(t, o, c, vals[k])
        }),
{
    let (o, c, msb, lsb) = first_range(t, 0)->0;
    let vals = range_values(msb as int, lsb as int);
    lemma_expand_from_single(t, o, c, vals, 0);
}

proof fn lemma_expand_from_single(t: Seq<char>, o: int, c: int, vals: Seq<int>, k: nat)
    requires
        first_range(t, 0) matches Some((o2, c2, msb, lsb)) && o2 == o && c2 == c && vals == range_values(
            msb as int,
            lsb as int,
        ),
        forall|v: int| #![trigger with_index(t, o, c, v)] first_range(with_index(t, o, c, v), 0) is None,
        k <= vals.len(),
    ensures
        expand_from(t, k).len() == vals.len() - k,
        forall|i: int| 0 <= i < vals.len() - k ==> #[trigger] expand_from(t, k)[i] == with_index(t, o, c, vals[k + i]),
    decreases vals.len() - k,
{
    if k < vals.len() {
        lemma_expand_from_single(t, o, c, vals, k + 1);
        let w = with_index(t, o, c, vals[k as int]);
        assert(first_range(w, 0) is None);
        assert(expand_from(w, 0) == seq![w]);
        assert(expand_from(t, k) == expand_from(w, 0) + expand_from(t, k + 1));
        assert forall|i: int| 0 <= i < vals.len() - k implies #[trigger] expand_from(t, k)[i] == with_index(
            t,
            o,
            c,
            vals[k + i],
        ) by {
            if i > 0 {
                assert(expand_from(t, k)[i] == expand_from(t, k + 1)[i - 1]);
            }
        }
    } else {
        assert(expand_from(t, k) =~= Seq::<Seq<char>>::empty());
    }
}

// ------------------------------------------------------------------
// Resolving references against the ports drawn
// ------------------------------------------------------------------

/// Where a port reference was found: among the block's own ports or among those
/// of its children, under the given name.
pub enum PortHit {
    Own(String),
    Child(String),
}

/// The value of a hit: whether it is an own port, and the name found.
pub open spec fn hit_view(h: PortHit) -> (bool, Seq<char>) {
    match h {
        PortHit::Own(k) => (true, k@),
        PortHit::Child(k) => (false, k@),
    }
}

/// `keys` has the name `k`.
pub open spec fn has_key(keys: Seq<String>, k: Seq<char>) -> bool {
    exists|i: int| 0 <= i < keys.len() && (#[trigger] keys[i])@ == k
}

/// `s` without the prefix `p`, where it starts with it.
pub open spec fn without_prefix(s: Seq<char>, p: Seq<char>) -> Option<Seq<char>> {
    if p.len() <= s.len() && s.take(p.len() as int) == p {
        Some(s.skip(p.len() as int))
    } else {
        None
    }
}

/// Where the reference `r` is found, seen from the block `pb_name` whose own
/// ports are `mine` and whose children's ports are `children`: `pb.I` or `I`
/// among its own ports, `ble4[0].in` among the children's, and `ble4.in` as
/// `ble4[0].in`, `lut4[0].in` as `lut4.in`.
pub open spec fn resolve(r: Seq<char>, pb_name: Seq<char>, mine: Seq<String>, children: Seq<String>) -> Option<(bool, Seq<char>)> {
    let stripped = without_prefix(r, pb_name + seq!['.']);
    if stripped is Some && has_key(mine, stripped->0) {
        Some((true, stripped->0))
    } else if has_key(mine, r) {
        Some((true, r))
    } else if has_key(children, r) {
        Some((false, r))
    } else {
        let d = index_from(r, '.', 0);
        if d < 0 {
            None
        } else {
            let instance = r.subrange(0, d);
            let port = r.subrange(d + 1, r.len() as int);
            if index_from(instance, '[', 0) < 0 {
                let alt = instance + "[0]."@ + port;
                if has_key(children, alt) {
                    Some((false, alt))
                } else {
                    None
                }
            } else if instance.len() >= 3 && instance.skip(instance.len() - 3) == "[0]"@ {
                let alt = instance.take(instance.len() - 3) + seq!['.'] + port;
                if has_key(children, alt) {
                    Some((false, alt))
                } else {
                    None
                }
            } else {
                None
            }
        }
    }
}

/// Whether `keys` has the name `k`.
fn find_key(keys: &Vec<String>, k: &Vec<char>) -> (r: bool)
    ensures
        r == has_key(keys@, k@),
{
    let mut i: usize = 0;
    while i < keys.len()
        invariant
            i <= keys.len(),
            forall|j: int| 0 <= j < i ==> (#[trigger] keys@[j])@ != k@,
        decreases keys.len() - i,
    {
        let c = chars_of(keys[i].as_str());
        if chars_eq(&c, k) {
            return true;
        }
        i = i + 1;
    }
    false
}

/// The characters of `a` followed by those of `b`.
fn concat_chars(a: &Vec<char>, b: &Vec<char>) -> (r: Vec<char>)
    ensures
        r@ == a@ + b@,
{
    let mut r = slice_chars(a, 0, a.len());
    let mut i: usize = 0;
    while i < b.len()
        invariant
            i <= b.len(),
            r@ == a@ + b@.take(i as int),
        decreases b.len() - i,
    {
        r.push(b[i]);
        assert(b@.take(i + 1) =~= b@.take(i as int).push(b@[i as int]));
        i = i + 1;
    }
    assert(b@.take(i as int) =~= b@);
    r
}

/// Where the port reference `port_ref` is found among the ports drawn for the
/// block `current_pb_name` (`my_ports`) and for its children (`children_ports`).
pub fn resolve_port_pos(
    port_ref: &str,
    current_pb_name: &str,
    my_ports: &Vec<String>,
    children_ports: &Vec<String>,
) -> (r: Option<PortHit>)
    ensures
        match r {
            Some(h) => resolve(port_ref@, current_pb_name@, my_ports@, children_ports@) == Some(hit_view(h)),
            None => resolve(port_ref@, current_pb_name@, my_ports@, children_ports@) is None,
        },
{
    let r = chars_of(port_ref);
    let name = chars_of(current_pb_name);
    let dot = single_dot();
    let prefix = concat_chars(&name, &dot);
    // clb.I -> I
    if prefix.len() <= r.len() && chars_eq(&slice_chars(&r, 0, prefix.len()), &prefix) {
        let stripped = slice_chars(&r, prefix.len(), r.len());
        assert(r@.take(prefix.len() as int) =~= r@.subrange(0, prefix.len() as int));
        assert(stripped@ =~= r@.skip(prefix.len() as int));
        if find_key(my_ports, &stripped) {
            return Some(PortHit::Own(string_from_chars(&stripped)));
        }
    } else {
        proof {
            if prefix.len() <= r.len() {
                assert(r@.take(prefix.len() as int) =~= r@.subrange(0, prefix.len() as int));
            }
        }
    }
    // I
    if find_key(my_ports, &r) {
        return Some(PortHit::Own(string_from_chars(&r)));
    }
    // ble4[0].in
    if find_key(children_ports, &r) {
        return Some(PortHit::Child(string_from_chars(&r)));
    }
    proof {
        lemma_index_from(r@, '.', 0);
    }
    let d = match find_char(&r, '.', 0) {
        Some(d) => d,
        None => return None,
    };
    let instance = slice_chars(&r, 0, d);
    let port = slice_chars(&r, d + 1, r.len());
    proof {
        lemma_index_from(instance@, '[', 0);
    }
    if find_char(&instance, '[', 0).is_none() {
        // ble4.in -> ble4[0].in
        let mid = zero_index_dot();
        let alt = concat_chars(&concat_chars(&instance, &mid), &port);
        if find_key(children_ports, &alt) {
            return Some(PortHit::Child(string_from_chars(&alt)));
        }
        None
    } else if instance.len() >= 3 && instance[instance.len() - 3] == '[' && instance[instance.len() - 2] == '0'
        && instance[instance.len() - 1] == ']' {
        // lut4[0].in -> lut4.in
        proof {
            reveal_strlit("[0]");
            assert(instance@.skip(instance.len() - 3) =~= "[0]"@);
        }
        let base = slice_chars(&instance, 0, instance.len() - 3);
        assert(base@ =~= instance@.take(instance.len() - 3));
        let alt = concat_chars(&concat_chars(&base, &dot), &port);
        if find_key(children_ports, &alt) {
            return Some(PortHit::Child(string_from_chars(&alt)));
        }
        None
    } else {
        proof {
            reveal_strlit("[0]");
            if instance.len() >= 3 {
                assert(instance@.skip(instance.len() - 3)[0] == instance@[instance.len() - 3]);
                assert(instance@.skip(instance.len() - 3)[1] == instance@[instance.len() - 2]);
                assert(instance@.skip(instance.len() - 3)[2] == instance@[instance.len() - 1]);
            }
        }
        None
    }
}

/// The one character `.`.
fn single_dot() -> (r: Vec<char>)
    ensures
        r@ == seq!['.'],
{
    let mut r: Vec<char> = Vec::new();
    r.push('.');
    assert(r@ =~= seq!['.']);
    r
}

/// The characters `[0].`.
fn zero_index_dot() -> (r: Vec<char>)
    ensures
        r@ == "[0]."@,
{
    let mut r: Vec<char> = Vec::new();
    r.push('[');
    r.push('0');
    r.push(']');
    r.push('.');
    proof {
        reveal_strlit("[0].");
    }
    assert(r@ =~= "[0]."@);
    r
}

/// How many members of a bus are looked for at most.
pub const MAX_BUS_ITERATIONS: usize = 1024;

/// `r` with the index `idx` in brackets after it.
pub open spec fn indexed(r: Seq<char>, idx: nat) -> Seq<char> {
    r + seq!['['] + decimal(idx) + seq![']']
}

/// The members `r[idx]`, `r[idx + 1]`, ... of the bus `r` that resolve, up to the
/// first that does not (and no further than the limit of iterations).
pub open spec fn bus_members(r: Seq<char>, pb_name: Seq<char>, mine: Seq<String>, children: Seq<String>, idx: nat) -> Seq<Seq<char>>
    decreases MAX_BUS_ITERATIONS - idx,
{
    if idx >= MAX_BUS_ITERATIONS {
        Seq::empty()
    } else if resolve(indexed(r, idx), pb_name, mine, children) is Some {
        seq![indexed(r, idx)] + bus_members(r, pb_name, mine, children, idx + 1)
    } else {
        Seq::empty()
    }
}

/// The references of `list`, each kept where it resolves and otherwise replaced
/// by the members of the bus it names: `in` gives `in[0]`, `in[1]`, ... as far as
/// they resolve.
pub open spec fn resolve_bus(list: Seq<Seq<char>>, pb_name: Seq<char>, mine: Seq<String>, children: Seq<String>) -> Seq<Seq<char>>
    decreases list.len(),
{
    if list.len() == 0 {
        Seq::empty()
    } else {
        let r = list.last();
        resolve_bus(list.drop_last(), pb_name, mine, children) + if resolve(r, pb_name, mine, children) is Some {
            seq![r]
        } else {
            bus_members(r, pb_name, mine, children, 0)
        }
    }
}

/// Replaces each reference of `port_list` that does not resolve by the members
/// of the bus it names, as far as they resolve.
pub fn resolve_bus_list(
    port_list: &Vec<String>,
    current_pb_name: &str,
    my_ports: &Vec<String>,
    children_ports: &Vec<String>,
) -> (r: Vec<String>)
    ensures
        r@.map_values(|s: String| s@) == resolve_bus(
            port_list@.map_values(|s: String| s@),
            current_pb_name@,
            my_ports@,
            children_ports@,
        ),
{
    let ghost list = port_list@.map_values(|s: String| s@);
    let mut resolved: Vec<String> = Vec::new();
    let mut i: usize = 0;
    while i < port_list.len()
        invariant
            i <= port_list.len(),
            list == port_list@.map_values(|s: String| s@),
            resolved@.map_values(|s: String| s@) == resolve_bus(list.take(i as int), current_pb_name@, my_ports@, children_ports@),
        decreases port_list.len() - i,
    {
        let port_ref = &port_list[i];
        let ghost start = resolved@.map_values(|s: String| s@);
        assert(list.take(i + 1).drop_last() =~= list.take(i as int));
        assert(list.take(i + 1).last() == port_ref@);
        if resolve_port_pos(port_ref.as_str(), current_pb_name, my_ports, children_ports).is_some() {
            resolved.push(port_ref.clone());
            assert(resolved@.map_values(|s: String| s@) =~= start + seq![port_ref@]);
        } else {
            let base = chars_of(port_ref.as_str());
            let mut idx: usize = 0;
            loop
                invariant_except_break
                    idx <= MAX_BUS_ITERATIONS,
                    resolved@.map_values(|s: String| s@) + bus_members(base@, current_pb_name@, my_ports@, children_ports@, idx as nat)
                        == start + bus_members(base@, current_pb_name@, my_ports@, children_ports@, 0),
                invariant
                    base@ == port_ref@,
                ensures
                    resolved@.map_values(|s: String| s@) == start + bus_members(base@, current_pb_name@, my_ports@, children_ports@, 0),
                decreases MAX_BUS_ITERATIONS - idx,
            {
                if idx >= MAX_BUS_ITERATIONS {
                    assert(bus_members(base@, current_pb_name@, my_ports@, children_ports@, idx as nat) =~= Seq::<Seq<char>>::empty());
                    assert(resolved@.map_values(|s: String| s@) =~= resolved@.map_values(|s: String| s@) + Seq::<Seq<char>>::empty());
                    break;
                }
                // `prefix.suffix[idx]` or `name[idx]`: the reference with the index after it.
                let candidate = indexed_chars(&base, idx);
                let cs = string_from_chars(&candidate);
                if resolve_port_pos(cs.as_str(), current_pb_name, my_ports, children_ports).is_some() {
                    let ghost before = resolved@.map_values(|s: String| s@);
                    resolved.push(cs);
                    assert(resolved@.map_values(|s: String| s@) =~= before.push(candidate@));
                    idx = idx + 1;
                } else {
                    assert(bus_members(base@, current_pb_name@, my_ports@, children_ports@, idx as nat) =~= Seq::<Seq<char>>::empty());
                    assert(resolved@.map_values(|s: String| s@) =~= resolved@.map_values(|s: String| s@) + Seq::<Seq<char>>::empty());
                    break;
                }
            }
        }
        i = i + 1;
    }
    assert(list.take(i as int) =~= list);
    resolved
}

/// The characters of `r` with `idx` in brackets after them.
fn indexed_chars(r: &Vec<char>, idx: usize) -> (c: Vec<char>)
    ensures
        c@ == indexed(r@, idx as nat),
{
    let mut c = slice_chars(r, 0, r.len());
    c.push('[');
    let d = decimal_chars(idx as u64);
    let c2 = concat_chars(&c, &d);
    let mut c3 = c2;
    c3.push(']');
    assert(c3@ =~= indexed(r@, idx as nat));
    c3
}

} // verus!
