//! Integer expressions of grid-location attributes, such as `W-1` or `(H-h)/2`:
//! substitution of the grid and tile dimensions, then evaluation over unsigned
//! integers with the usual precedence.
use vstd::prelude::*;
use crate::text::{
    trim, spec_parse_i32, decimal, lemma_trim_len, trim_chars, parse_i32_range, slice_chars, decimal_chars, is_digit,
    lemma_decimal_value, lemma_parse_i32_decimal, lemma_parse_i32_stops, lemma_trim_plain,
};

verus! {

/// What evaluating an expression gives: a value, no value, or an intermediate
/// result too large for `usize`.
pub enum EvalOutcome {
    Value(nat),
    Undefined,
    Overflow,
}

/// What scanning an expression for an operator gives.
pub enum ScanOutcome {
    Found(EvalOutcome),
    NotFound,
}

/// The operators of one precedence level.
pub open spec fn is_level_op(c: char, mul: bool) -> bool {
    if mul {
        c == '*' || c == '/'
    } else {
        c == '+' || c == '-'
    }
}

/// Applies the operator `op` to two values.
pub open spec fn combine(op: char, l: nat, r: nat) -> EvalOutcome {
    if op == '+' {
        if l + r > usize::MAX { EvalOutcome::Overflow } else { EvalOutcome::Value(l + r) }
    } else if op == '-' {
        if l >= r { EvalOutcome::Value((l - r) as nat) } else { EvalOutcome::Undefined }
    } else if op == '*' {
        if l * r > usize::MAX { EvalOutcome::Overflow } else { EvalOutcome::Value(l * r) }
    } else {
        if r > 0 { EvalOutcome::Value(l / r) } else { EvalOutcome::Undefined }
    }
}

/// The value of an expression: a non-negative `i32` literal; else the rightmost
/// top-level `+`/`-` (not in first position) whose two sides both have values;
/// else the same for `*`/`/`; else an expression in parentheses.
pub open spec fn eval_outcome(e: Seq<char>) -> EvalOutcome
    decreases e.len(), 1int, 0int,
{
    let t = trim(e);
    proof {
        lemma_trim_len(e);
    }
    if spec_parse_i32(t) is Some {
        let v = spec_parse_i32(t)->0;
        if v >= 0 {
            EvalOutcome::Value(v as nat)
        } else {
            EvalOutcome::Undefined
        }
    } else {
        match scan_ops(t, t.len() as int, 0, false) {
            ScanOutcome::Found(o) => o,
            ScanOutcome::NotFound => match scan_ops(t, t.len() as int, 0, true) {
                ScanOutcome::Found(o) => o,
                ScanOutcome::NotFound => if t.len() >= 2 && t[0] == '(' && t[t.len() - 1] == ')' {
                    eval_outcome(t.subrange(1, t.len() - 1))
                } else {
                    EvalOutcome::Undefined
                },
            },
        }
    }
}

/// Scans `t[..i]` right to left for an operator of one level at parenthesis depth
/// 0 (counting `)` as opening when read from the right).
pub open spec fn scan_ops(t: Seq<char>, i: int, depth: int, mul: bool) -> ScanOutcome
    decreases t.len(), 0int, i,
{
    if i <= 0 || i > t.len() {
        ScanOutcome::NotFound
    } else {
        let idx = i - 1;
        let ch = t[idx];
        if ch == ')' {
            scan_ops(t, idx, depth + 1, mul)
        } else if ch == '(' {
            scan_ops(t, idx, depth - 1, mul)
        } else if is_level_op(ch, mul) && depth == 0 && idx > 0 {
            let l = eval_outcome(t.take(idx));
            let r = eval_outcome(t.skip(idx + 1));
            if l is Overflow || r is Overflow {
                ScanOutcome::Found(EvalOutcome::Overflow)
            } else if l is Value && r is Value {
                ScanOutcome::Found(combine(ch, l->0, r->0))
            } else {
                scan_ops(t, idx, depth, mul)
            }
        } else {
            scan_ops(t, idx, depth, mul)
        }
    }
}

/// The value an outcome gives, if any.
pub open spec fn outcome_value(o: EvalOutcome) -> Option<usize> {
    match o {
        EvalOutcome::Value(v) => Some(v as usize),
        _ => None,
    }
}

/// Every value an expression evaluates to fits in `usize`.
pub proof fn lemma_eval_bounded(e: Seq<char>)
    ensures
        eval_outcome(e) matches EvalOutcome::Value(v) ==> v <= usize::MAX,
    decreases e.len(), 1int, 0int,
{
    let t = trim(e);
    lemma_trim_len(e);
    if spec_parse_i32(t) is Some {
    } else {
        lemma_scan_bounded(t, t.len() as int, 0, false);
        lemma_scan_bounded(t, t.len() as int, 0, true);
        if t.len() >= 2 && t[0] == '(' && t[t.len() - 1] == ')' {
            lemma_eval_bounded(t.subrange(1, t.len() - 1));
        }
    }
}

proof fn lemma_scan_bounded(t: Seq<char>, i: int, depth: int, mul: bool)
    ensures
        scan_ops(t, i, depth, mul) matches ScanOutcome::Found(EvalOutcome::Value(v)) ==> v <= usize::MAX,
    decreases t.len(), 0int, i,
{
    if i <= 0 || i > t.len() {
    } else {
        let idx = i - 1;
        let ch = t[idx];
        if ch == ')' {
            lemma_scan_bounded(t, idx, depth + 1, mul);
        } else if ch == '(' {
            lemma_scan_bounded(t, idx, depth - 1, mul);
        } else if is_level_op(ch, mul) && depth == 0 && idx > 0 {
            lemma_eval_bounded(t.take(idx));
            lemma_eval_bounded(t.skip(idx + 1));
            let l = eval_outcome(t.take(idx));
            let r = eval_outcome(t.skip(idx + 1));
            if l is Value && r is Value {
                let a = l->0;
                let b = r->0;
                if ch == '/' && b > 0 {
                    assert(a / b <= a) by (nonlinear_arith)
                        requires
                            b > 0,
                    ;
                }
            }
            lemma_scan_bounded(t, idx, depth, mul);
        } else {
            lemma_scan_bounded(t, idx, depth, mul);
        }
    }
}

/// The decimal representation of a number that fits in `i32` evaluates to it.
proof fn lemma_eval_decimal(n: nat)
    requires
        n <= i32::MAX,
    ensures
        eval_outcome(decimal(n)) == EvalOutcome::Value(n),
{
    lemma_decimal_value(n);
    let s = decimal(n);
    assert(is_digit(s[0]) && is_digit(s[s.len() - 1]));
    lemma_trim_plain(s);
    lemma_parse_i32_decimal(n);
}

/// Scanning for an operator passes over digits.
proof fn lemma_scan_over_digits(t: Seq<char>, i: int, lo: int, mul: bool)
    requires
        0 <= lo <= i <= t.len(),
        forall|j: int| lo <= j < i ==> is_digit(#[trigger] t[j]),
    ensures
        scan_ops(t, i, 0, mul) == scan_ops(t, lo, 0, mul),
    decreases i - lo,
{
    if i > lo {
        assert(is_digit(t[i - 1]));
        lemma_scan_over_digits(t, i - 1, lo, mul);
    }
}

/// A text without `+` or `-` has no operator of the lower level.
proof fn lemma_scan_no_sum(t: Seq<char>, i: int, depth: int)
    requires
        forall|j: int| 0 <= j < t.len() ==> #[trigger] t[j] != '+' && t[j] != '-',
    ensures
        scan_ops(t, i, depth, false) is NotFound,
    decreases i,
{
    if 0 < i <= t.len() {
        let ch = t[i - 1];
        if ch == ')' {
            lemma_scan_no_sum(t, i - 1, depth + 1);
        } else if ch == '(' {
            lemma_scan_no_sum(t, i - 1, depth - 1);
        } else {
            lemma_scan_no_sum(t, i - 1, depth);
        }
    }
}

/// An expression `p op n`, where `p` starts with a digit and has a value, `op`
/// is an operator of one level and `n` a number: its value is `p`'s value and `n`
/// combined by `op` (for `*` and `/`, where `p` has no `+` or `-`).
proof fn lemma_eval_binop(p: Seq<char>, op: char, n: nat, mul: bool)
    requires
        p.len() > 0,
        is_digit(p[0]),
        n <= i32::MAX,
        is_level_op(op, mul),
        eval_outcome(p) is Value,
        mul ==> forall|j: int| 0 <= j < p.len() ==> #[trigger] p[j] != '+' && p[j] != '-',
    ensures
        eval_outcome(p + seq![op] + decimal(n)) == combine(op, eval_outcome(p)->0, n),
{
    let d = decimal(n);
    lemma_decimal_value(n);
    lemma_eval_decimal(n);
    let t = p + seq![op] + d;
    let idx = p.len() as int;
    assert(t[idx] == op);
    assert(t[0] == p[0]);
    assert(t[t.len() - 1] == d[d.len() - 1]);
    lemma_trim_plain(t);
    lemma_parse_i32_stops(t, idx);
    assert forall|j: int| idx + 1 <= j < t.len() implies is_digit(#[trigger] t[j]) by {
        assert(t[j] == d[j - idx - 1]);
    }
    lemma_scan_over_digits(t, t.len() as int, idx + 1, mul);
    assert(t.take(idx) =~= p);
    assert(t.skip(idx + 1) =~= d);
    if mul {
        assert forall|j: int| 0 <= j < t.len() implies #[trigger] t[j] != '+' && t[j] != '-' by {
            if j < idx {
                assert(t[j] == p[j]);
            } else if j > idx {
                assert(t[j] == d[j - idx - 1]);
                assert(is_digit(d[j - idx - 1]));
            }
        }
        lemma_scan_no_sum(t, t.len() as int, 0);
    }
}

/// Subtractions associate to the left: `a-b-c` is `(a-b)-c`.
pub proof fn law_subtraction_associates_left(a: nat, b: nat, c: nat)
    requires
        a <= i32::MAX,
        b <= i32::MAX,
        c <= i32::MAX,
        b + c <= a,
    ensures
        eval_outcome(decimal(a) + seq!['-'] + decimal(b) + seq!['-'] + decimal(c)) == EvalOutcome::Value((a - b - c) as nat),
{
    lemma_decimal_value(a);
    lemma_eval_decimal(a);
    lemma_eval_binop(decimal(a), '-', b, false);
    let p = decimal(a) + seq!['-'] + decimal(b);
    assert(p[0] == decimal(a)[0]);
    lemma_eval_binop(p, '-', c, false);
}

/// Division and multiplication associate to the left: `a/b*c` is `(a/b)*c`.
pub proof fn law_division_then_product_associates_left(a: nat, b: nat, c: nat)
    requires
        a <= i32::MAX,
        b <= i32::MAX,
        c <= i32::MAX,
        b > 0,
        (a / b) * c <= usize::MAX,
    ensures
        eval_outcome(decimal(a) + seq!['/'] + decimal(b) + seq!['*'] + decimal(c)) == EvalOutcome::Value((a / b) * c),
{
    lemma_decimal_value(a);
    lemma_decimal_value(b);
    lemma_eval_decimal(a);
    let da = decimal(a);
    assert forall|j: int| 0 <= j < da.len() implies #[trigger] da[j] != '+' && da[j] != '-' by {
        assert(is_digit(da[j]));
    }
    lemma_eval_binop(da, '/', b, true);
    let p = da + seq!['/'] + decimal(b);
    assert(p[0] == da[0]);
    assert forall|j: int| 0 <= j < p.len() implies #[trigger] p[j] != '+' && p[j] != '-' by {
        if j < da.len() {
            assert(p[j] == da[j]);
        } else if j > da.len() {
            assert(p[j] == decimal(b)[j - da.len() - 1]);
            assert(is_digit(decimal(b)[j - da.len() - 1]));
        }
    }
    assert(a / b <= a) by (nonlinear_arith)
        requires
            b > 0,
    ;
    lemma_eval_binop(p, '*', c, true);
}

/// Evaluates an expression.
pub fn eval_expr_recursive(expr: &Vec<char>) -> (r: Option<usize>)
    requires
        !(eval_outcome(expr@) is Overflow),
    ensures
        r == outcome_value(eval_outcome(expr@)),
    decreases expr@.len(), 1int, 0int,
{
    let t = trim_chars(expr);
    proof {
        lemma_trim_len(expr@);
    }
    if let Some(val) = parse_i32_range(&t, 0, t.len()) {
        assert(t@.subrange(0, t.len() as int) =~= t@);
        return if val >= 0 {
            Some(val as usize)
        } else {
            None
        };
    }
    assert(t@.subrange(0, t.len() as int) =~= t@);
    match scan_level(&t, false) {
        Some(r) => {
            return r;
        }
        None => {}
    }
    match scan_level(&t, true) {
        Some(r) => {
            return r;
        }
        None => {}
    }
    if t.len() >= 2 && t[0] == '(' && t[t.len() - 1] == ')' {
        let inner = slice_chars(&t, 1, t.len() - 1);
        return eval_expr_recursive(&inner);
    }
    None
}

/// Scans `t` right to left for an operator of one level whose two sides both have
/// values; `Some` of the result when one decides, `None` when none does.
fn scan_level(t: &Vec<char>, mul: bool) -> (r: Option<Option<usize>>)
    requires
        !(scan_ops(t@, t@.len() as int, 0, mul) matches ScanOutcome::Found(EvalOutcome::Overflow)),
    ensures
        match scan_ops(t@, t@.len() as int, 0, mul) {
            ScanOutcome::Found(o) => r == Some(outcome_value(o)),
            ScanOutcome::NotFound => r is None,
        },
    decreases t@.len(), 0int, 0int,
{
    let mut i: usize = t.len();
    let mut depth: i128 = 0;
    while i > 0
        invariant
            i <= t.len(),
            -(t.len() - i) <= depth <= t.len() - i,
            scan_ops(t@, t@.len() as int, 0, mul) == scan_ops(t@, i as int, depth as int, mul),
            !(scan_ops(t@, t@.len() as int, 0, mul) matches ScanOutcome::Found(EvalOutcome::Overflow)),
        decreases i,
    {
        let idx = i - 1;
        let ch = t[idx];
        if ch == ')' {
            depth = depth + 1;
        } else if ch == '(' {
            depth = depth - 1;
        } else if (if mul { ch == '*' || ch == '/' } else { ch == '+' || ch == '-' }) && depth == 0 && idx > 0 {
            let left = slice_chars(t, 0, idx);
            let right = slice_chars(t, idx + 1, t.len());
            assert(left@ =~= t@.take(idx as int));
            assert(right@ =~= t@.skip(idx + 1));
            let l = eval_expr_recursive(&left);
            let r = eval_expr_recursive(&right);
            proof {
                lemma_eval_bounded(left@);
                lemma_eval_bounded(right@);
            }
            match (l, r) {
                (Some(l), Some(r)) => {
                    if ch == '+' {
                        return Some(Some(l + r));
                    } else if ch == '-' {
                        return Some(if l >= r { Some(l - r) } else { None });
                    } else if ch == '*' {
                        return Some(Some(l * r));
                    } else {
                        return Some(if r > 0 { Some(l / r) } else { None });
                    }
                }
                _ => {}
            }
        }
        i = idx;
    }
    None
}

} // verus!

verus! {

/// What one character of an expression becomes: `w`/`h` the tile's width/height,
/// `W`/`H` the grid's width/height (in decimal), a space nothing.
pub open spec fn subst_char(c: char, tw: usize, th: usize, gw: usize, gh: usize) -> Seq<char> {
    if c == 'w' {
        decimal(tw as nat)
    } else if c == 'h' {
        decimal(th as nat)
    } else if c == 'W' {
        decimal(gw as nat)
    } else if c == 'H' {
        decimal(gh as nat)
    } else if c == ' ' {
        Seq::empty()
    } else {
        seq![c]
    }
}

/// `s` with every character replaced as `subst_char` says.
pub open spec fn substitute(s: Seq<char>, tw: usize, th: usize, gw: usize, gh: usize) -> Seq<char>
    decreases s.len(),
{
    if s.len() == 0 {
        Seq::empty()
    } else {
        substitute(s.drop_last(), tw, th, gw, gh) + subst_char(s.last(), tw, th, gw, gh)
    }
}

/// The value of a grid-location expression for a tile of `tw` x `th` on a grid of
/// `gw` x `gh`.
pub open spec fn spec_eval_grid_expr(expr: Seq<char>, tw: usize, th: usize, gw: usize, gh: usize) -> EvalOutcome {
    eval_outcome(substitute(trim(expr), tw, th, gw, gh))
}

/// Evaluates a grid-location expression for a tile of `tile_width` x `tile_height`
/// on a grid of `grid_width` x `grid_height`.
pub fn eval_grid_expr(expr: &str, tile_width: usize, tile_height: usize, grid_width: usize, grid_height: usize) -> (r: Option<usize>)
    requires
        !(spec_eval_grid_expr(expr@, tile_width, tile_height, grid_width, grid_height) is Overflow),
    ensures
        r == outcome_value(spec_eval_grid_expr(expr@, tile_width, tile_height, grid_width, grid_height)),
{
    let c = crate::text::chars_of(expr);
    let t = trim_chars(&c);
    let tw = decimal_chars(tile_width as u64);
    let th = decimal_chars(tile_height as u64);
    let gw = decimal_chars(grid_width as u64);
    let gh = decimal_chars(grid_height as u64);
    let mut out: Vec<char> = Vec::new();
    let mut i: usize = 0;
    while i < t.len()
        invariant
            i <= t.len(),
            tw@ == decimal(tile_width as nat),
            th@ == decimal(tile_height as nat),
            gw@ == decimal(grid_width as nat),
            gh@ == decimal(grid_height as nat),
            out@ == substitute(t@.take(i as int), tile_width, tile_height, grid_width, grid_height),
        decreases t.len() - i,
    {
        assert(t@.take(i + 1).drop_last() =~= t@.take(i as int));
        let ch = t[i];
        let ghost before = out@;
        if ch == 'w' {
            append_chars(&mut out, &tw);
        } else if ch == 'h' {
            append_chars(&mut out, &th);
        } else if ch == 'W' {
            append_chars(&mut out, &gw);
        } else if ch == 'H' {
            append_chars(&mut out, &gh);
        } else if ch != ' ' {
            out.push(ch);
        }
        assert(out@ =~= before + subst_char(ch, tile_width, tile_height, grid_width, grid_height));
        i = i + 1;
    }
    assert(t@.take(t.len() as int) =~= t@);
    eval_expr_recursive(&out)
}

/// Appends the characters of `b` to `a`.
fn append_chars(a: &mut Vec<char>, b: &Vec<char>)
    ensures
        final(a)@ == old(a)@ + b@,
{
    let mut k: usize = 0;
    while k < b.len()
        invariant
            k <= b.len(),
            a@ == old(a)@ + b@.take(k as int),
        decreases b.len() - k,
    {
        a.push(b[k]);
        assert(b@.take(k + 1) =~= b@.take(k as int).push(b@[k as int]));
        k = k + 1;
    }
    assert(b@.take(b.len() as int) =~= b@);
}

} // verus!
