//! A small arithmetic evaluator for the search box: `+ - * / ^`, unary minus
//! and parentheses over decimal numbers. Values are exact fractions whose
//! numerator and denominator stay within `BOUND`; an expression that leaves
//! that range, divides by zero, or raises to a fractional power has no value.
use vstd::prelude::*;

use crate::text::{chars_of, is_white_space, is_whitespace};

verus! {

/// The largest magnitude of a numerator or denominator.
pub const BOUND: i128 = 1_000_000_000_000_000_000_000_000;

/// A fraction `num / den` as a pair.
pub type Frac = (int, int);

pub open spec fn bounded(x: int) -> bool {
    -(BOUND as int) <= x <= BOUND as int
}

pub open spec fn frac_ok(q: Frac) -> bool {
    bounded(q.0) && bounded(q.1) && q.1 > 0
}

pub open spec fn mk(n: int, d: int) -> Option<Frac> {
    if bounded(n) && bounded(d) && d > 0 {
        Some((n, d))
    } else {
        None
    }
}

pub open spec fn q_add(a: Frac, b: Frac) -> Option<Frac> {
    if bounded(a.0 * b.1) && bounded(b.0 * a.1) {
        mk(a.0 * b.1 + b.0 * a.1, a.1 * b.1)
    } else {
        None
    }
}

pub open spec fn q_sub(a: Frac, b: Frac) -> Option<Frac> {
    if bounded(a.0 * b.1) && bounded(b.0 * a.1) {
        mk(a.0 * b.1 - b.0 * a.1, a.1 * b.1)
    } else {
        None
    }
}

pub open spec fn q_mul(a: Frac, b: Frac) -> Option<Frac> {
    mk(a.0 * b.0, a.1 * b.1)
}

pub open spec fn q_div(a: Frac, b: Frac) -> Option<Frac> {
    if b.0 == 0 {
        None
    } else if b.0 > 0 {
        mk(a.0 * b.1, a.1 * b.0)
    } else {
        mk(-(a.0 * b.1), -(a.1 * b.0))
    }
}

/// `b` to the `k`-th power by repeated multiplication.
pub open spec fn pow_nat(b: Frac, k: nat) -> Option<Frac>
    decreases k,
{
    if k == 0 {
        Some((1, 1))
    } else {
        match pow_nat(b, (k - 1) as nat) {
            Some(p) => q_mul(p, b),
            None => None,
        }
    }
}

pub open spec fn abs(x: int) -> int {
    if x < 0 {
        -x
    } else {
        x
    }
}

/// `b` to the power `e`, which must be a whole number.
pub open spec fn q_pow(b: Frac, e: Frac) -> Option<Frac> {
    let m = abs(e.0);
    if m % e.1 != 0 {
        None
    } else if e.0 >= 0 {
        pow_nat(b, (m / e.1) as nat)
    } else {
        match pow_nat(b, (m / e.1) as nat) {
            Some(p) => q_div((1, 1), p),
            None => None,
        }
    }
}

pub open spec fn combine(op: char, a: Frac, b: Frac) -> Option<Frac> {
    if op == '+' {
        q_add(a, b)
    } else if op == '-' {
        q_sub(a, b)
    } else if op == '*' {
        q_mul(a, b)
    } else {
        q_div(a, b)
    }
}

pub open spec fn is_digit(c: char) -> bool {
    48 <= (c as u32) <= 57
}

pub open spec fn digit_value(c: char) -> int {
    (c as u32) - 48
}

pub open spec fn is_number_char(c: char) -> bool {
    is_digit(c) || c == '.'
}

/// Where the run of digits and dots that starts at `pos` ends.
pub open spec fn run_end(s: Seq<char>, pos: int) -> int
    decreases s.len() - pos,
{
    if 0 <= pos < s.len() && is_number_char(s[pos]) {
        run_end(s, pos + 1)
    } else {
        pos
    }
}

/// The digits of `t` read as one whole number, dots ignored.
pub open spec fn run_value(t: Seq<char>) -> int
    decreases t.len(),
{
    if t.len() == 0 {
        0
    } else if t.last() == '.' {
        run_value(t.drop_last())
    } else {
        run_value(t.drop_last()) * 10 + digit_value(t.last())
    }
}

pub open spec fn dot_count(t: Seq<char>) -> nat
    decreases t.len(),
{
    if t.len() == 0 {
        0
    } else {
        dot_count(t.drop_last()) + if t.last() == '.' {
            1nat
        } else {
            0nat
        }
    }
}

/// How many digits follow the dot.
pub open spec fn frac_len(t: Seq<char>) -> nat
    decreases t.len(),
{
    if t.len() == 0 || t.last() == '.' {
        0
    } else if dot_count(t.drop_last()) > 0 {
        frac_len(t.drop_last()) + 1
    } else {
        0
    }
}

pub open spec fn pow10(k: nat) -> int
    decreases k,
{
    if k == 0 {
        1
    } else {
        10 * pow10((k - 1) as nat)
    }
}

/// A decimal number at `pos`: a run of digits with at most one dot.
pub open spec fn p_number(s: Seq<char>, pos: int) -> Option<(Frac, int)> {
    let end = run_end(s, pos);
    let t = s.subrange(pos, end);
    if end == pos || dot_count(t) > 1 || dot_count(t) == t.len() {
        None
    } else {
        match mk(run_value(t), pow10(frac_len(t))) {
            Some(q) => Some((q, end)),
            None => None,
        }
    }
}

/// expr := term (('+' | '-') term)*
pub open spec fn p_expr(s: Seq<char>, pos: int) -> Option<(Frac, int)>
    decreases s.len() - pos, 4nat,
{
    if pos < 0 || pos > s.len() {
        None
    } else {
        match p_term(s, pos) {
            Some((v, p)) => if pos < p <= s.len() {
                p_expr_tail(s, p, v)
            } else {
                None
            },
            None => None,
        }
    }
}

pub open spec fn p_expr_tail(s: Seq<char>, pos: int, acc: Frac) -> Option<(Frac, int)>
    decreases s.len() - pos, 5nat,
{
    if 0 <= pos < s.len() && (s[pos] == '+' || s[pos] == '-') {
        match p_term(s, pos + 1) {
            Some((v, p)) => match combine(s[pos], acc, v) {
                Some(a) => if pos + 1 < p <= s.len() {
                    p_expr_tail(s, p, a)
                } else {
                    None
                },
                None => None,
            },
            None => None,
        }
    } else if 0 <= pos <= s.len() {
        Some((acc, pos))
    } else {
        None
    }
}

/// term := power (('*' | '/') power)*
pub open spec fn p_term(s: Seq<char>, pos: int) -> Option<(Frac, int)>
    decreases s.len() - pos, 3nat,
{
    if pos < 0 || pos > s.len() {
        None
    } else {
        match p_power(s, pos) {
            Some((v, p)) => if pos < p <= s.len() {
                p_term_tail(s, p, v)
            } else {
                None
            },
            None => None,
        }
    }
}

pub open spec fn p_term_tail(s: Seq<char>, pos: int, acc: Frac) -> Option<(Frac, int)>
    decreases s.len() - pos, 5nat,
{
    if 0 <= pos < s.len() && (s[pos] == '*' || s[pos] == '/') {
        match p_power(s, pos + 1) {
            Some((v, p)) => match combine(s[pos], acc, v) {
                Some(a) => if pos + 1 < p <= s.len() {
                    p_term_tail(s, p, a)
                } else {
                    None
                },
                None => None,
            },
            None => None,
        }
    } else if 0 <= pos <= s.len() {
        Some((acc, pos))
    } else {
        None
    }
}

/// power := unary ('^' power)?
pub open spec fn p_power(s: Seq<char>, pos: int) -> Option<(Frac, int)>
    decreases s.len() - pos, 2nat,
{
    if pos < 0 || pos > s.len() {
        None
    } else {
        match p_unary(s, pos) {
            Some((b, p)) => if !(pos < p <= s.len()) {
                None
            } else if p < s.len() && s[p] == '^' {
                match p_power(s, p + 1) {
                    Some((e, after)) => match q_pow(b, e) {
                        Some(v) => Some((v, after)),
                        None => None,
                    },
                    None => None,
                }
            } else {
                Some((b, p))
            },
            None => None,
        }
    }
}

/// unary := '-' unary | atom
pub open spec fn p_unary(s: Seq<char>, pos: int) -> Option<(Frac, int)>
    decreases s.len() - pos, 1nat,
{
    if pos < 0 || pos > s.len() {
        None
    } else if pos < s.len() && s[pos] == '-' {
        match p_unary(s, pos + 1) {
            Some((v, p)) => Some(((-v.0, v.1), p)),
            None => None,
        }
    } else {
        p_atom(s, pos)
    }
}

/// atom := '(' expr ')' | number
pub open spec fn p_atom(s: Seq<char>, pos: int) -> Option<(Frac, int)>
    decreases s.len() - pos, 0nat,
{
    if pos < 0 || pos > s.len() {
        None
    } else if pos < s.len() && s[pos] == '(' {
        match p_expr(s, pos + 1) {
            Some((v, p)) => if 0 <= p < s.len() && s[p] == ')' {
                Some((v, p + 1))
            } else {
                None
            },
            None => None,
        }
    } else {
        p_number(s, pos)
    }
}

/// An exact fraction `(numerator, denominator)`.
pub type Ratio = (i128, i128);

pub open spec fn qv(q: Ratio) -> Frac {
    (q.0 as int, q.1 as int)
}

pub open spec fn ov(r: Option<Ratio>) -> Option<Frac> {
    match r {
        Some(q) => Some(qv(q)),
        None => None,
    }
}

/// `x * y` when it is within `BOUND`.
fn mul_bounded(x: i128, y: i128) -> (r: Option<i128>)
    ensures
        bounded(x * y) ==> r == Some((x * y) as i128),
        !bounded(x * y) ==> r is None,
{
    match x.checked_mul(y) {
        Some(v) => if -BOUND <= v && v <= BOUND {
            Some(v)
        } else {
            None
        },
        None => None,
    }
}

fn make(n: i128, d: i128) -> (r: Option<Ratio>)
    ensures
        ov(r) == mk(n as int, d as int),
{
    if -BOUND <= n && n <= BOUND && 0 < d && d <= BOUND {
        Some((n, d))
    } else {
        None
    }
}

fn ratio_add(a: Ratio, b: Ratio, subtract: bool) -> (r: Option<Ratio>)
    requires
        frac_ok(qv(a)),
        frac_ok(qv(b)),
    ensures
        !subtract ==> ov(r) == q_add(qv(a), qv(b)),
        subtract ==> ov(r) == q_sub(qv(a), qv(b)),
{
    let x = match mul_bounded(a.0, b.1) {
        Some(v) => v,
        None => return None,
    };
    let y = match mul_bounded(b.0, a.1) {
        Some(v) => v,
        None => return None,
    };
    let n = if subtract {
        x - y
    } else {
        x + y
    };
    match a.1.checked_mul(b.1) {
        Some(d) => make(n, d),
        None => {
            assert(!bounded(a.1 * b.1));
            None
        },
    }
}

fn ratio_mul(a: Ratio, b: Ratio) -> (r: Option<Ratio>)
    requires
        frac_ok(qv(a)),
        frac_ok(qv(b)),
    ensures
        ov(r) == q_mul(qv(a), qv(b)),
{
    match (mul_bounded(a.0, b.0), mul_bounded(a.1, b.1)) {
        (Some(n), Some(d)) => make(n, d),
        _ => None,
    }
}

fn ratio_div(a: Ratio, b: Ratio) -> (r: Option<Ratio>)
    requires
        frac_ok(qv(a)),
        frac_ok(qv(b)),
    ensures
        ov(r) == q_div(qv(a), qv(b)),
{
    if b.0 == 0 {
        return None;
    }
    match (mul_bounded(a.0, b.1), mul_bounded(a.1, b.0)) {
        (Some(n), Some(d)) => if b.0 > 0 {
            make(n, d)
        } else {
            make(-n, -d)
        },
        _ => None,
    }
}

fn apply(op: char, a: Ratio, b: Ratio) -> (r: Option<Ratio>)
    requires
        frac_ok(qv(a)),
        frac_ok(qv(b)),
    ensures
        ov(r) == combine(op, qv(a), qv(b)),
{
    if op == '+' {
        ratio_add(a, b, false)
    } else if op == '-' {
        ratio_add(a, b, true)
    } else if op == '*' {
        ratio_mul(a, b)
    } else {
        ratio_div(a, b)
    }
}

proof fn lemma_pow_none(b: Frac, i: nat, j: nat)
    requires
        pow_nat(b, i) is None,
        i <= j,
    ensures
        pow_nat(b, j) is None,
    decreases j - i,
{
    if i < j {
        lemma_pow_none(b, i, (j - 1) as nat);
    }
}

proof fn lemma_pow_unit(b: Frac, k: nat)
    requires
        b == (1int, 1int) || b == (0int, 1int) || b == (-1int, 1int),
    ensures
        b == (1int, 1int) ==> pow_nat(b, k) == Some((1int, 1int)),
        b == (0int, 1int) ==> pow_nat(b, k) == Some(if k == 0 { (1int, 1int) } else { (0int, 1int) }),
        b == (-1int, 1int) ==> pow_nat(b, k) == Some(if k % 2 == 0 { (1int, 1int) } else { (-1int, 1int) }),
    decreases k,
{
    if k > 0 {
        lemma_pow_unit(b, (k - 1) as nat);
        let p = pow_nat(b, (k - 1) as nat)->0;
        assert(pow_nat(b, k) == q_mul(p, b));
        if b == (0int, 1int) {
            assert(p.0 * 0 == 0 && p.1 * 1 == p.1);
        }
        if b == (-1int, 1int) {
            assert(p.0 * -1 == -p.0 && p.1 * 1 == p.1);
            assert((k - 1) % 2 == 0 <==> k % 2 != 0);
        }
    }
}

/// `b` to the `k`-th power.
fn power_nat(b: Ratio, k: i128) -> (r: Option<Ratio>)
    requires
        frac_ok(qv(b)),
        k >= 0,
    ensures
        ov(r) == pow_nat(qv(b), k as nat),
        r matches Some(q) ==> frac_ok(qv(q)),
{
    if b.1 == 1 && (b.0 == 0 || b.0 == 1 || b.0 == -1) {
        proof {
            lemma_pow_unit(qv(b), k as nat);
        }
        if b.0 == 1 || k == 0 {
            return Some((1, 1));
        } else if b.0 == 0 {
            return Some((0, 1));
        } else if k % 2 == 0 {
            return Some((1, 1));
        } else {
            return Some((-1, 1));
        }
    }
    let mut acc: Ratio = (1, 1);
    let mut i: i128 = 0;
    while i < k
        invariant
            0 <= i <= k,
            frac_ok(qv(b)),
            frac_ok(qv(acc)),
            pow_nat(qv(b), i as nat) == Some(qv(acc)),
        decreases k - i,
    {
        match ratio_mul(acc, b) {
            Some(x) => {
                acc = x;
            },
            None => {
                proof {
                    lemma_pow_none(qv(b), (i + 1) as nat, k as nat);
                }
                return None;
            },
        }
        i = i + 1;
    }
    Some(acc)
}

/// `b` to the whole power `e`.
fn power(b: Ratio, e: Ratio) -> (r: Option<Ratio>)
    requires
        frac_ok(qv(b)),
        frac_ok(qv(e)),
    ensures
        ov(r) == q_pow(qv(b), qv(e)),
        r matches Some(q) ==> frac_ok(qv(q)),
{
    let m: i128 = if e.0 < 0 {
        -e.0
    } else {
        e.0
    };
    if m % e.1 != 0 {
        return None;
    }
    let k = m / e.1;
    let p = match power_nat(b, k) {
        Some(p) => p,
        None => return None,
    };
    if e.0 >= 0 {
        Some(p)
    } else {
        ratio_div((1, 1), p)
    }
}

pub open spec fn rv(r: Option<(Ratio, usize)>) -> Option<(Frac, int)> {
    match r {
        Some((q, p)) => Some((qv(q), p as int)),
        None => None,
    }
}

proof fn lemma_pow10_mono(i: nat, j: nat)
    requires
        i <= j,
    ensures
        1 <= pow10(i) <= pow10(j),
    decreases j,
{
    if j > 0 {
        if i < j {
            lemma_pow10_mono(i, (j - 1) as nat);
        } else {
            lemma_pow10_mono((i - 1) as nat, (j - 1) as nat);
        }
    }
}

proof fn lemma_run_value_nonneg(t: Seq<char>)
    requires
        forall|k: int| 0 <= k < t.len() ==> is_number_char(#[trigger] t[k]),
    ensures
        run_value(t) >= 0,
    decreases t.len(),
{
    if t.len() > 0 {
        lemma_run_value_nonneg(t.drop_last());
    }
}

proof fn lemma_run_value_prefix(t: Seq<char>, i: int)
    requires
        0 <= i <= t.len(),
        forall|k: int| 0 <= k < t.len() ==> is_number_char(#[trigger] t[k]),
    ensures
        run_value(t.take(i)) <= run_value(t),
    decreases t.len(),
{
    if i < t.len() {
        let u = t.drop_last();
        assert(u.take(i) =~= t.take(i));
        lemma_run_value_prefix(u, i);
        lemma_run_value_nonneg(u);
    } else {
        assert(t.take(i) =~= t);
    }
}

fn is_digit_char(c: char) -> (r: bool)
    ensures
        r == is_digit(c),
{
    let u = c as u32;
    48 <= u && u <= 57
}

/// The decimal number at `pos`.
fn parse_number(s: &Vec<char>, pos: usize) -> (r: Option<(Ratio, usize)>)
    requires
        pos <= s.len(),
    ensures
        rv(r) == p_number(s@, pos as int),
        r matches Some((q, p)) ==> frac_ok(qv(q)) && pos < p <= s.len(),
{
    let mut end = pos;
    while end < s.len() && (is_digit_char(s[end]) || s[end] == '.')
        invariant
            pos <= end <= s.len(),
            run_end(s@, pos as int) == run_end(s@, end as int),
            forall|k: int| pos <= k < end ==> is_number_char(#[trigger] s@[k]),
        decreases s.len() - end,
    {
        end = end + 1;
    }
    assert(run_end(s@, end as int) == end as int);
    if end == pos {
        return None;
    }
    let ghost t = s@.subrange(pos as int, end as int);
    let mut dots: usize = 0;
    let mut frac: usize = 0;
    let mut i = pos;
    while i < end
        invariant
            pos <= i <= end <= s.len(),
            dots <= i - pos,
            frac <= i - pos,
            dots == dot_count(s@.subrange(pos as int, i as int)),
            frac == frac_len(s@.subrange(pos as int, i as int)),
        decreases end - i,
    {
        assert(s@.subrange(pos as int, i + 1).drop_last() =~= s@.subrange(pos as int, i as int));
        if s[i] == '.' {
            dots = dots + 1;
            frac = 0;
        } else if dots > 0 {
            frac = frac + 1;
        }
        i = i + 1;
    }
    assert(s@.subrange(pos as int, end as int) =~= t);
    if dots > 1 || dots == end - pos {
        return None;
    }
    let mut val: i128 = 0;
    i = pos;
    while i < end
        invariant
            pos <= i <= end <= s.len(),
            t == s@.subrange(pos as int, end as int),
            forall|k: int| pos <= k < end ==> is_number_char(#[trigger] s@[k]),
            run_end(s@, pos as int) == end,
            pos < end,
            dot_count(t) <= 1,
            dot_count(t) != t.len(),
            frac == frac_len(t),
            0 <= val <= BOUND,
            val == run_value(s@.subrange(pos as int, i as int)),
        decreases end - i,
    {
        let ghost u = s@.subrange(pos as int, i + 1);
        assert(u.drop_last() =~= s@.subrange(pos as int, i as int));
        if s[i] != '.' {
            let d = (s[i] as u32 - 48u32) as i128;
            assert(d == digit_value(s@[i as int]));
            assert(u.last() == s@[i as int]);
            let nv = val * 10 + d;
            if nv > BOUND {
                proof {
                    assert(t.take(i + 1 - pos) =~= u);
                    assert forall|k: int| 0 <= k < t.len() implies is_number_char(#[trigger] t[k]) by {
                        assert(t[k] == s@[pos + k]);
                    }
                    lemma_run_value_prefix(t, i + 1 - pos);
                }
                return None;
            }
            val = nv;
        }
        i = i + 1;
    }
    assert(s@.subrange(pos as int, end as int) =~= t);
    let mut den: i128 = 1;
    let mut j: usize = 0;
    while j < frac
        invariant
            j <= frac,
            run_end(s@, pos as int) == end,
            pos < end,
            t == s@.subrange(pos as int, end as int),
            dot_count(t) <= 1,
            dot_count(t) != t.len(),
            frac == frac_len(t),
            val == run_value(t),
            1 <= den <= BOUND,
            den == pow10(j as nat),
        decreases frac - j,
    {
        let nd = den * 10;
        if nd > BOUND {
            proof {
                lemma_pow10_mono((j + 1) as nat, frac as nat);
            }
            return None;
        }
        den = nd;
        j = j + 1;
    }
    Some(((val, den), end))
}

/// expr := term (('+' | '-') term)*
fn parse_expr(s: &Vec<char>, pos: usize) -> (r: Option<(Ratio, usize)>)
    requires
        pos <= s.len(),
    ensures
        rv(r) == p_expr(s@, pos as int),
        r matches Some((q, p)) ==> frac_ok(qv(q)) && pos < p <= s.len(),
    decreases s.len() - pos, 4nat,
{
    let (mut acc, mut p) = match parse_term(s, pos) {
        Some(x) => x,
        None => return None,
    };
    while p < s.len() && (s[p] == '+' || s[p] == '-')
        invariant
            pos < p <= s.len(),
            frac_ok(qv(acc)),
            p_expr(s@, pos as int) == p_expr_tail(s@, p as int, qv(acc)),
        decreases s.len() - p,
    {
        let op = s[p];
        let (v, after) = match parse_term(s, p + 1) {
            Some(x) => x,
            None => return None,
        };
        acc = match apply(op, acc, v) {
            Some(a) => a,
            None => return None,
        };
        p = after;
    }
    Some((acc, p))
}

/// term := power (('*' | '/') power)*
fn parse_term(s: &Vec<char>, pos: usize) -> (r: Option<(Ratio, usize)>)
    requires
        pos <= s.len(),
    ensures
        rv(r) == p_term(s@, pos as int),
        r matches Some((q, p)) ==> frac_ok(qv(q)) && pos < p <= s.len(),
    decreases s.len() - pos, 3nat,
{
    let (mut acc, mut p) = match parse_power(s, pos) {
        Some(x) => x,
        None => return None,
    };
    while p < s.len() && (s[p] == '*' || s[p] == '/')
        invariant
            pos < p <= s.len(),
            frac_ok(qv(acc)),
            p_term(s@, pos as int) == p_term_tail(s@, p as int, qv(acc)),
        decreases s.len() - p,
    {
        let op = s[p];
        let (v, after) = match parse_power(s, p + 1) {
            Some(x) => x,
            None => return None,
        };
        acc = match apply(op, acc, v) {
            Some(a) => a,
            None => return None,
        };
        p = after;
    }
    Some((acc, p))
}

/// power := unary ('^' power)?
fn parse_power(s: &Vec<char>, pos: usize) -> (r: Option<(Ratio, usize)>)
    requires
        pos <= s.len(),
    ensures
        rv(r) == p_power(s@, pos as int),
        r matches Some((q, p)) ==> frac_ok(qv(q)) && pos < p <= s.len(),
    decreases s.len() - pos, 2nat,
{
    let (b, p) = match parse_unary(s, pos) {
        Some(x) => x,
        None => return None,
    };
    if p < s.len() && s[p] == '^' {
        let (e, after) = match parse_power(s, p + 1) {
            Some(x) => x,
            None => return None,
        };
        match power(b, e) {
            Some(v) => Some((v, after)),
            None => None,
        }
    } else {
        Some((b, p))
    }
}

/// unary := '-' unary | atom
fn parse_unary(s: &Vec<char>, pos: usize) -> (r: Option<(Ratio, usize)>)
    requires
        pos <= s.len(),
    ensures
        rv(r) == p_unary(s@, pos as int),
        r matches Some((q, p)) ==> frac_ok(qv(q)) && pos < p <= s.len(),
    decreases s.len() - pos, 1nat,
{
    if pos < s.len() && s[pos] == '-' {
        match parse_unary(s, pos + 1) {
            Some((v, p)) => Some(((-v.0, v.1), p)),
            None => None,
        }
    } else {
        parse_atom(s, pos)
    }
}

/// atom := '(' expr ')' | number
fn parse_atom(s: &Vec<char>, pos: usize) -> (r: Option<(Ratio, usize)>)
    requires
        pos <= s.len(),
    ensures
        rv(r) == p_atom(s@, pos as int),
        r matches Some((q, p)) ==> frac_ok(qv(q)) && pos < p <= s.len(),
    decreases s.len() - pos, 0nat,
{
    if pos < s.len() && s[pos] == '(' {
        match parse_expr(s, pos + 1) {
            Some((v, p)) => if p < s.len() && s[p] == ')' {
                Some((v, p + 1))
            } else {
                None
            },
            None => None,
        }
    } else {
        parse_number(s, pos)
    }
}

pub open spec fn digit_char(d: int) -> char {
    seq!['0', '1', '2', '3', '4', '5', '6', '7', '8', '9'][d]
}

/// The decimal digits of `n`, most significant first.
pub open spec fn decimal_digits(n: nat) -> Seq<char>
    decreases n,
{
    if n < 10 {
        seq![digit_char(n as int)]
    } else {
        decimal_digits(n / 10).push(digit_char((n % 10) as int))
    }
}

/// The last `k` decimal digits of `x`, zero-padded.
pub open spec fn fixed_digits(x: nat, k: nat) -> Seq<char>
    decreases k,
{
    if k == 0 {
        Seq::empty()
    } else {
        fixed_digits(x / 10, (k - 1) as nat).push(digit_char((x % 10) as int))
    }
}

/// `t` without its trailing zeros.
pub open spec fn trim_zeros(t: Seq<char>) -> Seq<char>
    decreases t.len(),
{
    if t.len() > 0 && t.last() == '0' {
        trim_zeros(t.drop_last())
    } else {
        t
    }
}

/// How a value is shown: a whole number as its digits; otherwise the value
/// rounded half up to ten decimals, without trailing zeros.
pub open spec fn format_value(q: Frac) -> Seq<char> {
    let a = abs(q.0);
    let d = q.1;
    let sign = if q.0 < 0 {
        seq!['-']
    } else {
        Seq::empty()
    };
    if a % d == 0 {
        sign + decimal_digits((a / d) as nat)
    } else {
        let r = (2 * a * 10_000_000_000 + d) / (2 * d);
        let f = trim_zeros(fixed_digits((r % 10_000_000_000) as nat, 10));
        if f.len() == 0 {
            sign + decimal_digits((r / 10_000_000_000) as nat)
        } else {
            sign + decimal_digits((r / 10_000_000_000) as nat) + seq!['.'] + f
        }
    }
}

fn digit_of(d: u128) -> (c: char)
    requires
        d < 10,
    ensures
        c == digit_char(d as int),
{
    if d == 0 {
        '0'
    } else if d == 1 {
        '1'
    } else if d == 2 {
        '2'
    } else if d == 3 {
        '3'
    } else if d == 4 {
        '4'
    } else if d == 5 {
        '5'
    } else if d == 6 {
        '6'
    } else if d == 7 {
        '7'
    } else if d == 8 {
        '8'
    } else {
        '9'
    }
}

fn push_digits(out: &mut String, n: u128)
    ensures
        final(out)@ == old(out)@ + decimal_digits(n as nat),
    decreases n,
{
    if n >= 10 {
        push_digits(out, n / 10);
    }
    out.push(digit_of(n % 10));
    assert(final(out)@ =~= old(out)@ + decimal_digits(n as nat));
}

fn push_fixed(out: &mut Vec<char>, x: u128, k: usize)
    ensures
        final(out)@ == old(out)@ + fixed_digits(x as nat, k as nat),
    decreases k,
{
    if k > 0 {
        push_fixed(out, x / 10, k - 1);
        out.push(digit_of(x % 10));
        assert(final(out)@ =~= old(out)@ + fixed_digits(x as nat, k as nat));
    } else {
        assert(final(out)@ =~= old(out)@ + fixed_digits(x as nat, k as nat));
    }
}

/// The text of a value.
fn format_ratio(q: Ratio) -> (r: String)
    requires
        frac_ok(qv(q)),
    ensures
        r@ == format_value(qv(q)),
{
    let neg = q.0 < 0;
    let a: u128 = if neg {
        (-q.0) as u128
    } else {
        q.0 as u128
    };
    let d: u128 = q.1 as u128;
    let mut out = String::new();
    if neg {
        out.push('-');
    }
    let ghost sign = out@;
    assert(sign =~= if q.0 < 0 { seq!['-'] } else { Seq::<char>::empty() });
    if a % d == 0 {
        push_digits(&mut out, a / d);
        return out;
    }
    let r = (2 * a * 10_000_000_000 + d) / (2 * d);
    push_digits(&mut out, r / 10_000_000_000);
    let mut f: Vec<char> = Vec::new();
    push_fixed(&mut f, r % 10_000_000_000, 10);
    let ghost full = f@;
    assert(full =~= fixed_digits((r % 10_000_000_000) as nat, 10));
    while f.len() > 0 && f[f.len() - 1] == '0'
        invariant
            trim_zeros(f@) == trim_zeros(full),
        decreases f.len(),
    {
        f.pop();
        assert(trim_zeros(f@) == trim_zeros(full));
    }
    assert(trim_zeros(f@) == f@);
    if f.len() > 0 {
        out.push('.');
        let ghost head = out@;
        let mut k: usize = 0;
        while k < f.len()
            invariant
                k <= f.len(),
                out@ == head + f@.take(k as int),
            decreases f.len() - k,
        {
            out.push(f[k]);
            assert(f@.take(k + 1) =~= f@.take(k as int).push(f@[k as int]));
            k = k + 1;
        }
        assert(f@.take(k as int) =~= f@);
    }
    out
}

/// Characters that make an input look like arithmetic.
pub open spec fn is_operator_char(c: char) -> bool {
    c == '+' || c == '-' || c == '*' || c == '/' || c == '^' || c == '(' || c == ')'
}

/// `s` without its Unicode whitespace.
pub open spec fn without_whitespace(s: Seq<char>) -> Seq<char>
    decreases s.len(),
{
    if s.len() == 0 {
        Seq::empty()
    } else if is_white_space(s.last()) {
        without_whitespace(s.drop_last())
    } else {
        without_whitespace(s.drop_last()).push(s.last())
    }
}

/// What the evaluator shows for an input: nothing unless the input holds a
/// digit and an operator or parenthesis, and, with whitespace removed, is
/// one whole expression with a value.
pub open spec fn evaluation(s: Seq<char>) -> Option<Seq<char>> {
    let t = without_whitespace(s);
    if s.len() == 0 || !(exists|i: int| 0 <= i < s.len() && is_digit(#[trigger] s[i])) || !(exists|
        i: int,
    | 0 <= i < s.len() && is_operator_char(#[trigger] s[i])) {
        None
    } else {
        match p_expr(t, 0) {
            Some((v, p)) => if p < t.len() {
                None
            } else {
                Some(format_value(v))
            },
            None => None,
        }
    }
}

/// Evaluates an arithmetic expression typed into the search box.
pub fn evaluate(input: &str) -> (r: Option<String>)
    ensures
        crate::entry::opt_view(r) == evaluation(input@),
{
    let cs = chars_of(input);
    if cs.len() == 0 {
        return None;
    }
    let mut has_digit = false;
    let mut has_op = false;
    let mut t: Vec<char> = Vec::new();
    let mut i: usize = 0;
    while i < cs.len()
        invariant
            i <= cs.len(),
            cs@ == input@,
            has_digit == exists|k: int| 0 <= k < i && is_digit(#[trigger] cs@[k]),
            has_op == exists|k: int| 0 <= k < i && is_operator_char(#[trigger] cs@[k]),
            t@ == without_whitespace(cs@.take(i as int)),
        decreases cs.len() - i,
    {
        let c = cs[i];
        assert(cs@.take(i + 1).drop_last() =~= cs@.take(i as int));
        if is_digit_char(c) {
            has_digit = true;
        }
        if c == '+' || c == '-' || c == '*' || c == '/' || c == '^' || c == '(' || c == ')' {
            has_op = true;
        }
        if !is_whitespace(c) {
            t.push(c);
        }
        i = i + 1;
    }
    assert(cs@.take(i as int) =~= cs@);
    if !has_digit || !has_op {
        return None;
    }
    match parse_expr(&t, 0) {
        Some((v, p)) => if p < t.len() {
            None
        } else {
            Some(format_ratio(v))
        },
        None => None,
    }
}

} // verus!
