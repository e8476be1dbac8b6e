use vstd::prelude::*;

verus! {

// Decimal numbers: a sequence of digits (each below ten, most significant first)
// scaled by a power of ten.

/// Ten to the power `k`.
pub open spec fn pow10(k: nat) -> nat
    decreases k,
{
    if k == 0 {
        1
    } else {
        10 * pow10((k - 1) as nat)
    }
}

/// The number that the digits `ds` write.
pub open spec fn digits_value(ds: Seq<u8>) -> nat
    decreases ds.len(),
{
    if ds.len() == 0 {
        0
    } else {
        digits_value(ds.drop_last()) * 10 + ds.last() as nat
    }
}

/// Every element of `ds` is a digit.
pub open spec fn all_digits(ds: Seq<u8>) -> bool {
    forall|i: int| 0 <= i < ds.len() ==> #[trigger] ds[i] < 10
}

/// `k` zero digits.
pub open spec fn zeros(k: nat) -> Seq<u8> {
    Seq::new(k, |i: int| 0u8)
}

pub proof fn lemma_pow10_positive(k: nat)
    ensures
        pow10(k) >= 1,
    decreases k,
{
    if k > 0 {
        lemma_pow10_positive((k - 1) as nat);
    }
}

pub proof fn lemma_pow10_add(a: nat, b: nat)
    ensures
        pow10(a + b) == pow10(a) * pow10(b),
    decreases b,
{
    if b == 0 {
        assert(pow10(0) == 1);
        assert(a + b == a);
    } else {
        let c = (b - 1) as nat;
        lemma_pow10_add(a, c);
        let x = pow10(a);
        let y = pow10(c);
        assert(a + b == (a + c) + 1);
        assert(pow10(a + b) == 10 * pow10(a + c));
        assert(pow10(b) == 10 * y);
        assert(x * (10 * y) == 10 * (x * y)) by (nonlinear_arith);
    }
}

/// A larger exponent gives at least ten times more.
pub proof fn lemma_pow10_grows(a: nat, b: nat)
    requires
        a < b,
    ensures
        10 * pow10(a) <= pow10(b),
    decreases b,
{
    if a + 1 < b {
        lemma_pow10_grows(a, (b - 1) as nat);
        lemma_pow10_positive((b - 1) as nat);
    }
}

/// `digits_value` of a concatenation.
pub proof fn lemma_digits_concat(a: Seq<u8>, b: Seq<u8>)
    ensures
        digits_value(a + b) == digits_value(a) * pow10(b.len()) + digits_value(b),
    decreases b.len(),
{
    if b.len() == 0 {
        assert(a + b =~= a);
        assert(pow10(0) == 1);
        assert(digits_value(b) == 0);
    } else {
        let bl = b.drop_last();
        lemma_digits_concat(a, bl);
        assert((a + b).drop_last() =~= a + bl);
        assert((a + b).last() == b.last());
        let x = digits_value(a);
        let p = pow10(bl.len());
        let y = digits_value(bl);
        let d = b.last() as nat;
        assert(pow10(b.len()) == 10 * p);
        assert(digits_value(a + b) == digits_value(a + bl) * 10 + d);
        assert(digits_value(b) == y * 10 + d);
        assert((x * p + y) * 10 + d == x * (10 * p) + (y * 10 + d)) by (nonlinear_arith);
    }
}

/// Digits write a number below ten to the power of their count.
pub proof fn lemma_digits_bound(ds: Seq<u8>)
    requires
        all_digits(ds),
    ensures
        digits_value(ds) < pow10(ds.len()),
    decreases ds.len(),
{
    if ds.len() > 0 {
        let t = ds.drop_last();
        assert(all_digits(t)) by {
            assert forall|i: int| 0 <= i < t.len() implies #[trigger] t[i] < 10 by {
                assert(t[i] == ds[i]);
            }
        }
        lemma_digits_bound(t);
        assert(ds.last() < 10);
        assert(digits_value(t) + 1 <= pow10(t.len()));
        assert(digits_value(t) * 10 + (ds.last() as nat) < pow10(t.len()) * 10) by (nonlinear_arith)
            requires
                digits_value(t) + 1 <= pow10(t.len()),
                ds.last() < 10,
        ;
    }
}

/// Digits that start with a non-zero digit write at least ten to the power of one
/// less than their count.
pub proof fn lemma_digits_lower(ds: Seq<u8>)
    requires
        ds.len() > 0,
        ds[0] != 0,
    ensures
        digits_value(ds) >= pow10((ds.len() - 1) as nat),
{
    let head = ds.subrange(0, 1);
    let tail = ds.subrange(1, ds.len() as int);
    assert(ds =~= head + tail);
    lemma_digits_concat(head, tail);
    assert(head.drop_last() =~= Seq::<u8>::empty());
    assert(digits_value(Seq::<u8>::empty()) == 0);
    assert(digits_value(head) == ds[0] as nat);
    lemma_pow10_positive(tail.len());
    assert(digits_value(head) * pow10(tail.len()) >= pow10(tail.len())) by (nonlinear_arith)
        requires
            digits_value(head) >= 1,
    ;
}

/// Leading zero digits do not change the number.
pub proof fn lemma_digits_leading_zeros(k: nat, ds: Seq<u8>)
    ensures
        digits_value(zeros(k) + ds) == digits_value(ds),
{
    lemma_digits_concat(zeros(k), ds);
    lemma_zeros_value(k);
}

pub proof fn lemma_zeros_value(k: nat)
    ensures
        digits_value(zeros(k)) == 0,
    decreases k,
{
    if k > 0 {
        assert(zeros(k).drop_last() =~= zeros((k - 1) as nat));
        lemma_zeros_value((k - 1) as nat);
    }
}

/// Trailing zero digits multiply by ten for each.
pub proof fn lemma_digits_trailing_zeros(ds: Seq<u8>, k: nat)
    ensures
        digits_value(ds + zeros(k)) == digits_value(ds) * pow10(k),
{
    lemma_digits_concat(ds, zeros(k));
    lemma_zeros_value(k);
}

/// Of two digit strings of one length, the one with the smaller digit at the first
/// place where they differ writes the smaller number.
pub proof fn lemma_digits_first_difference(a: Seq<u8>, b: Seq<u8>, i: int)
    requires
        a.len() == b.len(),
        all_digits(a),
        all_digits(b),
        0 <= i < a.len(),
        forall|j: int| 0 <= j < i ==> #[trigger] a[j] == b[j],
        a[i] < b[i],
    ensures
        digits_value(a) < digits_value(b),
{
    let n = a.len();
    let p = a.subrange(0, i);
    assert(b.subrange(0, i) =~= p);
    let ra = a.subrange(i + 1, n as int);
    let rb = b.subrange(i + 1, n as int);
    let m = ra.len();
    assert(a =~= (p + seq![a[i]]) + ra);
    assert(b =~= (p + seq![b[i]]) + rb);
    lemma_digits_concat(p + seq![a[i]], ra);
    lemma_digits_concat(p + seq![b[i]], rb);
    lemma_digits_concat(p, seq![a[i]]);
    lemma_digits_concat(p, seq![b[i]]);
    assert(seq![a[i]].drop_last() =~= Seq::<u8>::empty());
    assert(seq![b[i]].drop_last() =~= Seq::<u8>::empty());
    assert(digits_value(Seq::<u8>::empty()) == 0);
    assert(digits_value(seq![a[i]]) == a[i] as nat);
    assert(digits_value(seq![b[i]]) == b[i] as nat);
    assert(pow10(0) == 1);
    assert(pow10(1) == 10);
    assert(all_digits(ra)) by {
        assert forall|j: int| 0 <= j < ra.len() implies #[trigger] ra[j] < 10 by {
            assert(ra[j] == a[i + 1 + j]);
        }
    }
    lemma_digits_bound(ra);
    let v = digits_value(p);
    let q = pow10(m);
    let x = digits_value(ra);
    let y = digits_value(rb);
    assert(digits_value(a) == (v * 10 + a[i] as nat) * q + x);
    assert(digits_value(b) == (v * 10 + b[i] as nat) * q + y);
    assert((v * 10 + a[i] as nat) * q + x < (v * 10 + b[i] as nat) * q + y) by (nonlinear_arith)
        requires
            x < q,
            a[i] < b[i],
    ;
}


/// The order of two numbers.
pub enum NumOrder {
    Less,
    Equal,
    Greater,
}

/// The order of `x` and `y`.
pub open spec fn order_of(x: int, y: int) -> NumOrder {
    if x < y {
        NumOrder::Less
    } else if x == y {
        NumOrder::Equal
    } else {
        NumOrder::Greater
    }
}

/// The order of `m1 * 10^e1` and `m2 * 10^e2`: both are brought to the smaller
/// exponent and their mantissas compared.
pub open spec fn scaled_order(m1: int, e1: int, m2: int, e2: int) -> NumOrder {
    let e = if e1 <= e2 { e1 } else { e2 };
    order_of(m1 * pow10((e1 - e) as nat), m2 * pow10((e2 - e) as nat))
}

/// A decimal number: its sign, its digits (most significant first) and the power
/// of ten of its last digit.
pub struct Decimal {
    pub negative: bool,
    pub digits: Vec<u8>,
    pub exponent: i128,
}

impl Decimal {
    /// Every digit is below ten, and the exponent is within what the comparison handles.
    pub open spec fn well_formed(&self) -> bool {
        &&& all_digits(self.digits@)
        &&& -0x1_0000_0000_0000_0000_0000_0000 <= self.exponent <= 0x1_0000_0000_0000_0000_0000_0000
    }

    /// The signed number the digits write.
    pub open spec fn mantissa(&self) -> int {
        if self.negative {
            -(digits_value(self.digits@) as int)
        } else {
            digits_value(self.digits@) as int
        }
    }
}

fn strip_leading_zeros(ds: &Vec<u8>) -> (r: Vec<u8>)
    requires
        all_digits(ds@),
    ensures
        all_digits(r@),
        r@.len() == 0 || r@[0] != 0,
        digits_value(r@) == digits_value(ds@),
        r@.len() <= ds@.len(),
{
    let mut k: usize = 0;
    while k < ds.len() && ds[k] == 0
        invariant
            k <= ds@.len(),
            forall|j: int| 0 <= j < k ==> #[trigger] ds@[j] == 0,
        decreases ds@.len() - k,
    {
        k += 1;
    }
    let mut r: Vec<u8> = Vec::new();
    let mut i = k;
    while i < ds.len()
        invariant
            k <= i <= ds@.len(),
            r@ == ds@.subrange(k as int, i as int),
        decreases ds@.len() - i,
    {
        r.push(ds[i]);
        proof {
            assert(ds@.subrange(k as int, i + 1) =~= ds@.subrange(k as int, i as int).push(ds@[i as int]));
        }
        i += 1;
    }
    proof {
        assert(ds@ =~= zeros(k as nat) + r@);
        lemma_digits_leading_zeros(k as nat, r@);
        assert forall|j: int| 0 <= j < r@.len() implies #[trigger] r@[j] < 10 by {
            assert(r@[j] == ds@[k + j]);
        }
    }
    r
}

/// When the leading digit of `d1 * 10^e1` stands at a higher place than that of
/// `d2 * 10^e2`, the first is the larger.
proof fn lemma_higher_place_larger(d1: Seq<u8>, e1: int, d2: Seq<u8>, e2: int)
    requires
        d1.len() > 0,
        d2.len() > 0,
        d1[0] != 0,
        all_digits(d2),
        d1.len() + e1 > d2.len() + e2,
    ensures
        ({
            let m = if e1 <= e2 { e1 } else { e2 };
            digits_value(d1) * pow10((e1 - m) as nat) > digits_value(d2) * pow10((e2 - m) as nat)
        }),
{
    let m = if e1 <= e2 { e1 } else { e2 };
    let k1 = (e1 - m) as nat;
    let k2 = (e2 - m) as nat;
    let l1 = (d1.len() - 1) as nat;
    let l2 = d2.len();
    lemma_digits_lower(d1);
    lemma_digits_bound(d2);
    lemma_pow10_add(l1, k1);
    lemma_pow10_add(l2, k2);
    let hi = pow10(l1 + k1);
    let lo = pow10(l2 + k2);
    assert(l2 + k2 <= l1 + k1);
    if l2 + k2 < l1 + k1 {
        lemma_pow10_grows(l2 + k2, l1 + k1);
    }
    lemma_pow10_positive(k1);
    lemma_pow10_positive(k2);
    let v1 = digits_value(d1);
    let v2 = digits_value(d2);
    let p1 = pow10(k1);
    let p2 = pow10(k2);
    assert(v1 * p1 >= pow10(l1) * p1) by (nonlinear_arith)
        requires
            v1 >= pow10(l1),
    ;
    assert(v2 * p2 < pow10(l2) * p2) by (nonlinear_arith)
        requires
            v2 < pow10(l2),
            p2 >= 1,
    ;
    assert(lo <= hi);
}

/// The order of `d1 * 10^e1` and `d2 * 10^e2` for digit strings without leading zeros.
fn magnitude_order(d1: &Vec<u8>, e1: i128, d2: &Vec<u8>, e2: i128) -> (r: NumOrder)
    requires
        all_digits(d1@),
        all_digits(d2@),
        d1@.len() == 0 || d1@[0] != 0,
        d2@.len() == 0 || d2@[0] != 0,
        -0x1_0000_0000_0000_0000_0000_0000 <= e1 <= 0x1_0000_0000_0000_0000_0000_0000,
        -0x1_0000_0000_0000_0000_0000_0000 <= e2 <= 0x1_0000_0000_0000_0000_0000_0000,
    ensures
        r == ({
            let m = if e1 <= e2 { e1 } else { e2 };
            order_of(
                (digits_value(d1@) * pow10((e1 - m) as nat)) as int,
                (digits_value(d2@) * pow10((e2 - m) as nat)) as int,
            )
        }),
{
    let ghost m = if e1 <= e2 { e1 } else { e2 };
    let ghost k1 = (e1 - m) as nat;
    let ghost k2 = (e2 - m) as nat;
    proof {
        lemma_pow10_positive(k1);
        lemma_pow10_positive(k2);
    }
    let n1 = d1.len();
    let n2 = d2.len();
    proof {
        let p1 = pow10(k1);
        let p2 = pow10(k2);
        if n1 == 0 {
            assert(digits_value(d1@) == 0);
            assert(0 * p1 == 0) by (nonlinear_arith);
        }
        if n2 == 0 {
            assert(digits_value(d2@) == 0);
            assert(0 * p2 == 0) by (nonlinear_arith);
        }
    }
    if n1 == 0 && n2 == 0 {
        return NumOrder::Equal;
    }
    if n1 == 0 {
        proof {
            lemma_digits_lower(d2@);
            lemma_pow10_positive((d2@.len() - 1) as nat);
            let v = digits_value(d2@);
            let p = pow10(k2);
            assert(v * p >= 1) by (nonlinear_arith)
                requires
                    v >= 1,
                    p >= 1,
            ;
        }
        return NumOrder::Less;
    }
    if n2 == 0 {
        proof {
            lemma_digits_lower(d1@);
            lemma_pow10_positive((d1@.len() - 1) as nat);
            let v = digits_value(d1@);
            let p = pow10(k1);
            assert(v * p >= 1) by (nonlinear_arith)
                requires
                    v >= 1,
                    p >= 1,
            ;
        }
        return NumOrder::Greater;
    }
    let p1: i128 = n1 as i128 + e1;
    let p2: i128 = n2 as i128 + e2;
    if p1 > p2 {
        proof {
            lemma_higher_place_larger(d1@, e1 as int, d2@, e2 as int);
        }
        return NumOrder::Greater;
    }
    if p1 < p2 {
        proof {
            lemma_higher_place_larger(d2@, e2 as int, d1@, e1 as int);
        }
        return NumOrder::Less;
    }
    // The leading digits stand at the same place: compare place by place, reading
    // missing digits as zeros.
    let n = if n1 >= n2 { n1 } else { n2 };
    let ghost x1 = d1@ + zeros((n - n1) as nat);
    let ghost x2 = d2@ + zeros((n - n2) as nat);
    proof {
        assert((n - n1) as nat == k1);
        assert((n - n2) as nat == k2);
        lemma_digits_trailing_zeros(d1@, k1);
        lemma_digits_trailing_zeros(d2@, k2);
        assert forall|j: int| 0 <= j < x1.len() implies #[trigger] x1[j] < 10 by {
            if j < n1 {
                assert(x1[j] == d1@[j]);
            }
        }
        assert forall|j: int| 0 <= j < x2.len() implies #[trigger] x2[j] < 10 by {
            if j < n2 {
                assert(x2[j] == d2@[j]);
            }
        }
    }
    let mut i: usize = 0;
    while i < n
        invariant
            i <= n,
            n == x1.len(),
            n == x2.len(),
            n1 == d1@.len(),
            n2 == d2@.len(),
            x1 == d1@ + zeros((n - n1) as nat),
            x2 == d2@ + zeros((n - n2) as nat),
            all_digits(x1),
            all_digits(x2),
            m == (if e1 <= e2 { e1 } else { e2 }),
            k1 == (e1 - m) as nat,
            k2 == (e2 - m) as nat,
            digits_value(x1) == digits_value(d1@) * pow10(k1),
            digits_value(x2) == digits_value(d2@) * pow10(k2),
            forall|j: int| 0 <= j < i ==> #[trigger] x1[j] == x2[j],
        decreases n - i,
    {
        let a: u8 = if i < n1 { d1[i] } else { 0 };
        let b: u8 = if i < n2 { d2[i] } else { 0 };
        proof {
            assert(a == x1[i as int]);
            assert(b == x2[i as int]);
        }
        if a < b {
            proof {
                lemma_digits_first_difference(x1, x2, i as int);
            }
            return NumOrder::Less;
        }
        if a > b {
            proof {
                assert forall|j: int| 0 <= j < i implies #[trigger] x2[j] == x1[j] by {}
                lemma_digits_first_difference(x2, x1, i as int);
            }
            return NumOrder::Greater;
        }
        i += 1;
    }
    proof {
        assert(x1 =~= x2);
    }
    NumOrder::Equal
}

proof fn lemma_neg_scale(v: int, p: int)
    ensures
        (-v) * p == -(v * p),
{
    assert((-v) * p == -(v * p)) by (nonlinear_arith);
}

/// The order of two decimal numbers, by their exact values (no rounding to `f64`).
pub fn compare_decimals(a: &Decimal, b: &Decimal) -> (r: NumOrder)
    requires
        a.well_formed(),
        b.well_formed(),
    ensures
        r == scaled_order(a.mantissa(), a.exponent as int, b.mantissa(), b.exponent as int),
{
    let d1 = strip_leading_zeros(&a.digits);
    let d2 = strip_leading_zeros(&b.digits);
    let mag = magnitude_order(&d1, a.exponent, &d2, b.exponent);
    let neg1 = a.negative && d1.len() > 0;
    let neg2 = b.negative && d2.len() > 0;
    let ghost e = if a.exponent <= b.exponent { a.exponent as int } else { b.exponent as int };
    let ghost p1 = pow10((a.exponent - e) as nat) as int;
    let ghost p2 = pow10((b.exponent - e) as nat) as int;
    let ghost v1 = digits_value(a.digits@) as int;
    let ghost v2 = digits_value(b.digits@) as int;
    proof {
        lemma_neg_scale(v1, p1);
        lemma_neg_scale(v2, p2);
        lemma_pow10_positive((a.exponent - e) as nat);
        lemma_pow10_positive((b.exponent - e) as nat);
        assert(v1 * p1 >= 0) by (nonlinear_arith)
            requires
                v1 >= 0,
                p1 >= 1,
        ;
        assert(v2 * p2 >= 0) by (nonlinear_arith)
            requires
                v2 >= 0,
                p2 >= 1,
        ;
        if d1@.len() == 0 {
            assert(v1 == 0);
            assert(v1 * p1 == 0);
        }
        if d2@.len() == 0 {
            assert(v2 == 0);
            assert(v2 * p2 == 0);
        }
        if d1@.len() > 0 {
            lemma_digits_lower(d1@);
            lemma_pow10_positive((d1@.len() - 1) as nat);
            assert(v1 * p1 >= 1) by (nonlinear_arith)
                requires
                    v1 >= 1,
                    p1 >= 1,
            ;
        }
        if d2@.len() > 0 {
            lemma_digits_lower(d2@);
            lemma_pow10_positive((d2@.len() - 1) as nat);
            assert(v2 * p2 >= 1) by (nonlinear_arith)
                requires
                    v2 >= 1,
                    p2 >= 1,
            ;
        }
    }
    if !neg1 && !neg2 {
        mag
    } else if neg1 && neg2 {
        match mag {
            NumOrder::Less => NumOrder::Greater,
            NumOrder::Equal => NumOrder::Equal,
            NumOrder::Greater => NumOrder::Less,
        }
    } else if neg1 {
        NumOrder::Less
    } else {
        NumOrder::Greater
    }
}


// ---------------------------------------------------------------------------
// Reading numbers
// ---------------------------------------------------------------------------

pub open spec fn is_digit_char(c: char) -> bool {
    '0' <= c && c <= '9'
}

/// The value of the digit character `c`.
pub open spec fn digit_of(c: char) -> u8 {
    ((c as u32) - 48) as u8
}

/// The number of digit characters of `t` in a row from position `i`.
pub open spec fn digit_run(t: Seq<char>, i: int) -> nat
    decreases t.len() - i,
{
    if 0 <= i < t.len() && is_digit_char(t[i]) {
        1 + digit_run(t, i + 1)
    } else {
        0
    }
}

/// The values of the `n` digit characters of `t` from position `i`.
pub open spec fn digits_at(t: Seq<char>, i: int, n: nat) -> Seq<u8> {
    Seq::new(n, |k: int| digit_of(t[i + k]))
}

/// The most exponent digits a number may have.
pub open spec fn max_exponent_digits() -> nat {
    15
}

/// The number a JSON number text writes, as a signed mantissa and a power of ten:
/// an optional minus sign, digits, optionally a point and digits, optionally `e` or
/// `E`, a sign and digits. Text of any other shape, or with an exponent of more than
/// `max_exponent_digits()` digits, writes none.
pub open spec fn parse_number(t: Seq<char>) -> Option<(int, int)> {
    let neg = t.len() > 0 && t[0] == '-';
    let i0: int = if neg { 1 } else { 0 };
    let n1 = digit_run(t, i0);
    let i1 = i0 + n1;
    let has_frac = i1 < t.len() && t[i1] == '.';
    let n2: nat = if has_frac { digit_run(t, i1 + 1) } else { 0 };
    let i2 = if has_frac { i1 + 1 + n2 } else { i1 };
    let has_exp = i2 < t.len() && (t[i2] == 'e' || t[i2] == 'E');
    let signed_exp = has_exp && i2 + 1 < t.len() && (t[i2 + 1] == '-' || t[i2 + 1] == '+');
    let neg_exp = signed_exp && t[i2 + 1] == '-';
    let i3 = if signed_exp { i2 + 2 } else { i2 + 1 };
    let n3: nat = if has_exp { digit_run(t, i3) } else { 0 };
    let end = if has_exp { i3 + n3 } else { i2 };
    if n1 == 0 || (has_frac && n2 == 0) || (has_exp && (n3 == 0 || n3 > max_exponent_digits())) || end != t.len() {
        None
    } else {
        let v = digits_value(digits_at(t, i0, n1) + digits_at(t, i1 + 1, n2)) as int;
        let ev = digits_value(digits_at(t, i3, n3)) as int;
        let e = (if neg_exp { -ev } else { ev }) - n2;
        Some((if neg { -v } else { v }, e))
    }
}

proof fn lemma_digit_run(t: Seq<char>, i: int, j: int)
    requires
        0 <= i <= j <= t.len(),
        forall|k: int| i <= k < j ==> is_digit_char(#[trigger] t[k]),
        j == t.len() || !is_digit_char(t[j]),
    ensures
        digit_run(t, i) == j - i,
    decreases j - i,
{
    if i < j {
        lemma_digit_run(t, i + 1, j);
    }
}

fn digit_run_exec(t: &Vec<char>, i: usize) -> (r: usize)
    requires
        i <= t@.len(),
    ensures
        r == digit_run(t@, i as int),
        i + r <= t@.len(),
{
    let mut j = i;
    while j < t.len() && '0' <= t[j] && t[j] <= '9'
        invariant
            i <= j <= t@.len(),
            forall|k: int| i <= k < j ==> is_digit_char(#[trigger] t@[k]),
        decreases t@.len() - j,
    {
        j += 1;
    }
    proof {
        lemma_digit_run(t@, i as int, j as int);
    }
    j - i
}

fn digits_exec(t: &Vec<char>, i: usize, n: usize) -> (r: Vec<u8>)
    requires
        i + n <= t@.len(),
        forall|k: int| i <= k < i + n ==> is_digit_char(#[trigger] t@[k]),
    ensures
        r@ == digits_at(t@, i as int, n as nat),
        all_digits(r@),
{
    let mut r: Vec<u8> = Vec::new();
    let tl = t.len();
    let mut k: usize = 0;
    while k < n
        invariant
            k <= n,
            tl == t@.len(),
            i + n <= tl,
            forall|q: int| i <= q < i + n ==> is_digit_char(#[trigger] t@[q]),
            r@ =~= digits_at(t@, i as int, k as nat),
            all_digits(r@),
        decreases n - k,
    {
        let c = t[i + k];
        proof {
            assert(is_digit_char(t@[i + k]));
        }
        let d: u8 = ((c as u32) - 48) as u8;
        r.push(d);
        proof {
            assert(r@ =~= digits_at(t@, i as int, (k + 1) as nat));
        }
        k += 1;
    }
    r
}

proof fn lemma_digit_runs_are_digits(t: Seq<char>, i: int)
    requires
        0 <= i,
    ensures
        forall|k: int| i <= k < i + digit_run(t, i) ==> is_digit_char(#[trigger] t[k]),
        i + digit_run(t, i) <= t.len() || digit_run(t, i) == 0,
    decreases t.len() - i,
{
    if 0 <= i < t.len() && is_digit_char(t[i]) {
        lemma_digit_run_runs(t, i);
    }
}

proof fn lemma_digit_run_runs(t: Seq<char>, i: int)
    requires
        0 <= i,
    ensures
        forall|k: int| i <= k < i + digit_run(t, i) ==> is_digit_char(#[trigger] t[k]),
        digit_run(t, i) > 0 ==> i + digit_run(t, i) <= t.len(),
    decreases t.len() - i,
{
    if 0 <= i < t.len() && is_digit_char(t[i]) {
        lemma_digit_run_runs(t, i + 1);
    }
}

proof fn lemma_pow10_15()
    ensures
        pow10(15) == 1000000000000000,
{
    reveal_with_fuel(pow10, 16);
}

/// The value of at most `max_exponent_digits()` digits.
fn small_value(ds: &Vec<u8>) -> (r: u64)
    requires
        all_digits(ds@),
        ds@.len() <= 15,
    ensures
        r == digits_value(ds@),
{
    proof {
        lemma_pow10_15();
    }
    let mut v: u64 = 0;
    let mut i: usize = 0;
    while i < ds.len()
        invariant
            i <= ds@.len(),
            ds@.len() <= 15,
            all_digits(ds@),
            pow10(15) == 1000000000000000,
            v == digits_value(ds@.subrange(0, i as int)),
        decreases ds@.len() - i,
    {
        let ghost pre = ds@.subrange(0, i as int);
        proof {
            assert(all_digits(pre)) by {
                assert forall|j: int| 0 <= j < pre.len() implies #[trigger] pre[j] < 10 by {
                    assert(pre[j] == ds@[j]);
                }
            }
            lemma_digits_bound(pre);
            if i < 15 {
                lemma_pow10_grows(i as nat, 15);
            }
            assert(ds@[i as int] < 10);
            assert(ds@.subrange(0, i as int + 1).drop_last() =~= pre);
        }
        v = v * 10 + ds[i] as u64;
        i += 1;
    }
    proof {
        assert(ds@.subrange(0, ds@.len() as int) =~= ds@);
    }
    v
}

/// Reads a JSON number text.
#[verifier::rlimit(80)]
pub fn parse_decimal(text: &str) -> (r: Option<Decimal>)
    ensures
        match parse_number(text@) {
            None => r is None,
            Some((m, e)) => r matches Some(d) && d.well_formed() && d.mantissa() == m && d.exponent == e,
        },
{
    let t = crate::text::chars_of(text);
    let len = t.len();
    let neg = len > 0 && t[0] == '-';
    let i0: usize = if neg { 1 } else { 0 };
    let n1 = digit_run_exec(&t, i0);
    let i1 = i0 + n1;
    let has_frac = i1 < len && t[i1] == '.';
    let n2: usize = if has_frac { digit_run_exec(&t, i1 + 1) } else { 0 };
    let i2 = if has_frac { i1 + 1 + n2 } else { i1 };
    let has_exp = i2 < len && (t[i2] == 'e' || t[i2] == 'E');
    let signed_exp = has_exp && i2 + 1 < len && (t[i2 + 1] == '-' || t[i2 + 1] == '+');
    let neg_exp = signed_exp && t[i2 + 1] == '-';
    let i3 = if !has_exp {
        i2
    } else if signed_exp {
        i2 + 2
    } else {
        i2 + 1
    };
    let n3: usize = if has_exp { digit_run_exec(&t, i3) } else { 0 };
    let end = if has_exp { i3 + n3 } else { i2 };
    if n1 == 0 || (has_frac && n2 == 0) || (has_exp && (n3 == 0 || n3 > 15)) || end != len {
        return None;
    }
    proof {
        lemma_digit_run_runs(t@, i0 as int);
        lemma_digit_run_runs(t@, i1 + 1);
        lemma_digit_run_runs(t@, i3 as int);
    }
    let mut digits = digits_exec(&t, i0, n1);
    let frac = if has_frac { digits_exec(&t, i1 + 1, n2) } else { Vec::new() };
    proof {
        assert(frac@ =~= digits_at(t@, i1 + 1, n2 as nat));
    }
    let ghost int_digits = digits@;
    crate::decimal::append_digits(&mut digits, &frac);
    let exp_digits = if has_exp { digits_exec(&t, i3, n3) } else { Vec::new() };
    proof {
        assert(exp_digits@ =~= digits_at(t@, i3 as int, n3 as nat));
        assert(digits_value(Seq::<u8>::empty()) == 0);
    }
    let ev = small_value(&exp_digits);
    proof {
        lemma_pow10_15();
        lemma_digits_bound(exp_digits@);
        if n3 < 15 {
            lemma_pow10_grows(n3 as nat, 15);
        }
    }
    let e: i128 = (if neg_exp { -(ev as i128) } else { ev as i128 }) - n2 as i128;
    let r = Decimal { negative: neg, digits, exponent: e };
    proof {
        let tt = text@;
        assert(tt == t@);
        assert(parse_number(tt) is Some);
        assert(digits@ == digits_at(tt, i0 as int, n1 as nat) + digits_at(tt, i1 + 1, n2 as nat));
        let pn = parse_number(tt)->Some_0;
        assert(r.mantissa() == pn.0);
        assert(r.exponent == pn.1);
    }
    Some(r)
}

/// Appends the digits `more` to `ds`.
fn append_digits(ds: &mut Vec<u8>, more: &Vec<u8>)
    requires
        all_digits(old(ds)@),
        all_digits(more@),
    ensures
        final(ds)@ == old(ds)@ + more@,
        all_digits(final(ds)@),
{
    let mut i: usize = 0;
    while i < more.len()
        invariant
            i <= more@.len(),
            all_digits(more@),
            ds@ == old(ds)@ + more@.subrange(0, i as int),
            all_digits(ds@),
        decreases more@.len() - i,
    {
        ds.push(more[i]);
        proof {
            assert(more@.subrange(0, i as int + 1) =~= more@.subrange(0, i as int).push(more@[i as int]));
            assert forall|j: int| 0 <= j < ds@.len() implies #[trigger] ds@[j] < 10 by {
                if j < ds@.len() - 1 {
                    assert(ds@[j] == (old(ds)@ + more@.subrange(0, i as int))[j]);
                }
            }
        }
        i += 1;
    }
    proof {
        assert(more@.subrange(0, more@.len() as int) =~= more@);
    }
}

/// The digits of `n`, most significant first.
pub fn digits_of(n: u128) -> (r: Vec<u8>)
    ensures
        digits_value(r@) == n,
        all_digits(r@),
    decreases n,
{
    if n < 10 {
        let mut r: Vec<u8> = Vec::new();
        r.push(n as u8);
        proof {
            assert(r@.drop_last() =~= Seq::<u8>::empty());
            assert(digits_value(Seq::<u8>::empty()) == 0);
        }
        r
    } else {
        let mut r = digits_of(n / 10);
        let ghost before = r@;
        r.push((n % 10) as u8);
        proof {
            assert(r@.drop_last() =~= before);
            assert forall|j: int| 0 <= j < r@.len() implies #[trigger] r@[j] < 10 by {
                if j < before.len() {
                    assert(r@[j] == before[j]);
                }
            }
        }
        r
    }
}

/// The integer `x` as a decimal number.
pub fn decimal_of_int(x: i128) -> (r: Decimal)
    ensures
        r.well_formed(),
        r.mantissa() == x,
        r.exponent == 0,
{
    let magnitude: u128 = if x >= 0 { x as u128 } else { ((-(x + 1)) as u128) + 1 };
    let digits = digits_of(magnitude);
    Decimal { negative: x < 0, digits, exponent: 0 }
}

} // verus!
