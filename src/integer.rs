use vstd::prelude::*;

verus! {

/// An integer of any size: a sign and its decimal digits, least significant
/// first, with no leading zero; zero has no digits and is not negative.
#[derive(Debug, PartialEq)]
pub struct Integer {
    negative: bool,
    digits: Vec<u8>,
}

/// The value of the digits `s[i..]`, least significant first.
pub open spec fn mag_from(s: Seq<u8>, i: int) -> int
    decreases s.len() - i,
{
    if 0 <= i < s.len() {
        s[i] + 10 * mag_from(s, i + 1)
    } else {
        0
    }
}

pub open spec fn mag(s: Seq<u8>) -> int {
    mag_from(s, 0)
}

pub open spec fn pow10(k: nat) -> int
    decreases k,
{
    if k == 0 {
        1
    } else {
        10 * pow10((k - 1) as nat)
    }
}

/// Every element is a decimal digit.
pub open spec fn decimal(s: Seq<u8>) -> bool {
    forall|i: int| 0 <= i < s.len() ==> #[trigger] s[i] < 10
}

/// Decimal digits without a leading zero.
pub open spec fn normal(s: Seq<u8>) -> bool {
    decimal(s) && (s.len() > 0 ==> s.last() != 0)
}

/// Division of integers, truncated toward zero.
pub open spec fn trunc_div(x: int, y: int) -> int {
    let q = (if x < 0 { -x } else { x }) / (if y < 0 { -y } else { y });
    if (x < 0) != (y < 0) {
        -q
    } else {
        q
    }
}

impl Integer {
    #[verifier::type_invariant]
    spec fn well_formed(self) -> bool {
        normal(self.digits@) && (self.negative ==> self.digits@.len() > 0)
    }
}

impl View for Integer {
    type V = int;

    closed spec fn view(&self) -> int {
        if self.negative {
            -mag(self.digits@)
        } else {
            mag(self.digits@)
        }
    }
}

proof fn lemma_mag_nonneg(s: Seq<u8>, i: int)
    ensures
        mag_from(s, i) >= 0,
    decreases s.len() - i,
{
    if 0 <= i < s.len() {
        lemma_mag_nonneg(s, i + 1);
    }
}

proof fn lemma_mag_bound(s: Seq<u8>, i: int)
    requires
        decimal(s),
        0 <= i <= s.len(),
    ensures
        0 <= mag_from(s, i) < pow10((s.len() - i) as nat),
    decreases s.len() - i,
{
    if i < s.len() {
        lemma_mag_bound(s, i + 1);
        assert(s[i] < 10);
    }
}

proof fn lemma_mag_positive(s: Seq<u8>, i: int)
    requires
        normal(s),
        0 <= i < s.len(),
    ensures
        mag_from(s, i) >= 1,
        i + 1 < s.len() ==> mag_from(s, i) >= 10,
    decreases s.len() - i,
{
    lemma_mag_nonneg(s, i + 1);
    if i + 1 < s.len() {
        lemma_mag_positive(s, i + 1);
    }
}

/// A trailing zero adds nothing.
proof fn lemma_mag_trailing_zero(s: Seq<u8>, i: int)
    requires
        s.len() > 0,
        s.last() == 0,
        0 <= i,
    ensures
        mag_from(s, i) == mag_from(s.drop_last(), i),
    decreases s.len() - i,
{
    let t = s.drop_last();
    if i < s.len() - 1 {
        lemma_mag_trailing_zero(s, i + 1);
        assert(t[i] == s[i]);
    } else if i == s.len() - 1 {
        assert(mag_from(s, i + 1) == 0);
        assert(mag_from(t, i) == 0);
    }
}

proof fn lemma_mag_prepend(d: u8, s: Seq<u8>)
    ensures
        mag(seq![d] + s) == d + 10 * mag(s),
{
    let t = seq![d] + s;
    lemma_mag_shift(d, s, 1);
    assert(t[0] == d);
}

proof fn lemma_mag_shift(d: u8, s: Seq<u8>, i: int)
    requires
        1 <= i,
    ensures
        mag_from(seq![d] + s, i) == mag_from(s, i - 1),
    decreases s.len() + 1 - i,
{
    if i < s.len() + 1 {
        lemma_mag_shift(d, s, i + 1);
        assert((seq![d] + s)[i] == s[i - 1]);
    }
}

/// Drops leading zeros.
fn trim(v: &mut Vec<u8>)
    requires
        decimal(old(v)@),
    ensures
        normal(final(v)@),
        mag(final(v)@) == mag(old(v)@),
{
    while v.len() > 0 && v[v.len() - 1] == 0
        invariant
            decimal(v@),
            mag(v@) == mag(old(v)@),
        decreases v.len(),
    {
        proof { lemma_mag_trailing_zero(v@, 0); }
        v.pop();
    }
}

/// Digits of `a[i..] + b[i..] + carry`.
fn add_from(a: &Vec<u8>, b: &Vec<u8>, i: usize, carry: u8) -> (r: Vec<u8>)
    requires
        decimal(a@),
        decimal(b@),
        carry <= 1,
    ensures
        decimal(r@),
        mag(r@) == mag_from(a@, i as int) + mag_from(b@, i as int) + carry,
    decreases (if a.len() > b.len() { a.len() } else { b.len() }) - i,
{
    if i >= a.len() && i >= b.len() {
        let mut r: Vec<u8> = Vec::new();
        if carry > 0 {
            r.push(carry);
        }
        proof {
            if carry > 0 {
                lemma_mag_prepend(carry, Seq::empty());
                assert(seq![carry] + Seq::<u8>::empty() =~= r@);
            }
        }
        return r;
    }
    let x: u8 = if i < a.len() { a[i] } else { 0 };
    let y: u8 = if i < b.len() { b[i] } else { 0 };
    let t: u8 = x + y + carry;
    let mut r = add_from(a, b, i + 1, t / 10);
    let ghost rest = r@;
    r.insert(0, t % 10);
    proof {
        assert(r@ =~= seq![t % 10] + rest);
        lemma_mag_prepend(t % 10, rest);
    }
    r
}

/// Digits of `a[i..] - b[i..] - borrow`, with the borrow out of the top:
/// the value is `mag(r) - (out ? 10^len(r) : 0)`.
fn sub_from(a: &Vec<u8>, b: &Vec<u8>, i: usize, borrow: u8) -> (r: (Vec<u8>, bool))
    requires
        decimal(a@),
        decimal(b@),
        borrow <= 1,
    ensures
        decimal(r.0@),
        mag(r.0@) - (if r.1 { pow10(r.0@.len()) } else { 0 }) == mag_from(a@, i as int) - mag_from(b@, i as int) - borrow,
    decreases (if a.len() > b.len() { a.len() } else { b.len() }) - i,
{
    if i >= a.len() && i >= b.len() {
        let r: Vec<u8> = Vec::new();
        proof {
            if borrow > 0 {
                assert(pow10(0) == 1);
            }
        }
        return (r, borrow > 0);
    }
    let x: u8 = if i < a.len() { a[i] } else { 0 };
    let y: u8 = if i < b.len() { b[i] } else { 0 };
    let (d, next): (u8, u8) = if x >= y + borrow { (x - y - borrow, 0) } else { (x + 10 - y - borrow, 1) };
    let (mut r, out) = sub_from(a, b, i + 1, next);
    let ghost rest = r@;
    r.insert(0, d);
    proof {
        assert(r@ =~= seq![d] + rest);
        lemma_mag_prepend(d, rest);
        assert(pow10(r@.len()) == 10 * pow10(rest.len()));
    }
    (r, out)
}

/// `a - b` for digit strings: its magnitude's digits and whether it is
/// negative.
fn sub_mag(a: &Vec<u8>, b: &Vec<u8>) -> (r: (Vec<u8>, bool))
    requires
        decimal(a@),
        decimal(b@),
    ensures
        decimal(r.0@),
        (if r.1 { -mag(r.0@) } else { mag(r.0@) }) == mag(a@) - mag(b@),
        r.1 ==> mag(a@) < mag(b@),
{
    let (r, out) = sub_from(a, b, 0, 0);
    if !out {
        return (r, false);
    }
    proof { lemma_mag_bound(r@, 0); }
    let (s, out2) = sub_from(b, a, 0, 0);
    proof {
        lemma_mag_nonneg(s@, 0);
        if out2 {
            lemma_mag_bound(s@, 0);
        }
    }
    (s, true)
}

/// Digits of `a[i..] * d + carry`.
fn mul_digit_from(a: &Vec<u8>, i: usize, d: u8, carry: u8) -> (r: Vec<u8>)
    requires
        decimal(a@),
        d < 10,
        carry < 10,
    ensures
        decimal(r@),
        mag(r@) == mag_from(a@, i as int) * d + carry,
    decreases a.len() - i,
{
    if i >= a.len() {
        let mut r: Vec<u8> = Vec::new();
        if carry > 0 {
            r.push(carry);
        }
        proof {
            if carry > 0 {
                lemma_mag_prepend(carry, Seq::empty());
                assert(seq![carry] + Seq::<u8>::empty() =~= r@);
            }
        }
        return r;
    }
    let x = a[i];
    proof {
        assert(a@[i as int] < 10);
        assert(x * d <= 81) by (nonlinear_arith)
            requires x < 10, d < 10;
    }
    let t: u8 = x * d + carry;
    let mut r = mul_digit_from(a, i + 1, d, t / 10);
    let ghost rest = r@;
    r.insert(0, t % 10);
    proof {
        assert(r@ =~= seq![t % 10] + rest);
        lemma_mag_prepend(t % 10, rest);
        let m = mag_from(a@, i + 1);
        assert((x + 10 * m) * d == x * d + 10 * (m * d)) by (nonlinear_arith);
    }
    r
}

/// The digits of `|a| * |b|`.
fn mul_mag(a: &Vec<u8>, b: &Vec<u8>) -> (r: Vec<u8>)
    requires
        decimal(a@),
        decimal(b@),
    ensures
        decimal(r@),
        mag(r@) == mag(a@) * mag(b@),
{
    let mut acc: Vec<u8> = Vec::new();
    let mut i = b.len();
    while i > 0
        invariant
            i <= b.len(),
            decimal(a@),
            decimal(b@),
            decimal(acc@),
            mag(acc@) == mag(a@) * mag_from(b@, i as int),
        decreases i,
    {
        let part = mul_digit_from(a, 0, b[i - 1], 0);
        let ghost before = acc@;
        acc.insert(0, 0);
        proof {
            assert(acc@ =~= seq![0u8] + before);
            lemma_mag_prepend(0, before);
        }
        acc = add_from(&acc, &part, 0, 0);
        proof {
            let m = mag_from(b@, i as int);
            let x = b@[i - 1];
            assert(mag(a@) * (x + 10 * m) == 10 * (mag(a@) * m) + mag(a@) * x) by (nonlinear_arith);
        }
        i = i - 1;
    }
    acc
}

/// The digits of `|a| / |b|`, rounded down.
fn div_mag(a: &Vec<u8>, b: &Vec<u8>) -> (r: Vec<u8>)
    requires
        decimal(a@),
        decimal(b@),
        mag(b@) > 0,
    ensures
        decimal(r@),
        mag(r@) == mag(a@) / mag(b@),
{
    let ghost bm = mag(b@);
    let mut q: Vec<u8> = Vec::new();
    let mut rem: Vec<u8> = Vec::new();
    let mut i = a.len();
    while i > 0
        invariant
            i <= a.len(),
            decimal(a@),
            decimal(b@),
            decimal(q@),
            decimal(rem@),
            bm == mag(b@),
            bm > 0,
            mag_from(a@, i as int) == mag(q@) * bm + mag(rem@),
            0 <= mag(rem@) < bm,
        decreases i,
    {
        let ghost r0 = rem@;
        rem.insert(0, a[i - 1]);
        proof {
            assert(rem@ =~= seq![a@[i - 1]] + r0);
            lemma_mag_prepend(a@[i - 1], r0);
            assert(a@[i - 1] < 10);
        }
        let ghost start = mag(rem@);
        let mut qd: u8 = 0;
        loop
            invariant
                decimal(rem@),
                decimal(b@),
                bm == mag(b@),
                bm > 0,
                start == qd * bm + mag(rem@),
                start < 10 * bm,
                mag(rem@) >= 0,
                qd <= 9,
            ensures
                decimal(rem@),
                start == qd * bm + mag(rem@),
                0 <= mag(rem@) < bm,
                qd <= 9,
            decreases mag(rem@),
        {
            let (d, neg) = sub_mag(&rem, b);
            if neg {
                break;
            }
            proof {
                lemma_mag_nonneg(d@, 0);
                assert((qd + 1) * bm == qd * bm + bm) by (nonlinear_arith);
                assert((qd + 1) * bm <= start) by (nonlinear_arith)
                    requires start == qd * bm + mag(rem@), mag(rem@) >= bm;
                assert(qd + 1 <= 9) by (nonlinear_arith)
                    requires (qd + 1) * bm <= start, start < 10 * bm, bm > 0;
            }
            rem = d;
            qd = qd + 1;
        }
        let ghost q0 = q@;
        q.insert(0, qd);
        proof {
            assert(q@ =~= seq![qd] + q0);
            lemma_mag_prepend(qd, q0);
            let m = mag(q0);
            assert(a@[i - 1] + 10 * (m * bm + mag(r0)) == (qd + 10 * m) * bm + mag(rem@)) by (nonlinear_arith)
                requires start == a@[i - 1] + 10 * mag(r0), start == qd * bm + mag(rem@);
        }
        i = i - 1;
    }
    proof {
        lemma_mag_nonneg(q@, 0);
        let qq = mag(q@);
        let rr = mag(rem@);
        assert(qq == mag(a@) / bm) by (nonlinear_arith)
            requires mag(a@) == qq * bm + rr, 0 <= rr < bm, qq >= 0;
    }
    q
}

impl Clone for Integer {
    fn clone(&self) -> (r: Integer)
        ensures
            r@ == self@,
    {
        self.copy()
    }
}

impl Integer {
    fn make(negative: bool, mut digits: Vec<u8>) -> (r: Integer)
        requires
            decimal(digits@),
        ensures
            r@ == if negative { -mag(digits@) } else { mag(digits@) },
    {
        trim(&mut digits);
        let neg = negative && digits.len() > 0;
        proof {
            if digits@.len() == 0 {
                assert(mag(digits@) == 0);
            }
        }
        Integer { negative: neg, digits }
    }

    /// The integer `v`.
    pub fn from_i64(v: i64) -> (r: Integer)
        ensures
            r@ == v as int,
    {
        let m: u64 = if v < 0 { (0i128 - v as i128) as u64 } else { v as u64 };
        let digits = digits_of_u64(m);
        Integer::make(v < 0, digits)
    }

    /// The integer `m`.
    pub fn from_u64(m: u64) -> (r: Integer)
        ensures
            r@ == m as int,
    {
        Integer::make(false, digits_of_u64(m))
    }

    /// Zero.
    pub fn zero() -> (r: Integer)
        ensures
            r@ == 0,
    {
        Integer::make(false, Vec::new())
    }

    /// The same integer.
    pub fn copy(&self) -> (r: Integer)
        ensures
            r@ == self@,
    {
        proof { use_type_invariant(self); }
        let mut d: Vec<u8> = Vec::new();
        let mut i: usize = 0;
        while i < self.digits.len()
            invariant
                i <= self.digits.len(),
                d@ == self.digits@.subrange(0, i as int),
            decreases self.digits.len() - i,
        {
            d.push(self.digits[i]);
            i = i + 1;
            assert(d@ =~= self.digits@.subrange(0, i as int));
        }
        assert(d@ =~= self.digits@);
        Integer::make(self.negative, d)
    }

    pub fn is_zero(&self) -> (r: bool)
        ensures
            r == (self@ == 0),
    {
        proof {
            use_type_invariant(self);
            use_type_invariant(self);
            if self.digits@.len() > 0 {
                lemma_mag_positive(self.digits@, 0);
            }
        }
        self.digits.len() == 0
    }

    pub fn is_negative(&self) -> (r: bool)
        ensures
            r == (self@ < 0),
    {
        proof {
            use_type_invariant(self);
            use_type_invariant(self);
            lemma_mag_nonneg(self.digits@, 0);
            if self.digits@.len() > 0 {
                lemma_mag_positive(self.digits@, 0);
            }
        }
        self.negative
    }

    /// Whether the two integers are equal.
    pub fn equals(&self, other: &Integer) -> (r: bool)
        ensures
            r == (self@ == other@),
    {
        let d = self.sub(other);
        d.is_zero()
    }

    /// `self + other`, exactly.
    pub fn add(&self, other: &Integer) -> (r: Integer)
        ensures
            r@ == self@ + other@,
    {
        proof {
            use_type_invariant(self);
            use_type_invariant(other);
        }
        if self.negative == other.negative {
            let d = add_from(&self.digits, &other.digits, 0, 0);
            Integer::make(self.negative, d)
        } else {
            let (d, neg) = sub_mag(&self.digits, &other.digits);
            Integer::make(neg != self.negative, d)
        }
    }

    /// `-self`.
    pub fn neg(&self) -> (r: Integer)
        ensures
            r@ == -self@,
    {
        let c = self.copy();
        proof { use_type_invariant(&c); }
        let neg = !c.negative;
        Integer::make(neg, c.digits)
    }

    /// `self - other`, exactly.
    pub fn sub(&self, other: &Integer) -> (r: Integer)
        ensures
            r@ == self@ - other@,
    {
        self.add(&other.neg())
    }

    /// `self * other`, exactly.
    pub fn mul(&self, other: &Integer) -> (r: Integer)
        ensures
            r@ == self@ * other@,
    {
        proof {
            use_type_invariant(self);
            use_type_invariant(other);
            lemma_mag_nonneg(self.digits@, 0);
            lemma_mag_nonneg(other.digits@, 0);
            let a = mag(self.digits@);
            let b = mag(other.digits@);
            assert((-a) * b == -(a * b) && a * (-b) == -(a * b) && (-a) * (-b) == a * b) by (nonlinear_arith);
        }
        let d = mul_mag(&self.digits, &other.digits);
        Integer::make(self.negative != other.negative, d)
    }

    /// `self / other`, truncated toward zero.
    pub fn div(&self, other: &Integer) -> (r: Integer)
        requires
            other@ != 0,
        ensures
            r@ == trunc_div(self@, other@),
    {
        proof {
            use_type_invariant(self);
            use_type_invariant(other);
            lemma_mag_nonneg(self.digits@, 0);
            lemma_mag_nonneg(other.digits@, 0);
        }
        let d = div_mag(&self.digits, &other.digits);
        Integer::make(self.negative != other.negative, d)
    }

    /// The decimal digits, most significant first, as characters.
    pub fn push_decimal(&self, out: &mut Vec<char>)
        ensures
            final(out)@ == old(out)@ + decimal_text(self@),
    {
        proof {
            use_type_invariant(self);
            use_type_invariant(self);
        }
        if self.negative {
            out.push('-');
        }
        if self.digits.len() == 0 {
            out.push('0');
            proof {
                assert(digits_of(0) =~= seq!['0']);
            }
            return;
        }
        let ghost s = self.digits@;
        let ghost o0 = out@;
        let mut i = self.digits.len();
        proof {
            assert(rdigits(s, i as int) =~= Seq::<char>::empty());
        }
        while i > 0
            invariant
                i <= s.len(),
                s == self.digits@,
                normal(s),
                out@ == o0 + rdigits(s, i as int),
            decreases i,
        {
            out.push(digit_to_char(self.digits[i - 1]));
            i = i - 1;
            proof {
                assert(out@ =~= o0 + rdigits(s, i as int));
            }
        }
        proof {
            lemma_digits_of_mag(s, 0);
            lemma_mag_nonneg(s, 0);
            lemma_mag_positive(s, 0);
            if self.negative {
                assert(out@ =~= old(out)@ + (seq!['-'] + digits_of(mag(s) as nat)));
            } else {
                assert(out@ =~= old(out)@ + digits_of(mag(s) as nat));
            }
        }
    }
}

/// The character of a decimal digit.
pub open spec fn digit_char(d: u8) -> char {
    if d == 0 { '0' } else if d == 1 { '1' } else if d == 2 { '2' } else if d == 3 { '3' } else if d == 4 { '4' }
    else if d == 5 { '5' } else if d == 6 { '6' } else if d == 7 { '7' } else if d == 8 { '8' } else { '9' }
}

/// The decimal digits of `n`, most significant first.
pub open spec fn digits_of(n: nat) -> Seq<char>
    decreases n,
{
    if n < 10 {
        seq![digit_char(n as u8)]
    } else {
        digits_of(n / 10).push(digit_char((n % 10) as u8))
    }
}

fn digit_to_char(d: u8) -> (c: char)
    ensures
        c == digit_char(d),
{
    if d == 0 { '0' } else if d == 1 { '1' } else if d == 2 { '2' } else if d == 3 { '3' } else if d == 4 { '4' }
    else if d == 5 { '5' } else if d == 6 { '6' } else if d == 7 { '7' } else if d == 8 { '8' } else { '9' }
}

/// The decimal form of an integer.
pub open spec fn decimal_text(i: int) -> Seq<char> {
    if i < 0 {
        seq!['-'] + digits_of((-i) as nat)
    } else {
        digits_of(i as nat)
    }
}

/// The characters of `s[i..]`, most significant first.
pub open spec fn rdigits(s: Seq<u8>, i: int) -> Seq<char>
    decreases s.len() - i,
{
    if 0 <= i < s.len() {
        rdigits(s, i + 1).push(digit_char(s[i]))
    } else {
        Seq::empty()
    }
}

proof fn lemma_digits_of_mag(s: Seq<u8>, i: int)
    requires
        normal(s),
        0 <= i < s.len(),
    ensures
        digits_of(mag_from(s, i) as nat) == rdigits(s, i),
    decreases s.len() - i,
{
    lemma_mag_nonneg(s, i + 1);
    lemma_mag_positive(s, i);
    assert(s[i] < 10);
    let n = mag_from(s, i);
    if i + 1 < s.len() {
        lemma_digits_of_mag(s, i + 1);
        assert(n / 10 == mag_from(s, i + 1));
        assert(n % 10 == s[i]);
    } else {
        assert(mag_from(s, i + 1) == 0);
        assert(rdigits(s, i + 1) =~= Seq::<char>::empty());
    }
}

/// The digits of `m`, least significant first, without leading zero.
fn digits_of_u64(m: u64) -> (r: Vec<u8>)
    ensures
        normal(r@),
        mag(r@) == m,
    decreases m,
{
    if m == 0 {
        return Vec::new();
    }
    let mut r = digits_of_u64(m / 10);
    let ghost rest = r@;
    let d = (m % 10) as u8;
    r.insert(0, d);
    proof {
        assert(r@ =~= seq![d] + rest);
        lemma_mag_prepend(d, rest);
        if rest.len() == 0 {
            assert(mag(rest) == 0);
        }
    }
    r
}

} // verus!
