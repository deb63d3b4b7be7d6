use vstd::prelude::*;
use vstd::string::StrSliceExecFns;

verus! {

/// `c` is one of the ASCII digits `0` to `9`.
pub open spec fn is_digit(c: char) -> bool {
    '0' <= c <= '9'
}

/// The value of a single digit.
pub open spec fn digit_value(c: char) -> nat {
    (c as nat - '0' as nat) as nat
}

/// The value of a run of decimal digits, most significant digit first.
pub open spec fn numeral_value(s: Seq<char>) -> nat
    decreases s.len(),
{
    if s.len() == 0 {
        0
    } else {
        numeral_value(s.drop_last()) * 10 + digit_value(s.last())
    }
}

/// Ten to the power `n`.
pub open spec fn pow10(n: nat) -> nat
    decreases n,
{
    if n == 0 {
        1
    } else {
        10 * pow10((n - 1) as nat)
    }
}

proof fn lemma_value_concat(a: Seq<char>, b: Seq<char>)
    ensures
        numeral_value(a + b) == numeral_value(a) * pow10(b.len()) + numeral_value(b),
    decreases b.len(),
{
    if b.len() == 0 {
        assert(a + b =~= a);
        assert(pow10(0) == 1);
        assert(numeral_value(b) == 0);
        assert(numeral_value(a) * 1 == numeral_value(a));
    } else {
        let ab = a + b;
        assert(ab.drop_last() =~= a + b.drop_last());
        assert(ab.last() == b.last());
        lemma_value_concat(a, b.drop_last());
        let p = pow10(b.drop_last().len());
        assert(pow10(b.len()) == 10 * p);
        let va = numeral_value(a);
        let vb = numeral_value(b.drop_last());
        let d = digit_value(b.last());
        assert(numeral_value(ab.drop_last()) == va * p + vb);
        assert(numeral_value(ab) == numeral_value(ab.drop_last()) * 10 + d);
        assert(numeral_value(b) == vb * 10 + d);
        assert((va * p + vb) * 10 + d == va * (10 * p) + (vb * 10 + d)) by (nonlinear_arith);
    }
}

proof fn lemma_value_bound(s: Seq<char>)
    requires
        forall|i: int| 0 <= i < s.len() ==> is_digit(#[trigger] s[i]),
    ensures
        numeral_value(s) < pow10(s.len()),
    decreases s.len(),
{
    if s.len() > 0 {
        let t = s.drop_last();
        assert forall|i: int| 0 <= i < t.len() implies is_digit(#[trigger] t[i]) by {
            assert(t[i] == s[i]);
        }
        lemma_value_bound(t);
        assert(is_digit(s[s.len() - 1]));
        let v = numeral_value(t);
        let p = pow10(t.len());
        assert(v * 10 + 9 < 10 * p) by (nonlinear_arith)
            requires
                v < p,
        ;
    }
}

/// `n` zeros.
spec fn zeros(n: nat) -> Seq<char> {
    Seq::new(n, |i: int| '0')
}

/// `s` written with `n` digits, padded on the left with zeros.
spec fn padded(s: Seq<char>, n: nat) -> Seq<char> {
    zeros((n - s.len()) as nat) + s
}

proof fn lemma_zeros_value(n: nat)
    ensures
        numeral_value(zeros(n)) == 0,
    decreases n,
{
    if n > 0 {
        let z = zeros(n);
        assert(z.drop_last() =~= zeros((n - 1) as nat));
        lemma_zeros_value((n - 1) as nat);
    }
}

proof fn lemma_padded_value(s: Seq<char>, n: nat)
    requires
        s.len() <= n,
    ensures
        numeral_value(padded(s, n)) == numeral_value(s),
        padded(s, n).len() == n,
{
    lemma_zeros_value((n - s.len()) as nat);
    lemma_value_concat(zeros((n - s.len()) as nat), s);
}

proof fn lemma_padded_digits(s: Seq<char>, n: nat)
    requires
        s.len() <= n,
        forall|j: int| 0 <= j < s.len() ==> is_digit(#[trigger] s[j]),
    ensures
        forall|j: int| 0 <= j < n ==> is_digit(#[trigger] padded(s, n)[j]),
{
    assert forall|j: int| 0 <= j < n implies is_digit(#[trigger] padded(s, n)[j]) by {
        if j >= n - s.len() {
            assert(padded(s, n)[j] == s[j - (n - s.len())]);
        }
    }
}

/// Where two digit strings of one length first differ, the larger digit
/// makes the larger value.
proof fn lemma_first_difference(a: Seq<char>, b: Seq<char>, i: int)
    requires
        a.len() == b.len(),
        0 <= i < a.len(),
        a.subrange(0, i) == b.subrange(0, i),
        forall|j: int| 0 <= j < a.len() ==> is_digit(#[trigger] a[j]),
        forall|j: int| 0 <= j < b.len() ==> is_digit(#[trigger] b[j]),
        digit_value(a[i]) > digit_value(b[i]),
    ensures
        numeral_value(a) > numeral_value(b),
{
    let n = a.len() as int;
    let ra = a.subrange(i + 1, n);
    let rb = b.subrange(i + 1, n);
    let pa = a.subrange(0, i + 1);
    let pb = b.subrange(0, i + 1);
    assert(a =~= pa + ra);
    assert(b =~= pb + rb);
    lemma_value_concat(pa, ra);
    lemma_value_concat(pb, rb);
    assert(pa.drop_last() =~= a.subrange(0, i));
    assert(pb.drop_last() =~= b.subrange(0, i));
    assert forall|j: int| 0 <= j < rb.len() implies is_digit(#[trigger] rb[j]) by {
        assert(rb[j] == b[i + 1 + j]);
    }
    lemma_value_bound(rb);
    let va = numeral_value(pa);
    let vb = numeral_value(pb);
    let p = pow10(ra.len());
    assert(va >= vb + 1);
    assert(va * p >= vb * p + p) by (nonlinear_arith)
        requires
            va >= vb + 1,
    ;
}

/// Whether the value of the digit string `a` exceeds that of `b`. Strings of
/// any length are compared; leading zeros do not count.
fn digits_greater(a: &Vec<char>, b: &Vec<char>) -> (r: bool)
    requires
        forall|j: int| 0 <= j < a@.len() ==> is_digit(#[trigger] a@[j]),
        forall|j: int| 0 <= j < b@.len() ==> is_digit(#[trigger] b@[j]),
    ensures
        r == (numeral_value(a@) > numeral_value(b@)),
{
    let la = a.len();
    let lb = b.len();
    let n: usize = if la > lb { la } else { lb };
    let ghost pa = padded(a@, n as nat);
    let ghost pb = padded(b@, n as nat);
    proof {
        lemma_padded_value(a@, n as nat);
        lemma_padded_value(b@, n as nat);
        lemma_padded_digits(a@, n as nat);
        lemma_padded_digits(b@, n as nat);
    }
    let mut i: usize = 0;
    while i < n
        invariant
            n == pa.len(),
            n == pb.len(),
            la == a@.len(),
            lb == b@.len(),
            la <= n,
            lb <= n,
            pa == padded(a@, n as nat),
            pb == padded(b@, n as nat),
            numeral_value(pa) == numeral_value(a@),
            numeral_value(pb) == numeral_value(b@),
            i <= n,
            pa.subrange(0, i as int) == pb.subrange(0, i as int),
            forall|j: int| 0 <= j < n ==> is_digit(#[trigger] pa[j]),
            forall|j: int| 0 <= j < n ==> is_digit(#[trigger] pb[j]),
        decreases n - i,
    {
        let ca = if i < n - la { '0' } else { a[i - (n - la)] };
        let cb = if i < n - lb { '0' } else { b[i - (n - lb)] };
        assert(ca == pa[i as int]);
        assert(cb == pb[i as int]);
        if ca > cb {
            proof {
                lemma_first_difference(pa, pb, i as int);
            }
            return true;
        }
        if ca < cb {
            proof {
                lemma_first_difference(pb, pa, i as int);
            }
            return false;
        }
        proof {
            assert(pa.subrange(0, i + 1) =~= pa.subrange(0, i as int).push(pa[i as int]));
            assert(pb.subrange(0, i + 1) =~= pb.subrange(0, i as int).push(pb[i as int]));
        }
        i = i + 1;
    }
    proof {
        assert(pa =~= pa.subrange(0, n as int));
        assert(pb =~= pb.subrange(0, n as int));
    }
    false
}

/// `s` without a leading sign `-` or `+`.
pub open spec fn unsigned_part(s: Seq<char>) -> Seq<char> {
    if s.len() > 0 && (s[0] == '-' || s[0] == '+') {
        s.drop_first()
    } else {
        s
    }
}

/// `s` starts with a minus sign.
pub open spec fn is_negative(s: Seq<char>) -> bool {
    s.len() > 0 && s[0] == '-'
}

/// `u` is a run of one or more digits that ends at `k`, and is either all of
/// `u` or followed by a point and one or more digits that end `u`.
pub open spec fn splits_at(u: Seq<char>, k: int) -> bool {
    &&& 0 < k <= u.len()
    &&& forall|i: int| 0 <= i < k ==> is_digit(#[trigger] u[i])
    &&& k == u.len() || (u[k] == '.' && k + 1 < u.len() && forall|i: int|
        k < i < u.len() ==> is_digit(#[trigger] u[i]))
}

/// `s` is a decimal numeral: an optional sign, one or more digits, and
/// optionally a point followed by one or more digits.
pub open spec fn is_decimal(s: Seq<char>) -> bool {
    exists|k: int| splits_at(unsigned_part(s), k)
}

/// Where the integer digits of a decimal numeral end.
pub open spec fn point_of(s: Seq<char>) -> int {
    choose|k: int| splits_at(unsigned_part(s), k)
}

/// The digits after the point of a decimal numeral (none if it has no point).
pub open spec fn fraction_digits(s: Seq<char>) -> Seq<char> {
    let u = unsigned_part(s);
    if point_of(s) < u.len() {
        u.subrange(point_of(s) + 1, u.len() as int)
    } else {
        Seq::empty()
    }
}

/// The digits of a decimal numeral with the point taken out.
pub open spec fn magnitude_digits(s: Seq<char>) -> Seq<char> {
    unsigned_part(s).subrange(0, point_of(s)) + fraction_digits(s)
}

/// A decimal numeral's value times ten to the number of its fraction digits:
/// the value of `s` is `scaled_value(s) / pow10(fraction_digits(s).len())`.
pub open spec fn scaled_value(s: Seq<char>) -> int {
    if is_negative(s) {
        -numeral_value(magnitude_digits(s))
    } else {
        numeral_value(magnitude_digits(s)) as int
    }
}

/// `a` and `b` are decimal numerals and the value of `a` exceeds that of `b`,
/// compared by cross-multiplying the scaled values.
pub open spec fn decimal_greater(a: Seq<char>, b: Seq<char>) -> bool {
    &&& is_decimal(a)
    &&& is_decimal(b)
    &&& scaled_value(a) * pow10(fraction_digits(b).len()) > scaled_value(b) * pow10(
        fraction_digits(a).len(),
    )
}

/// The run of digits that a split point closes is the longest one at the start.
proof fn lemma_split_unique(u: Seq<char>, k1: int, k2: int)
    requires
        splits_at(u, k1),
        0 <= k2 <= u.len(),
        forall|i: int| 0 <= i < k2 ==> is_digit(#[trigger] u[i]),
        k2 == u.len() || !is_digit(u[k2]),
    ensures
        k1 == k2,
{
    if k1 < k2 {
        assert(is_digit(u[k1]));
    } else if k2 < k1 {
        assert(is_digit(u[k2]));
    }
}

/// The sign, the digits without the point, and the number of fraction digits
/// of a decimal numeral; `None` if `s` is not one.
fn parse_decimal(s: &str) -> (r: Option<(bool, Vec<char>, usize)>)
    ensures
        r is Some <==> is_decimal(s@),
        r matches Some((neg, d, f)) ==> neg == is_negative(s@) && d@ == magnitude_digits(s@)
            && f == fraction_digits(s@).len(),
{
    let len = s.unicode_len();
    let mut cs: Vec<char> = Vec::new();
    let mut j: usize = 0;
    while j < len
        invariant
            len == s@.len(),
            j <= len,
            cs@ == s@.subrange(0, j as int),
        decreases len - j,
    {
        cs.push(s.get_char(j));
        j = j + 1;
    }
    assert(cs@ =~= s@);
    let neg = len > 0 && cs[0] == '-';
    let start: usize = if len > 0 && (cs[0] == '-' || cs[0] == '+') { 1 } else { 0 };
    let ghost u = cs@.subrange(start as int, len as int);
    assert(u =~= unsigned_part(s@));
    let mut digits: Vec<char> = Vec::new();
    let mut k: usize = start;
    while k < len && '0' <= cs[k] && cs[k] <= '9'
        invariant
            len == cs@.len(),
            start <= k <= len,
            u == cs@.subrange(start as int, len as int),
            digits@ == cs@.subrange(start as int, k as int),
            forall|i: int| 0 <= i < k - start ==> is_digit(#[trigger] u[i]),
        decreases len - k,
    {
        digits.push(cs[k]);
        proof {
            assert(u[k - start] == cs@[k as int]);
        }
        k = k + 1;
    }
    let ghost kk = k - start;
    proof {
        if k < len {
            assert(u[kk] == cs@[k as int]);
        }
        assert forall|k1: int| !(#[trigger] splits_at(u, k1)) || k1 == kk by {
            if splits_at(u, k1) {
                lemma_split_unique(u, k1, kk);
            }
        }
    }
    if k == start {
        return None;
    }
    if k == len {
        proof {
            assert(splits_at(u, kk));
            assert(digits@ =~= magnitude_digits(s@));
        }
        return Some((neg, digits, 0));
    }
    if cs[k] != '.' || k + 1 >= len {
        return None;
    }
    let mut m: usize = k + 1;
    while m < len
        invariant
            len == cs@.len(),
            start < k < m <= len,
            u == cs@.subrange(start as int, len as int),
            u.len() == len - start,
            u == unsigned_part(s@),
            kk == k - start,
            forall|k1: int| #[trigger] splits_at(u, k1) ==> k1 == kk,
            digits@ == cs@.subrange(start as int, k as int) + cs@.subrange(k + 1, m as int),
            forall|i: int| kk < i < m - start ==> is_digit(#[trigger] u[i]),
        decreases len - m,
    {
        let c = cs[m];
        if !('0' <= c && c <= '9') {
            proof {
                assert(u[m - start] == c);
                assert(!splits_at(u, kk));
            }
            return None;
        }
        digits.push(c);
        proof {
            assert(u[m - start] == c);
            assert(digits@ =~= cs@.subrange(start as int, k as int) + cs@.subrange(
                k + 1,
                m + 1,
            ));
        }
        m = m + 1;
    }
    proof {
        assert(u[kk] == cs@[k as int]);
        assert(splits_at(u, kk));
        assert(fraction_digits(s@) =~= cs@.subrange(k + 1, len as int));
        assert(digits@ =~= magnitude_digits(s@));
    }
    Some((neg, digits, len - k - 1))
}

/// `d` followed by `n` zeros.
fn with_zeros(d: Vec<char>, n: usize) -> (r: Vec<char>)
    ensures
        r@ == d@ + zeros(n as nat),
{
    let mut r = d;
    let mut i: usize = 0;
    while i < n
        invariant
            i <= n,
            r@ == d@ + zeros(i as nat),
        decreases n - i,
    {
        r.push('0');
        i = i + 1;
        assert(r@ =~= d@ + zeros(i as nat));
    }
    r
}

proof fn lemma_scaled_digits(d: Seq<char>, n: nat)
    requires
        forall|j: int| 0 <= j < d.len() ==> is_digit(#[trigger] d[j]),
    ensures
        numeral_value(d + zeros(n)) == numeral_value(d) * pow10(n),
        forall|j: int|
            0 <= j < (d + zeros(n)).len() ==> is_digit(
                #[trigger] (d + zeros(n))[j],
            ),
{
    lemma_value_concat(d, zeros(n));
    lemma_zeros_value(n);
    assert forall|j: int| 0 <= j < (d + zeros(n)).len() implies is_digit(
        #[trigger] (d + zeros(n))[j],
    ) by {
        if j >= d.len() {
            assert((d + zeros(n))[j] == '0');
        }
    }
}

proof fn lemma_magnitude_digits(s: Seq<char>)
    requires
        is_decimal(s),
    ensures
        forall|j: int|
            0 <= j < magnitude_digits(s).len() ==> is_digit(#[trigger] magnitude_digits(s)[j]),
{
    let u = unsigned_part(s);
    let k = point_of(s);
    assert(splits_at(u, k));
    assert forall|j: int| 0 <= j < magnitude_digits(s).len() implies is_digit(
        #[trigger] magnitude_digits(s)[j],
    ) by {
        if j >= k {
            assert(magnitude_digits(s)[j] == u[j + 1]);
        } else {
            assert(magnitude_digits(s)[j] == u[j]);
        }
    }
}

/// Whether `a` and `b` are both decimal numerals and the value of `a` exceeds
/// that of `b`. Numerals of any length are compared exactly.
pub fn numeral_greater(a: &str, b: &str) -> (r: bool)
    ensures
        r == decimal_greater(a@, b@),
{
    let pa = parse_decimal(a);
    let pb = parse_decimal(b);
    match (pa, pb) {
        (Some((na, da, fa)), Some((nb, db, fb))) => {
            proof {
                lemma_magnitude_digits(a@);
                lemma_magnitude_digits(b@);
                lemma_scaled_digits(da@, fb as nat);
                lemma_scaled_digits(db@, fa as nat);
            }
            let xa = with_zeros(da, fb);
            let xb = with_zeros(db, fa);
            let ghost ma = numeral_value(xa@) as int;
            let ghost mb = numeral_value(xb@) as int;
            let ghost va = numeral_value(magnitude_digits(a@)) as int;
            let ghost vb = numeral_value(magnitude_digits(b@)) as int;
            let ghost pwa = pow10(fa as nat) as int;
            let ghost pwb = pow10(fb as nat) as int;
            proof {
                assert(ma == va * pwb);
                assert(mb == vb * pwa);
                assert((-va) * pwb == -(va * pwb)) by (nonlinear_arith);
                assert((-vb) * pwa == -(vb * pwa)) by (nonlinear_arith);
            }
            let empty: Vec<char> = Vec::new();
            proof {
                assert(numeral_value(empty@) == 0);
            }
            if !na && !nb {
                digits_greater(&xa, &xb)
            } else if na && !nb {
                false
            } else if !na && nb {
                digits_greater(&xa, &empty) || digits_greater(&xb, &empty)
            } else {
                digits_greater(&xb, &xa)
            }
        },
        _ => false,
    }
}

} // verus!
