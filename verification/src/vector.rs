use vstd::prelude::*;
use vstd::arithmetic::div_mod::{
    lemma_div_pos_is_pos, lemma_div_is_ordered_by_denominator, lemma_div_is_ordered,
    lemma_div_multiples_vanish, lemma_div_by_self,
};

use crate::errors::PhysicsError;

verus! {

/// An N-dimensional vector of `i64` components. Dimensionality is a
/// per-value, mutable property: components can be appended and removed at
/// runtime, so binary operations check that both operands have the same
/// length and report `LengthMismatch` otherwise.
#[derive(Debug)]
pub struct Vector {
    pub components: Vec<i64>,
}

impl View for Vector {
    type V = Seq<i64>;

    open spec fn view(&self) -> Seq<i64> {
        self.components@
    }
}

/// Whether a mathematical integer is representable as an `i64`.
pub open spec fn fits_i64(x: int) -> bool {
    i64::MIN <= x <= i64::MAX
}

/// Division with truncation toward zero, the semantics of `/` on `i64`.
/// (`/` on mathematical integers is Euclidean, which differs on negative
/// operands.)
pub open spec fn tdiv(x: int, d: int) -> int
    recommends
        d != 0,
{
    if x == 0 {
        0
    } else if x > 0 && d > 0 {
        x / d
    } else if x < 0 && d < 0 {
        (x * -1) / (d * -1)
    } else if x < 0 {
        ((x * -1) / d) * -1
    } else {
        (x / (d * -1)) * -1
    }
}

/// The sum of the first `k` component products of `a` and `b`.
pub open spec fn dot_prefix(a: Seq<i64>, b: Seq<i64>, k: int) -> int
    decreases k,
{
    if k <= 0 {
        0
    } else {
        dot_prefix(a, b, k - 1) + a[k - 1] * b[k - 1]
    }
}

/// The dot product of two equal-length vectors: the sum of their
/// component-wise products.
pub open spec fn dot_spec(a: Seq<i64>, b: Seq<i64>) -> int {
    dot_prefix(a, b, a.len() as int)
}

/// The component-wise difference of two equal-length vectors.
pub open spec fn diff_spec(a: Seq<i64>, b: Seq<i64>) -> Seq<i64> {
    Seq::new(a.len(), |i: int| (a[i] - b[i]) as i64)
}

/// The squared Euclidean distance of two equal-length vectors: the sum of
/// their squared component differences.
pub open spec fn dist_sq_spec(a: Seq<i64>, b: Seq<i64>) -> int {
    dot_spec(diff_spec(a, b), diff_spec(a, b))
}

/// Whether `r` is the integer square root of `s`: the greatest integer whose
/// square does not exceed `s`.
pub open spec fn is_isqrt(s: int, r: int) -> bool {
    &&& 0 <= r
    &&& r * r <= s
    &&& s < (r + 1) * (r + 1)
}

/// The integer square root of `s` (meaningful for `s >= 0`; see
/// `lemma_isqrt_exists`).
pub open spec fn isqrt(s: int) -> int {
    choose|r: int| is_isqrt(s, r)
}

/// The Euclidean norm of a vector, in the integer domain: the integer square
/// root of the sum of squared components. The fractional part of the exact
/// norm is lost; that precision loss is inherent to the integer variant.
pub open spec fn magnitude_spec(a: Seq<i64>) -> int {
    isqrt(dot_spec(a, a))
}

/// The angle, in radians rounded to the nearest integer, that the integer
/// cosine ratio `t` (already truncated by integer division and clamped to
/// [-1, 1]) stands for: a ratio of -1 is a half turn (pi rounds to 3), 0 is a
/// quarter turn (pi/2 rounds to 2), and 1 is no turn at all.
pub open spec fn angle_of_ratio(t: int) -> int {
    if t <= -1 {
        3
    } else if t == 0 {
        2
    } else {
        0
    }
}

/// The angle between two vectors in the integer domain: the arc cosine,
/// rounded to the nearest integer radian, of the dot product divided by the
/// product of the magnitudes.
pub open spec fn angle_spec(a: Seq<i64>, b: Seq<i64>) -> int {
    angle_of_ratio(tdiv(dot_spec(a, b), magnitude_spec(a) * magnitude_spec(b)))
}

/// No two integers are the integer square root of the same number.
proof fn lemma_isqrt_unique(s: int, r1: int, r2: int)
    requires
        is_isqrt(s, r1),
        is_isqrt(s, r2),
    ensures
        r1 == r2,
{
    if r1 < r2 {
        assert((r1 + 1) * (r1 + 1) <= r2 * r2) by (nonlinear_arith)
            requires
                0 <= r1 + 1 <= r2,
        ;
    }
    if r2 < r1 {
        assert((r2 + 1) * (r2 + 1) <= r1 * r1) by (nonlinear_arith)
            requires
                0 <= r2 + 1 <= r1,
        ;
    }
}

/// A witness that satisfies `is_isqrt` is what `isqrt` denotes.
proof fn lemma_isqrt_agrees(s: int, r: int)
    requires
        is_isqrt(s, r),
    ensures
        isqrt(s) == r,
{
    assert(is_isqrt(s, isqrt(s))) by {
        assert(exists|q: int| is_isqrt(s, q));
    }
    lemma_isqrt_unique(s, isqrt(s), r);
}

/// Every non-negative integer has an integer square root.
pub proof fn lemma_isqrt_exists(s: int)
    requires
        0 <= s,
    ensures
        is_isqrt(s, isqrt(s)),
    decreases s,
{
    if s == 0 {
        assert(is_isqrt(0, 0));
        lemma_isqrt_agrees(0, 0);
    } else {
        lemma_isqrt_exists(s - 1);
        let r = isqrt(s - 1);
        if (r + 1) * (r + 1) <= s {
            assert(s - 1 < (r + 1) * (r + 1));
            assert(s < (r + 2) * (r + 2)) by (nonlinear_arith)
                requires
                    0 <= r,
                    s <= (r + 1) * (r + 1),
            ;
            assert(is_isqrt(s, r + 1));
            lemma_isqrt_agrees(s, r + 1);
        } else {
            assert(is_isqrt(s, r));
            lemma_isqrt_agrees(s, r);
        }
    }
}

/// Truncating division of representable operands gives a representable
/// quotient, apart from the one excluded overflow case.
proof fn lemma_tdiv_fits(x: int, d: int)
    requires
        fits_i64(x),
        fits_i64(d),
        d != 0,
        !(x == i64::MIN && d == -1),
    ensures
        fits_i64(tdiv(x, d)),
{
    if x == 0 {
    } else if x > 0 && d > 0 {
        lemma_div_pos_is_pos(x, d);
        lemma_div_is_ordered_by_denominator(x, 1, d);
    } else if x < 0 && d < 0 {
        let u = x * -1;
        let e = d * -1;
        lemma_div_pos_is_pos(u, e);
        if e == 1 {
            // d == -1, so x != i64::MIN and u <= i64::MAX.
            lemma_div_is_ordered_by_denominator(u, 1, e);
        } else {
            lemma_div_is_ordered_by_denominator(u, 2, e);
            lemma_div_is_ordered(u, 0x8000_0000_0000_0000, 2);
            assert(0x8000_0000_0000_0000int / 2 == 0x4000_0000_0000_0000) by {
                lemma_div_multiples_vanish(0x4000_0000_0000_0000, 2);
            }
        }
    } else if x < 0 {
        let u = x * -1;
        lemma_div_pos_is_pos(u, d);
        lemma_div_is_ordered_by_denominator(u, 1, d);
    } else {
        let e = d * -1;
        lemma_div_pos_is_pos(x, e);
        lemma_div_is_ordered_by_denominator(x, 1, e);
    }
}

/// Truncating division on `i64`, through `i64::checked_div`, whose result
/// Verus specifies.
fn div_i64(a: i64, b: i64) -> (r: i64)
    requires
        b != 0,
        !(a == i64::MIN && b == -1),
    ensures
        r == tdiv(a as int, b as int),
{
    proof {
        lemma_tdiv_fits(a as int, b as int);
    }
    match a.checked_div(b) {
        Some(q) => q,
        None => {
            proof {
                assert(false);
            }
            0
        },
    }
}

/// A prefix sum of squares is never negative.
proof fn lemma_sq_prefix_nonneg(a: Seq<i64>, k: int)
    requires
        k <= a.len(),
    ensures
        dot_prefix(a, a, k) >= 0,
    decreases k,
{
    if k > 0 {
        lemma_sq_prefix_nonneg(a, k - 1);
        assert(a[k - 1] * a[k - 1] >= 0) by (nonlinear_arith);
    }
}

/// The integer square root of a non-negative `i64`, by binary search. The
/// upper bound of the search is the integer square root of `i64::MAX`.
fn isqrt_i64(s: i64) -> (r: i64)
    requires
        s >= 0,
    ensures
        0 <= r <= 3037000499,
        is_isqrt(s as int, r as int),
        r == isqrt(s as int),
{
    let su: u64 = s as u64;
    let mut lo: u64 = 0;
    let mut hi: u64 = 3037000499;
    while lo < hi
        invariant
            lo <= hi <= 3037000499,
            su == s as u64,
            su as int == s as int,
            (lo as int) * (lo as int) <= su as int,
            (su as int) < ((hi as int) + 1) * ((hi as int) + 1),
        decreases hi - lo,
    {
        let mid = lo + (hi - lo + 1) / 2;
        proof {
            assert(lo < mid <= hi);
            assert((mid as int) * (mid as int) <= 3037000499int * 3037000499int)
                by (nonlinear_arith)
                requires
                    0 <= mid <= 3037000499u64,
            ;
        }
        if mid * mid <= su {
            lo = mid;
        } else {
            hi = mid - 1;
        }
    }
    let r = lo as i64;
    proof {
        lemma_isqrt_agrees(s as int, r as int);
    }
    r
}

impl Default for Vector {
    /// The zero-length vector.
    fn default() -> (r: Vector)
        ensures
            r@ == Seq::<i64>::empty(),
    {
        Vector { components: Vec::new() }
    }
}

impl Clone for Vector {
    fn clone(&self) -> (r: Vector)
        ensures
            r@ == self@,
    {
        let mut out: Vec<i64> = Vec::new();
        let mut i: usize = 0;
        while i < self.components.len()
            invariant
                i <= self@.len(),
                out@ == self@.take(i as int),
            decreases self@.len() - i,
        {
            out.push(self.components[i]);
            proof {
                assert(out@ =~= self@.take(i + 1 as int));
            }
            i += 1;
        }
        proof {
            assert(out@ =~= self@);
        }
        Vector { components: out }
    }
}

impl PartialEq for Vector {
    /// Vectors are equal when they have the same length and the same
    /// components; a shared prefix of unequal-length vectors does not count
    /// as equality.
    fn eq(&self, other: &Vector) -> (r: bool) {
        if self.components.len() != other.components.len() {
            return false;
        }
        let mut i: usize = 0;
        while i < self.components.len()
            invariant
                i <= self@.len(),
                self@.len() == other@.len(),
                forall|k: int| 0 <= k < i ==> self@[k] == other@[k],
            decreases self@.len() - i,
        {
            if self.components[i] != other.components[i] {
                return false;
            }
            i += 1;
        }
        proof {
            assert(self@ =~= other@);
        }
        true
    }
}

impl Eq for Vector {

}

impl vstd::std_specs::cmp::PartialEqSpecImpl for Vector {
    open spec fn obeys_eq_spec() -> bool {
        true
    }

    open spec fn eq_spec(&self, other: &Vector) -> bool {
        self@ == other@
    }
}

/// The greatest component at position `c` among the first `k` of the given
/// vectors.
pub open spec fn col_max(vs: Seq<Vector>, k: int, c: int) -> int
    recommends
        1 <= k <= vs.len(),
    decreases k,
{
    if k <= 1 {
        vs[0]@[c] as int
    } else {
        let m = col_max(vs, k - 1, c);
        if vs[k - 1]@[c] > m {
            vs[k - 1]@[c] as int
        } else {
            m
        }
    }
}

/// The least component at position `c` among the first `k` of the given
/// vectors.
pub open spec fn col_min(vs: Seq<Vector>, k: int, c: int) -> int
    recommends
        1 <= k <= vs.len(),
    decreases k,
{
    if k <= 1 {
        vs[0]@[c] as int
    } else {
        let m = col_min(vs, k - 1, c);
        if vs[k - 1]@[c] < m {
            vs[k - 1]@[c] as int
        } else {
            m
        }
    }
}

/// The column maximum bounds every column entry from above and is one of
/// them: what `max_components` returns at each position is at least every
/// input's component there, and is some input's component.
pub proof fn lemma_col_max_attained(vs: Seq<Vector>, k: int, c: int)
    requires
        1 <= k <= vs.len(),
    ensures
        forall|q: int| 0 <= q < k ==> col_max(vs, k, c) >= (#[trigger] vs[q]@)[c],
        exists|q: int| 0 <= q < k && col_max(vs, k, c) == #[trigger] vs[q]@[c],
    decreases k,
{
    if k == 1 {
        assert(col_max(vs, 1, c) == vs[0]@[c]);
    } else {
        lemma_col_max_attained(vs, k - 1, c);
        if vs[k - 1]@[c] > col_max(vs, k - 1, c) {
            assert(col_max(vs, k, c) == vs[k - 1]@[c]);
        }
    }
}

/// The column minimum bounds every column entry from below and is one of
/// them: what `min_components` returns at each position is at most every
/// input's component there, and is some input's component.
pub proof fn lemma_col_min_attained(vs: Seq<Vector>, k: int, c: int)
    requires
        1 <= k <= vs.len(),
    ensures
        forall|q: int| 0 <= q < k ==> col_min(vs, k, c) <= (#[trigger] vs[q]@)[c],
        exists|q: int| 0 <= q < k && col_min(vs, k, c) == #[trigger] vs[q]@[c],
    decreases k,
{
    if k == 1 {
        assert(col_min(vs, 1, c) == vs[0]@[c]);
    } else {
        lemma_col_min_attained(vs, k - 1, c);
        if vs[k - 1]@[c] < col_min(vs, k - 1, c) {
            assert(col_min(vs, k, c) == vs[k - 1]@[c]);
        }
    }
}

impl Vector {
    /// A vector with exactly the given components.
    pub fn new(components: Vec<i64>) -> (r: Vector)
        ensures
            r@ == components@,
    {
        Vector { components }
    }

    /// The number of components.
    pub fn len(&self) -> (r: usize)
        ensures
            r == self@.len(),
    {
        self.components.len()
    }

    /// The component-wise sum. `LengthMismatch` exactly when the operands'
    /// lengths differ.
    pub fn add(&self, other: &Vector) -> (r: Result<Vector, PhysicsError>)
        requires
            self@.len() == other@.len() ==> forall|i: int|
                0 <= i < self@.len() ==> fits_i64(self@[i] + other@[i]),
        ensures
            match r {
                Ok(v) => {
                    &&& self@.len() == other@.len()
                    &&& v@.len() == self@.len()
                    &&& forall|i: int| 0 <= i < v@.len() ==> v@[i] == self@[i] + other@[i]
                },
                Err(e) => e == PhysicsError::LengthMismatch && self@.len() != other@.len(),
            },
    {
        if self.components.len() != other.components.len() {
            return Err(PhysicsError::LengthMismatch);
        }
        let n = self.components.len();
        let mut out: Vec<i64> = Vec::new();
        let mut i: usize = 0;
        while i < n
            invariant
                n == self@.len(),
                n == other@.len(),
                i <= n,
                out@.len() == i,
                forall|k: int| 0 <= k < n ==> fits_i64(self@[k] + other@[k]),
                forall|k: int| 0 <= k < i ==> out@[k] == self@[k] + other@[k],
            decreases n - i,
        {
            out.push(self.components[i] + other.components[i]);
            i += 1;
        }
        Ok(Vector { components: out })
    }

    /// The component-wise difference. `LengthMismatch` exactly when the
    /// operands' lengths differ.
    pub fn sub(&self, other: &Vector) -> (r: Result<Vector, PhysicsError>)
        requires
            self@.len() == other@.len() ==> forall|i: int|
                0 <= i < self@.len() ==> fits_i64(self@[i] - other@[i]),
        ensures
            match r {
                Ok(v) => {
                    &&& self@.len() == other@.len()
                    &&& v@.len() == self@.len()
                    &&& forall|i: int| 0 <= i < v@.len() ==> v@[i] == self@[i] - other@[i]
                },
                Err(e) => e == PhysicsError::LengthMismatch && self@.len() != other@.len(),
            },
    {
        if self.components.len() != other.components.len() {
            return Err(PhysicsError::LengthMismatch);
        }
        let n = self.components.len();
        let mut out: Vec<i64> = Vec::new();
        let mut i: usize = 0;
        while i < n
            invariant
                n == self@.len(),
                n == other@.len(),
                i <= n,
                out@.len() == i,
                forall|k: int| 0 <= k < n ==> fits_i64(self@[k] - other@[k]),
                forall|k: int| 0 <= k < i ==> out@[k] == self@[k] - other@[k],
            decreases n - i,
        {
            out.push(self.components[i] - other.components[i]);
            i += 1;
        }
        Ok(Vector { components: out })
    }

    /// The dot (scalar) product: the sum of the component-wise products.
    /// `LengthMismatch` exactly when the operands' lengths differ.
    pub fn dot(&self, other: &Vector) -> (r: Result<i64, PhysicsError>)
        requires
            self@.len() == other@.len() ==> {
                &&& forall|i: int| 0 <= i < self@.len() ==> fits_i64(self@[i] * other@[i])
                &&& forall|k: int| 0 <= k <= self@.len() ==> fits_i64(
                    dot_prefix(self@, other@, k),
                )
            },
        ensures
            match r {
                Ok(v) => self@.len() == other@.len() && v == dot_spec(self@, other@),
                Err(e) => e == PhysicsError::LengthMismatch && self@.len() != other@.len(),
            },
    {
        if self.components.len() != other.components.len() {
            return Err(PhysicsError::LengthMismatch);
        }
        let n = self.components.len();
        let mut acc: i64 = 0;
        let mut i: usize = 0;
        while i < n
            invariant
                n == self@.len(),
                n == other@.len(),
                i <= n,
                forall|k: int| 0 <= k < n ==> fits_i64(self@[k] * other@[k]),
                forall|k: int| 0 <= k <= n ==> fits_i64(dot_prefix(self@, other@, k)),
                acc == dot_prefix(self@, other@, i as int),
            decreases n - i,
        {
            proof {
                assert(dot_prefix(self@, other@, i + 1) == dot_prefix(self@, other@, i as int)
                    + self@[i as int] * other@[i as int]);
            }
            acc = acc + self.components[i] * other.components[i];
            i += 1;
        }
        Ok(acc)
    }

    /// The component-wise product with a scalar.
    pub fn scale(&self, scalar: i64) -> (r: Vector)
        requires
            forall|i: int| 0 <= i < self@.len() ==> fits_i64(self@[i] * scalar),
        ensures
            r@.len() == self@.len(),
            forall|i: int| 0 <= i < r@.len() ==> r@[i] == self@[i] * scalar,
    {
        let n = self.components.len();
        let mut out: Vec<i64> = Vec::new();
        let mut i: usize = 0;
        while i < n
            invariant
                n == self@.len(),
                i <= n,
                out@.len() == i,
                forall|k: int| 0 <= k < n ==> fits_i64(self@[k] * scalar),
                forall|k: int| 0 <= k < i ==> out@[k] == self@[k] * scalar,
            decreases n - i,
        {
            out.push(self.components[i] * scalar);
            i += 1;
        }
        Vector { components: out }
    }

    /// The component-wise quotient, truncated toward zero. `LengthMismatch`
    /// exactly when the operands' lengths differ; otherwise `DivisionByZero`
    /// exactly when some divisor component is zero. No component is divided
    /// before every divisor component is known to be non-zero.
    pub fn div(&self, other: &Vector) -> (r: Result<Vector, PhysicsError>)
        requires
            (self@.len() == other@.len() && (forall|i: int|
                0 <= i < other@.len() ==> other@[i] != 0)) ==> forall|i: int|
                0 <= i < self@.len() ==> !(self@[i] == i64::MIN && other@[i] == -1),
        ensures
            match r {
                Ok(v) => {
                    &&& self@.len() == other@.len()
                    &&& forall|i: int| 0 <= i < other@.len() ==> other@[i] != 0
                    &&& v@.len() == self@.len()
                    &&& forall|i: int|
                        0 <= i < v@.len() ==> v@[i] == tdiv(self@[i] as int, other@[i] as int)
                },
                Err(e) => {
                    ||| (e == PhysicsError::LengthMismatch && self@.len() != other@.len())
                    ||| (e == PhysicsError::DivisionByZero && self@.len() == other@.len()
                        && exists|i: int| 0 <= i < other@.len() && other@[i] == 0)
                },
            },
    {
        if self.components.len() != other.components.len() {
            return Err(PhysicsError::LengthMismatch);
        }
        let n = self.components.len();
        let mut i: usize = 0;
        while i < n
            invariant
                n == self@.len(),
                n == other@.len(),
                i <= n,
                forall|k: int| 0 <= k < i ==> other@[k] != 0,
            decreases n - i,
        {
            if other.components[i] == 0 {
                proof {
                    assert(i < other@.len() && other@[i as int] == 0);
                }
                return Err(PhysicsError::DivisionByZero);
            }
            i += 1;
        }
        let mut out: Vec<i64> = Vec::new();
        let mut j: usize = 0;
        while j < n
            invariant
                n == self@.len(),
                n == other@.len(),
                j <= n,
                out@.len() == j,
                forall|k: int| 0 <= k < n ==> other@[k] != 0,
                forall|k: int| 0 <= k < n ==> !(self@[k] == i64::MIN && other@[k] == -1),
                forall|k: int| 0 <= k < j ==> out@[k] == tdiv(self@[k] as int, other@[k] as int),
            decreases n - j,
        {
            out.push(div_i64(self.components[j], other.components[j]));
            j += 1;
        }
        Ok(Vector { components: out })
    }

    /// The component-wise quotient by one scalar, truncated toward zero.
    /// `DivisionByZero` exactly when the scalar is zero. (True division, not
    /// multiplication by the scalar; `scale` multiplies.)
    pub fn div_scalar(&self, scalar: i64) -> (r: Result<Vector, PhysicsError>)
        requires
            scalar != 0 ==> forall|i: int|
                0 <= i < self@.len() ==> !(self@[i] == i64::MIN && scalar == -1),
        ensures
            match r {
                Ok(v) => {
                    &&& scalar != 0
                    &&& v@.len() == self@.len()
                    &&& forall|i: int|
                        0 <= i < v@.len() ==> v@[i] == tdiv(self@[i] as int, scalar as int)
                },
                Err(e) => e == PhysicsError::DivisionByZero && scalar == 0,
            },
    {
        if scalar == 0 {
            return Err(PhysicsError::DivisionByZero);
        }
        let n = self.components.len();
        let mut out: Vec<i64> = Vec::new();
        let mut i: usize = 0;
        while i < n
            invariant
                n == self@.len(),
                i <= n,
                out@.len() == i,
                scalar != 0,
                forall|k: int| 0 <= k < n ==> !(self@[k] == i64::MIN && scalar == -1),
                forall|k: int| 0 <= k < i ==> out@[k] == tdiv(self@[k] as int, scalar as int),
            decreases n - i,
        {
            out.push(div_i64(self.components[i], scalar));
            i += 1;
        }
        Ok(Vector { components: out })
    }

    /// The Euclidean norm, in the integer domain: the integer square root of
    /// the sum of squared components. Never negative; zero exactly for a
    /// vector whose components are all zero.
    pub fn magnitude(&self) -> (r: i64)
        requires
            forall|k: int| 0 <= k <= self@.len() ==> fits_i64(dot_prefix(self@, self@, k)),
        ensures
            0 <= r <= 3037000499,
            is_isqrt(dot_spec(self@, self@), r as int),
            r == magnitude_spec(self@),
    {
        let n = self.components.len();
        let mut acc: i64 = 0;
        let mut i: usize = 0;
        while i < n
            invariant
                n == self@.len(),
                i <= n,
                forall|k: int| 0 <= k <= n ==> fits_i64(dot_prefix(self@, self@, k)),
                acc == dot_prefix(self@, self@, i as int),
            decreases n - i,
        {
            proof {
                lemma_sq_prefix_nonneg(self@, i as int);
                assert(self@[i as int] * self@[i as int] >= 0) by (nonlinear_arith);
                assert(dot_prefix(self@, self@, i + 1) == dot_prefix(self@, self@, i as int)
                    + self@[i as int] * self@[i as int]);
            }
            acc = acc + self.components[i] * self.components[i];
            i += 1;
        }
        proof {
            lemma_sq_prefix_nonneg(self@, n as int);
        }
        isqrt_i64(acc)
    }

    /// The vector divided by its own magnitude, truncated toward zero.
    /// `DegenerateVector` exactly when the magnitude is zero. For integer
    /// components every component of the result lies in [-1, 1].
    pub fn normalized(&self) -> (r: Result<Vector, PhysicsError>)
        requires
            forall|k: int| 0 <= k <= self@.len() ==> fits_i64(dot_prefix(self@, self@, k)),
        ensures
            match r {
                Ok(v) => {
                    &&& magnitude_spec(self@) > 0
                    &&& v@.len() == self@.len()
                    &&& forall|i: int|
                        0 <= i < v@.len() ==> v@[i] == tdiv(self@[i] as int, magnitude_spec(self@))
                },
                Err(e) => e == PhysicsError::DegenerateVector && magnitude_spec(self@) == 0,
            },
    {
        let m = self.magnitude();
        if m == 0 {
            return Err(PhysicsError::DegenerateVector);
        }
        match self.div_scalar(m) {
            Ok(v) => Ok(v),
            Err(_) => {
                proof {
                    assert(false);
                }
                Err(PhysicsError::DegenerateVector)
            },
        }
    }

    /// The sum of the squared component differences: the square of the
    /// Euclidean distance, exactly, with no square root taken.
    /// `LengthMismatch` exactly when the operands' lengths differ.
    pub fn distance_squared(&self, other: &Vector) -> (r: Result<i64, PhysicsError>)
        requires
            self@.len() == other@.len() ==> {
                &&& forall|i: int| 0 <= i < self@.len() ==> fits_i64(self@[i] - other@[i])
                &&& forall|k: int| 0 <= k <= self@.len() ==> fits_i64(
                    dot_prefix(diff_spec(self@, other@), diff_spec(self@, other@), k),
                )
            },
        ensures
            match r {
                Ok(v) => {
                    &&& self@.len() == other@.len()
                    &&& 0 <= v
                    &&& v == dist_sq_spec(self@, other@)
                },
                Err(e) => e == PhysicsError::LengthMismatch && self@.len() != other@.len(),
            },
    {
        if self.components.len() != other.components.len() {
            return Err(PhysicsError::LengthMismatch);
        }
        let n = self.components.len();
        let ghost d = diff_spec(self@, other@);
        let mut acc: i64 = 0;
        let mut i: usize = 0;
        while i < n
            invariant
                n == self@.len(),
                n == other@.len(),
                d == diff_spec(self@, other@),
                i <= n,
                forall|k: int| 0 <= k < n ==> fits_i64(self@[k] - other@[k]),
                forall|k: int| 0 <= k <= n ==> fits_i64(dot_prefix(d, d, k)),
                acc == dot_prefix(d, d, i as int),
            decreases n - i,
        {
            proof {
                lemma_sq_prefix_nonneg(d, i as int);
                assert(d[i as int] * d[i as int] >= 0) by (nonlinear_arith);
                assert(dot_prefix(d, d, i + 1) == dot_prefix(d, d, i as int)
                    + d[i as int] * d[i as int]);
            }
            let diff = self.components[i] - other.components[i];
            acc = acc + diff * diff;
            i += 1;
        }
        proof {
            lemma_sq_prefix_nonneg(d, n as int);
        }
        Ok(acc)
    }

    /// The Euclidean distance, in the integer domain: the integer square root
    /// of the sum of squared component differences. `LengthMismatch` exactly
    /// when the operands' lengths differ.
    pub fn distance(&self, other: &Vector) -> (r: Result<i64, PhysicsError>)
        requires
            self@.len() == other@.len() ==> {
                &&& forall|i: int| 0 <= i < self@.len() ==> fits_i64(self@[i] - other@[i])
                &&& forall|k: int| 0 <= k <= self@.len() ==> fits_i64(
                    dot_prefix(diff_spec(self@, other@), diff_spec(self@, other@), k),
                )
            },
        ensures
            match r {
                Ok(v) => {
                    &&& self@.len() == other@.len()
                    &&& 0 <= v
                    &&& v == isqrt(dist_sq_spec(self@, other@))
                },
                Err(e) => e == PhysicsError::LengthMismatch && self@.len() != other@.len(),
            },
    {
        match self.distance_squared(other) {
            Ok(sq) => Ok(isqrt_i64(sq)),
            Err(e) => Err(e),
        }
    }

    /// The angle between two vectors, in integer-rounded radians: 0 for the
    /// same direction, 2 (pi/2 rounded) for orthogonal vectors, 3 (pi
    /// rounded) for opposite directions. The cosine ratio is clamped to
    /// [-1, 1] before the arc cosine is taken. `LengthMismatch` exactly when
    /// the operands' lengths differ; otherwise `DegenerateVector` exactly
    /// when either operand has zero magnitude.
    pub fn angle(&self, other: &Vector) -> (r: Result<i64, PhysicsError>)
        requires
            self@.len() == other@.len() ==> {
                &&& forall|k: int| 0 <= k <= self@.len() ==> fits_i64(
                    dot_prefix(self@, self@, k),
                )
                &&& forall|k: int| 0 <= k <= other@.len() ==> fits_i64(
                    dot_prefix(other@, other@, k),
                )
                &&& forall|i: int| 0 <= i < self@.len() ==> fits_i64(self@[i] * other@[i])
                &&& forall|k: int| 0 <= k <= self@.len() ==> fits_i64(
                    dot_prefix(self@, other@, k),
                )
            },
        ensures
            match r {
                Ok(v) => {
                    &&& self@.len() == other@.len()
                    &&& magnitude_spec(self@) > 0
                    &&& magnitude_spec(other@) > 0
                    &&& v == angle_spec(self@, other@)
                },
                Err(e) => {
                    ||| (e == PhysicsError::LengthMismatch && self@.len() != other@.len())
                    ||| (e == PhysicsError::DegenerateVector && self@.len() == other@.len()
                        && (magnitude_spec(self@) == 0 || magnitude_spec(other@) == 0))
                },
            },
    {
        if self.components.len() != other.components.len() {
            return Err(PhysicsError::LengthMismatch);
        }
        let sm = self.magnitude();
        let om = other.magnitude();
        if sm == 0 || om == 0 {
            return Err(PhysicsError::DegenerateVector);
        }
        let d = match self.dot(other) {
            Ok(d) => d,
            Err(_) => {
                proof {
                    assert(false);
                }
                return Err(PhysicsError::LengthMismatch);
            },
        };
        proof {
            assert(sm as int * om as int <= 3037000499int * 3037000499int && sm as int * om
                as int >= 1) by (nonlinear_arith)
                requires
                    1 <= sm <= 3037000499int,
                    1 <= om <= 3037000499int,
            ;
        }
        let denom = sm * om;
        let ratio = div_i64(d, denom);
        if ratio <= -1 {
            Ok(3)
        } else if ratio == 0 {
            Ok(2)
        } else {
            Ok(0)
        }
    }

    /// One vector whose i-th component is the greatest i-th component among
    /// the given vectors; the zero-length vector when none are given.
    /// `LengthMismatch` exactly when two of the given vectors have differing
    /// lengths.
    pub fn max_components(vecs: Vec<Vector>) -> (r: Result<Vector, PhysicsError>)
        ensures
            match r {
                Ok(v) => {
                    &&& (vecs@.len() == 0 ==> v@ == Seq::<i64>::empty())
                    &&& (vecs@.len() > 0 ==> {
                        &&& forall|j: int|
                            0 <= j < vecs@.len() ==> (#[trigger] vecs@[j]@).len() == vecs@[0]@.len()
                        &&& v@.len() == vecs@[0]@.len()
                        &&& forall|i: int, j: int|
                            0 <= i < v@.len() && 0 <= j < vecs@.len() ==> v@[i] >= vecs@[j]@[i]
                        &&& forall|i: int|
                            0 <= i < v@.len() ==> v@[i] == #[trigger] col_max(
                                vecs@,
                                vecs@.len() as int,
                                i,
                            )
                    })
                },
                Err(e) => {
                    &&& e == PhysicsError::LengthMismatch
                    &&& vecs@.len() > 0
                    &&& exists|j: int|
                        0 <= j < vecs@.len() && (#[trigger] vecs@[j]@).len() != vecs@[0]@.len()
                },
            },
    {
        if vecs.len() == 0 {
            return Ok(Vector::default());
        }
        let n = vecs[0].components.len();
        let mut j: usize = 1;
        while j < vecs.len()
            invariant
                vecs@.len() > 0,
                n == vecs@[0]@.len(),
                j <= vecs@.len(),
                forall|q: int| 0 <= q < j ==> (#[trigger] vecs@[q]@).len() == n,
            decreases vecs@.len() - j,
        {
            if vecs[j].components.len() != n {
                proof {
                    assert(j < vecs@.len() && vecs@[j as int]@.len() != vecs@[0]@.len());
                }
                return Err(PhysicsError::LengthMismatch);
            }
            j += 1;
        }
        let mut out = vecs[0].clone().components;
        let mut j: usize = 1;
        proof {
            assert(forall|c: int| 0 <= c < n ==> out@[c] == #[trigger] col_max(vecs@, 1, c));
        }
        while j < vecs.len()
            invariant
                vecs@.len() > 0,
                n == vecs@[0]@.len(),
                1 <= j <= vecs@.len(),
                out@.len() == n,
                forall|q: int| 0 <= q < vecs@.len() ==> (#[trigger] vecs@[q]@).len() == n,
                forall|c: int| 0 <= c < n ==> out@[c] == #[trigger] col_max(vecs@, j as int, c),
            decreases vecs@.len() - j,
        {
            let mut i: usize = 0;
            while i < n
                invariant
                    vecs@.len() > 0,
                    n == vecs@[0]@.len(),
                    1 <= j < vecs@.len(),
                    i <= n,
                    out@.len() == n,
                    forall|q: int| 0 <= q < vecs@.len() ==> (#[trigger] vecs@[q]@).len() == n,
                    forall|c: int|
                        0 <= c < i ==> out@[c] == #[trigger] col_max(vecs@, j + 1, c),
                    forall|c: int|
                        i <= c < n ==> out@[c] == #[trigger] col_max(vecs@, j as int, c),
                decreases n - i,
            {
                proof {
                    assert(vecs@[j as int]@.len() == n);
                }
                let x = vecs[j].components[i];
                if x > out[i] {
                    out[i] = x;
                }
                proof {
                    assert forall|c: int|
                        0 <= c < i + 1 implies out@[c] == #[trigger] col_max(vecs@, j + 1, c) by {
                        if c == i as int {
                            assert(col_max(vecs@, j + 1, c) == (if vecs@[j as int]@[c] > col_max(
                                vecs@,
                                j as int,
                                c,
                            ) {
                                vecs@[j as int]@[c] as int
                            } else {
                                col_max(vecs@, j as int, c)
                            }));
                        }
                    }
                }
                i += 1;
            }
            j += 1;
        }
        proof {
            assert forall|i: int, q: int|
                0 <= i < n && 0 <= q < vecs@.len() implies out@[i] >= #[trigger] vecs@[q]@[i] by {
                lemma_col_max_attained(vecs@, vecs@.len() as int, i);
            }
        }
        Ok(Vector { components: out })
    }

    /// One vector whose i-th component is the least i-th component among the
    /// given vectors; the zero-length vector when none are given.
    /// `LengthMismatch` exactly when two of the given vectors have differing
    /// lengths.
    pub fn min_components(vecs: Vec<Vector>) -> (r: Result<Vector, PhysicsError>)
        ensures
            match r {
                Ok(v) => {
                    &&& (vecs@.len() == 0 ==> v@ == Seq::<i64>::empty())
                    &&& (vecs@.len() > 0 ==> {
                        &&& forall|j: int|
                            0 <= j < vecs@.len() ==> (#[trigger] vecs@[j]@).len() == vecs@[0]@.len()
                        &&& v@.len() == vecs@[0]@.len()
                        &&& forall|i: int, j: int|
                            0 <= i < v@.len() && 0 <= j < vecs@.len() ==> v@[i] <= vecs@[j]@[i]
                        &&& forall|i: int|
                            0 <= i < v@.len() ==> v@[i] == #[trigger] col_min(
                                vecs@,
                                vecs@.len() as int,
                                i,
                            )
                    })
                },
                Err(e) => {
                    &&& e == PhysicsError::LengthMismatch
                    &&& vecs@.len() > 0
                    &&& exists|j: int|
                        0 <= j < vecs@.len() && (#[trigger] vecs@[j]@).len() != vecs@[0]@.len()
                },
            },
    {
        if vecs.len() == 0 {
            return Ok(Vector::default());
        }
        let n = vecs[0].components.len();
        let mut j: usize = 1;
        while j < vecs.len()
            invariant
                vecs@.len() > 0,
                n == vecs@[0]@.len(),
                j <= vecs@.len(),
                forall|q: int| 0 <= q < j ==> (#[trigger] vecs@[q]@).len() == n,
            decreases vecs@.len() - j,
        {
            if vecs[j].components.len() != n {
                proof {
                    assert(j < vecs@.len() && vecs@[j as int]@.len() != vecs@[0]@.len());
                }
                return Err(PhysicsError::LengthMismatch);
            }
            j += 1;
        }
        let mut out = vecs[0].clone().components;
        let mut j: usize = 1;
        proof {
            assert(forall|c: int| 0 <= c < n ==> out@[c] == #[trigger] col_min(vecs@, 1, c));
        }
        while j < vecs.len()
            invariant
                vecs@.len() > 0,
                n == vecs@[0]@.len(),
                1 <= j <= vecs@.len(),
                out@.len() == n,
                forall|q: int| 0 <= q < vecs@.len() ==> (#[trigger] vecs@[q]@).len() == n,
                forall|c: int| 0 <= c < n ==> out@[c] == #[trigger] col_min(vecs@, j as int, c),
            decreases vecs@.len() - j,
        {
            let mut i: usize = 0;
            while i < n
                invariant
                    vecs@.len() > 0,
                    n == vecs@[0]@.len(),
                    1 <= j < vecs@.len(),
                    i <= n,
                    out@.len() == n,
                    forall|q: int| 0 <= q < vecs@.len() ==> (#[trigger] vecs@[q]@).len() == n,
                    forall|c: int|
                        0 <= c < i ==> out@[c] == #[trigger] col_min(vecs@, j + 1, c),
                    forall|c: int|
                        i <= c < n ==> out@[c] == #[trigger] col_min(vecs@, j as int, c),
                decreases n - i,
            {
                proof {
                    assert(vecs@[j as int]@.len() == n);
                }
                let x = vecs[j].components[i];
                if x < out[i] {
                    out[i] = x;
                }
                proof {
                    assert forall|c: int|
                        0 <= c < i + 1 implies out@[c] == #[trigger] col_min(vecs@, j + 1, c) by {
                        if c == i as int {
                            assert(col_min(vecs@, j + 1, c) == (if vecs@[j as int]@[c] < col_min(
                                vecs@,
                                j as int,
                                c,
                            ) {
                                vecs@[j as int]@[c] as int
                            } else {
                                col_min(vecs@, j as int, c)
                            }));
                        }
                    }
                }
                i += 1;
            }
            j += 1;
        }
        proof {
            assert forall|i: int, q: int|
                0 <= i < n && 0 <= q < vecs@.len() implies out@[i] <= #[trigger] vecs@[q]@[i] by {
                lemma_col_min_attained(vecs@, vecs@.len() as int, i);
            }
        }
        Ok(Vector { components: out })
    }


    /// Appends a component at the end, growing the dimensionality by one.
    pub fn add_component(&mut self, component: i64)
        ensures
            final(self)@ == old(self)@.push(component),
    {
        self.components.push(component);
    }

    /// Removes the component at the given index, shrinking the
    /// dimensionality by one. `IndexOutOfRange` exactly when the index is at
    /// or beyond the length; the vector is unchanged then.
    pub fn remove_component(&mut self, dim: usize) -> (r: Result<(), PhysicsError>)
        ensures
            match r {
                Ok(()) => {
                    &&& dim < old(self)@.len()
                    &&& final(self)@ == old(self)@.remove(dim as int)
                },
                Err(e) => {
                    &&& e == PhysicsError::IndexOutOfRange
                    &&& dim >= old(self)@.len()
                    &&& final(self)@ == old(self)@
                },
            },
    {
        if dim >= self.components.len() {
            return Err(PhysicsError::IndexOutOfRange);
        }
        self.components.remove(dim);
        Ok(())
    }

    /// Reads the component at the given index. `IndexOutOfRange` exactly when
    /// the index is at or beyond the length.
    pub fn component(&self, index: usize) -> (r: Result<i64, PhysicsError>)
        ensures
            match r {
                Ok(v) => index < self@.len() && v == self@[index as int],
                Err(e) => e == PhysicsError::IndexOutOfRange && index >= self@.len(),
            },
    {
        if index >= self.components.len() {
            return Err(PhysicsError::IndexOutOfRange);
        }
        Ok(self.components[index])
    }

    /// Writes the component at the given index. `IndexOutOfRange` exactly
    /// when the index is at or beyond the length; the vector is unchanged
    /// then.
    pub fn set_component(&mut self, index: usize, value: i64) -> (r: Result<(), PhysicsError>)
        ensures
            match r {
                Ok(()) => {
                    &&& index < old(self)@.len()
                    &&& final(self)@ == old(self)@.update(index as int, value)
                },
                Err(e) => {
                    &&& e == PhysicsError::IndexOutOfRange
                    &&& index >= old(self)@.len()
                    &&& final(self)@ == old(self)@
                },
            },
    {
        if index >= self.components.len() {
            return Err(PhysicsError::IndexOutOfRange);
        }
        self.components[index] = value;
        Ok(())
    }
}

/// Adding a vector and then subtracting the same vector restores the
/// original, exactly: for any `s` that is the component-wise sum of `a` and
/// `b` and any `d` that is the component-wise difference of `s` and `b`,
/// `d` is `a`.
pub proof fn lemma_add_then_sub_restores(a: Seq<i64>, b: Seq<i64>, s: Seq<i64>, d: Seq<i64>)
    requires
        a.len() == b.len(),
        s.len() == a.len(),
        forall|i: int| 0 <= i < s.len() ==> s[i] == a[i] + b[i],
        d.len() == s.len(),
        forall|i: int| 0 <= i < d.len() ==> d[i] == s[i] - b[i],
    ensures
        d == a,
{
    assert(d =~= a);
}

/// A magnitude is never negative, whatever the vector.
pub proof fn lemma_magnitude_nonneg(a: Seq<i64>)
    ensures
        magnitude_spec(a) >= 0,
{
    lemma_sq_prefix_nonneg(a, a.len() as int);
    lemma_isqrt_exists(dot_spec(a, a));
}

/// The sum of squares of an all-zero prefix is zero.
proof fn lemma_dot_prefix_zero(a: Seq<i64>, k: int)
    requires
        k <= a.len(),
        forall|i: int| 0 <= i < a.len() ==> a[i] == 0,
    ensures
        dot_prefix(a, a, k) == 0,
    decreases k,
{
    if k > 0 {
        lemma_dot_prefix_zero(a, k - 1);
    }
}

/// The magnitude of a vector whose components are all zero is zero.
pub proof fn lemma_zero_vector_magnitude(a: Seq<i64>)
    requires
        forall|i: int| 0 <= i < a.len() ==> a[i] == 0,
    ensures
        magnitude_spec(a) == 0,
{
    lemma_dot_prefix_zero(a, a.len() as int);
    assert(is_isqrt(0, 0));
    lemma_isqrt_agrees(0, 0);
}

/// Matching prefixes of the dot product are the same in either operand
/// order.
proof fn lemma_dot_prefix_commutes(a: Seq<i64>, b: Seq<i64>, k: int)
    requires
        k <= a.len(),
        k <= b.len(),
    ensures
        dot_prefix(a, b, k) == dot_prefix(b, a, k),
    decreases k,
{
    if k > 0 {
        lemma_dot_prefix_commutes(a, b, k - 1);
    }
}

/// The dot product is commutative: `dot(a, b) == dot(b, a)` for equal-length
/// vectors.
pub proof fn lemma_dot_commutes(a: Seq<i64>, b: Seq<i64>)
    requires
        a.len() == b.len(),
    ensures
        dot_spec(a, b) == dot_spec(b, a),
{
    lemma_dot_prefix_commutes(a, b, a.len() as int);
}

/// The angle of a non-zero vector with itself is zero.
pub proof fn lemma_angle_with_self(a: Seq<i64>)
    requires
        dot_spec(a, a) > 0,
    ensures
        angle_spec(a, a) == 0,
{
    let s = dot_spec(a, a);
    lemma_isqrt_exists(s);
    let m = magnitude_spec(a);
    assert(is_isqrt(s, m));
    assert(m >= 1);
    assert(m * m >= 1 && m * m <= s) by (nonlinear_arith)
        requires
            m >= 1,
            is_isqrt(s, m),
    ;
    lemma_div_is_ordered(m * m, s, m * m);
    lemma_div_by_self(m * m);
    assert(tdiv(s, m * m) == s / (m * m));
    assert(tdiv(s, m * m) >= 1);
}

/// The angle between orthogonal non-zero vectors is a quarter turn: pi/2,
/// which rounds to 2 in integer radians.
pub proof fn lemma_angle_orthogonal(a: Seq<i64>, b: Seq<i64>)
    requires
        a.len() == b.len(),
        dot_spec(a, b) == 0,
        dot_spec(a, a) > 0,
        dot_spec(b, b) > 0,
    ensures
        angle_spec(a, b) == 2,
{
    assert(tdiv(0, magnitude_spec(a) * magnitude_spec(b)) == 0);
}

} // verus!
