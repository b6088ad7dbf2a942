use vstd::prelude::*;

verus! {

use vstd::arithmetic::div_mod::{
    lemma_mod_add_multiples_vanish, lemma_mod_sub_multiples_vanish, lemma_small_mod,
};

/// Capability of a counter scalar.  Each unsigned width that can back a
/// multiset implements it: `sval` is the mathematical value of a counter and
/// `width_max` the largest value the width represents, and the executable
/// methods are the arithmetic primitives the multiset kernels are built
/// from, each with an exact contract over `sval`.
pub trait MultisetStorage: Copy + Sized {
    /// Mathematical value of this counter.
    spec fn sval(self) -> int;

    /// Largest value representable in this width.
    spec fn width_max() -> int;

    /// Every counter lies between zero and the width's maximum.
    proof fn lemma_props(self)
        ensures
            0 <= self.sval() <= Self::width_max(),
    ;

    /// Every width holds at least zero and one, and fits a machine integer.
    proof fn lemma_width()
        ensures
            1 <= Self::width_max() <= u64::MAX as int,
    ;

    /// The scalar zero.
    fn zero() -> (r: Self)
        ensures
            r.sval() == 0,
    ;

    /// Narrowing of a machine integer that fits this width.
    fn from_u64(v: u64) -> (r: Self)
        requires
            v as int <= Self::width_max(),
        ensures
            r.sval() == v as int,
    ;

    /// Widening to a machine integer.
    fn to_u64(self) -> (r: u64)
        ensures
            r as int == self.sval(),
    ;

    /// Addition that wraps around the width.
    fn wrapping_add(self, other: Self) -> (r: Self)
        ensures
            r.sval() == (self.sval() + other.sval()) % (Self::width_max() + 1),
    ;

    /// Subtraction that wraps around the width.
    fn wrapping_sub(self, other: Self) -> (r: Self)
        ensures
            r.sval() == (self.sval() - other.sval()) % (Self::width_max() + 1),
    ;

    /// Multiplication that wraps around the width.
    fn wrapping_mul(self, other: Self) -> (r: Self)
        ensures
            r.sval() == (self.sval() * other.sval()) % (Self::width_max() + 1),
    ;

    /// Euclidean division; the divisor must not be zero.
    fn divide(self, other: Self) -> (r: Self)
        requires
            other.sval() != 0,
        ensures
            r.sval() == self.sval() / other.sval(),
    ;

    /// The smaller of two counters.
    fn min(self, other: Self) -> (r: Self)
        ensures
            r.sval() == vstd::math::min(self.sval(), other.sval()),
    ;

    /// The larger of two counters.
    fn max(self, other: Self) -> (r: Self)
        ensures
            r.sval() == vstd::math::max(self.sval(), other.sval()),
    ;

    /// Strict order on counters.
    fn lt(self, other: Self) -> (r: bool)
        ensures
            r == (self.sval() < other.sval()),
    ;

    /// Non-strict order on counters.
    fn le(self, other: Self) -> (r: bool)
        ensures
            r == (self.sval() <= other.sval()),
    ;

    /// Equality of counters.
    fn eq_val(self, other: Self) -> (r: bool)
        ensures
            r == (self.sval() == other.sval()),
    ;
}

/// Where a sum or difference overshoots the width by less than one whole
/// modulus, the wrapped result is the plain value shifted by the modulus.
proof fn lemma_wrap_once(x: int, m: int)
    requires
        m >= 1,
        -m <= x < 2 * m,
    ensures
        0 <= x < m ==> x % m == x,
        x >= m ==> x % m == x - m,
        x < 0 ==> x % m == x + m,
{
    if 0 <= x < m {
        lemma_small_mod(x as nat, m as nat);
    } else if x >= m {
        lemma_mod_sub_multiples_vanish(x, m);
        lemma_small_mod((x - m) as nat, m as nat);
    } else {
        lemma_mod_add_multiples_vanish(x, m);
        lemma_small_mod((x + m) as nat, m as nat);
    }
}

impl MultisetStorage for u8 {
    open spec fn sval(self) -> int {
        self as int
    }

    open spec fn width_max() -> int {
        u8::MAX as int
    }

    proof fn lemma_props(self) {
    }

    proof fn lemma_width() {
    }

    fn zero() -> (r: Self) {
        0u8
    }

    fn from_u64(v: u64) -> (r: Self) {
        v as u8
    }

    fn to_u64(self) -> (r: u64) {
        self as u64
    }

    fn wrapping_add(self, other: Self) -> (r: Self) {
        proof {
            lemma_wrap_once(self as int + other as int, 256);
        }
        u8::wrapping_add(self, other)
    }

    fn wrapping_sub(self, other: Self) -> (r: Self) {
        proof {
            lemma_wrap_once(self as int - other as int, 256);
        }
        u8::wrapping_sub(self, other)
    }

    fn wrapping_mul(self, other: Self) -> (r: Self) {
        u8::wrapping_mul(self, other)
    }

    fn divide(self, other: Self) -> (r: Self) {
        self / other
    }

    fn min(self, other: Self) -> (r: Self) {
        if self <= other {
            self
        } else {
            other
        }
    }

    fn max(self, other: Self) -> (r: Self) {
        if self >= other {
            self
        } else {
            other
        }
    }

    fn lt(self, other: Self) -> (r: bool) {
        self < other
    }

    fn le(self, other: Self) -> (r: bool) {
        self <= other
    }

    fn eq_val(self, other: Self) -> (r: bool) {
        self == other
    }
}

impl MultisetStorage for u16 {
    open spec fn sval(self) -> int {
        self as int
    }

    open spec fn width_max() -> int {
        u16::MAX as int
    }

    proof fn lemma_props(self) {
    }

    proof fn lemma_width() {
    }

    fn zero() -> (r: Self) {
        0u16
    }

    fn from_u64(v: u64) -> (r: Self) {
        v as u16
    }

    fn to_u64(self) -> (r: u64) {
        self as u64
    }

    fn wrapping_add(self, other: Self) -> (r: Self) {
        proof {
            lemma_wrap_once(self as int + other as int, u16::MAX as int + 1);
        }
        u16::wrapping_add(self, other)
    }

    fn wrapping_sub(self, other: Self) -> (r: Self) {
        proof {
            lemma_wrap_once(self as int - other as int, u16::MAX as int + 1);
        }
        u16::wrapping_sub(self, other)
    }

    fn wrapping_mul(self, other: Self) -> (r: Self) {
        u16::wrapping_mul(self, other)
    }

    fn divide(self, other: Self) -> (r: Self) {
        self / other
    }

    fn min(self, other: Self) -> (r: Self) {
        if self <= other {
            self
        } else {
            other
        }
    }

    fn max(self, other: Self) -> (r: Self) {
        if self >= other {
            self
        } else {
            other
        }
    }

    fn lt(self, other: Self) -> (r: bool) {
        self < other
    }

    fn le(self, other: Self) -> (r: bool) {
        self <= other
    }

    fn eq_val(self, other: Self) -> (r: bool) {
        self == other
    }
}

impl MultisetStorage for u32 {
    open spec fn sval(self) -> int {
        self as int
    }

    open spec fn width_max() -> int {
        u32::MAX as int
    }

    proof fn lemma_props(self) {
    }

    proof fn lemma_width() {
    }

    fn zero() -> (r: Self) {
        0u32
    }

    fn from_u64(v: u64) -> (r: Self) {
        v as u32
    }

    fn to_u64(self) -> (r: u64) {
        self as u64
    }

    fn wrapping_add(self, other: Self) -> (r: Self) {
        proof {
            lemma_wrap_once(self as int + other as int, u32::MAX as int + 1);
        }
        u32::wrapping_add(self, other)
    }

    fn wrapping_sub(self, other: Self) -> (r: Self) {
        proof {
            lemma_wrap_once(self as int - other as int, u32::MAX as int + 1);
        }
        u32::wrapping_sub(self, other)
    }

    fn wrapping_mul(self, other: Self) -> (r: Self) {
        u32::wrapping_mul(self, other)
    }

    fn divide(self, other: Self) -> (r: Self) {
        self / other
    }

    fn min(self, other: Self) -> (r: Self) {
        if self <= other {
            self
        } else {
            other
        }
    }

    fn max(self, other: Self) -> (r: Self) {
        if self >= other {
            self
        } else {
            other
        }
    }

    fn lt(self, other: Self) -> (r: bool) {
        self < other
    }

    fn le(self, other: Self) -> (r: bool) {
        self <= other
    }

    fn eq_val(self, other: Self) -> (r: bool) {
        self == other
    }
}

impl MultisetStorage for u64 {
    open spec fn sval(self) -> int {
        self as int
    }

    open spec fn width_max() -> int {
        u64::MAX as int
    }

    proof fn lemma_props(self) {
    }

    proof fn lemma_width() {
    }

    fn zero() -> (r: Self) {
        0u64
    }

    fn from_u64(v: u64) -> (r: Self) {
        v as u64
    }

    fn to_u64(self) -> (r: u64) {
        self as u64
    }

    fn wrapping_add(self, other: Self) -> (r: Self) {
        proof {
            lemma_wrap_once(self as int + other as int, u64::MAX as int + 1);
        }
        u64::wrapping_add(self, other)
    }

    fn wrapping_sub(self, other: Self) -> (r: Self) {
        proof {
            lemma_wrap_once(self as int - other as int, u64::MAX as int + 1);
        }
        u64::wrapping_sub(self, other)
    }

    fn wrapping_mul(self, other: Self) -> (r: Self) {
        u64::wrapping_mul(self, other)
    }

    fn divide(self, other: Self) -> (r: Self) {
        self / other
    }

    fn min(self, other: Self) -> (r: Self) {
        if self <= other {
            self
        } else {
            other
        }
    }

    fn max(self, other: Self) -> (r: Self) {
        if self >= other {
            self
        } else {
            other
        }
    }

    fn lt(self, other: Self) -> (r: bool) {
        self < other
    }

    fn le(self, other: Self) -> (r: bool) {
        self <= other
    }

    fn eq_val(self, other: Self) -> (r: bool) {
        self == other
    }
}

} // verus!
