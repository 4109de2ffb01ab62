use vstd::prelude::*;

verus! {

/// Bit pattern of positive infinity in IEEE-754 single precision. Every
/// pattern with a larger magnitude is not a number.
pub const INFINITY_BITS: u32 = 0x7f80_0000;

/// Value of the sign bit of a single-precision pattern.
pub const SIGN_BIT: u32 = 0x8000_0000;

/// The magnitude part of a pattern: the pattern without its sign bit.
pub open spec fn spec_magnitude(bits: u32) -> int {
    if bits >= SIGN_BIT {
        bits - SIGN_BIT
    } else {
        bits as int
    }
}

/// Whether the sign bit of a pattern is set.
pub open spec fn spec_is_negative(bits: u32) -> bool {
    bits >= SIGN_BIT
}

/// Whether a pattern stands for a number, finite or infinite.
pub open spec fn spec_is_number(bits: u32) -> bool {
    spec_magnitude(bits) <= INFINITY_BITS
}

/// The rank of a pattern: its magnitude, negated under a set sign bit. Both
/// zeros have rank 0.
pub open spec fn spec_rank(bits: u32) -> int {
    if spec_is_negative(bits) {
        -spec_magnitude(bits)
    } else {
        spec_magnitude(bits)
    }
}

/// The order of the numbers that two patterns stand for, read off sign and
/// magnitude: among non-negative numbers the larger magnitude is the larger
/// number, among negative numbers the smaller one, a negative number precedes
/// a non-negative one, and the two zeros are equal.
pub open spec fn spec_precedes(a: u32, b: u32) -> bool {
    if spec_is_negative(a) {
        if spec_is_negative(b) {
            spec_magnitude(a) > spec_magnitude(b)
        } else {
            spec_magnitude(a) > 0 || spec_magnitude(b) > 0
        }
    } else {
        !spec_is_negative(b) && spec_magnitude(a) < spec_magnitude(b)
    }
}

/// The pattern of the number with a given rank; of the two zeros, the
/// positive one.
pub open spec fn spec_bits_of_rank(rank: int) -> int {
    if rank < 0 {
        SIGN_BIT - rank
    } else {
        rank
    }
}

/// A single-precision number, finite or infinite, held as its rank among all
/// such numbers. Ranks compare as the numbers do.
#[derive(Copy, Clone, Debug, PartialEq, Eq, Hash, Structural)]
pub struct Scalar {
    code: i32,
}

impl View for Scalar {
    type V = int;

    closed spec fn view(&self) -> int {
        self.code as int
    }
}

impl Scalar {
    #[verifier::type_invariant]
    spec fn in_range(self) -> bool {
        -(INFINITY_BITS as int) <= self.code <= INFINITY_BITS as int
    }

    /// Whether a rank belongs to a number.
    pub open spec fn spec_valid_rank(rank: int) -> bool {
        -(INFINITY_BITS as int) <= rank <= INFINITY_BITS as int
    }

    /// The number that a bit pattern stands for, unless it is not a number.
    pub fn from_bits(bits: u32) -> (r: Option<Scalar>)
        ensures
            spec_is_number(bits) ==> r is Some && r->0@ == spec_rank(bits),
            !spec_is_number(bits) ==> r is None,
    {
        if bits >= SIGN_BIT {
            let magnitude: u32 = bits - SIGN_BIT;
            if magnitude <= INFINITY_BITS {
                Some(Scalar { code: -(magnitude as i32) })
            } else {
                None
            }
        } else if bits <= INFINITY_BITS {
            Some(Scalar { code: bits as i32 })
        } else {
            None
        }
    }

    /// The number with a given rank, if there is one.
    pub fn from_rank(rank: i32) -> (r: Option<Scalar>)
        ensures
            Self::spec_valid_rank(rank as int) ==> r is Some && r->0@ == rank,
            !Self::spec_valid_rank(rank as int) ==> r is None,
    {
        if -(INFINITY_BITS as i32) <= rank && rank <= INFINITY_BITS as i32 {
            Some(Scalar { code: rank })
        } else {
            None
        }
    }

    /// The rank of this number.
    pub fn rank(&self) -> (r: i32)
        ensures
            r == self@,
            Self::spec_valid_rank(r as int),
    {
        proof {
            use_type_invariant(self);
        }
        self.code
    }

    /// The bit pattern of this number; zero comes out with a clear sign bit.
    pub fn to_bits(&self) -> (bits: u32)
        ensures
            bits == spec_bits_of_rank(self@),
            spec_is_number(bits),
            spec_rank(bits) == self@,
    {
        proof {
            use_type_invariant(self);
        }
        if self.code < 0 {
            SIGN_BIT + ((-self.code) as u32)
        } else {
            self.code as u32
        }
    }

    /// The number with rank `rank`, which must be the rank of a number.
    pub fn of_rank(rank: i32) -> (r: Scalar)
        requires
            Self::spec_valid_rank(rank as int),
        ensures
            r@ == rank,
    {
        Scalar { code: rank }
    }

    /// The scalar of the number 0.
    pub fn zero() -> (r: Scalar)
        ensures
            r@ == 0,
    {
        Scalar { code: 0 }
    }

    /// The lesser of two scalars.
    pub fn min(self, other: Scalar) -> (r: Scalar)
        ensures
            r@ == if self@ < other@ { self@ } else { other@ },
    {
        if self.code < other.code {
            self
        } else {
            other
        }
    }

    /// The greater of two scalars.
    pub fn max(self, other: Scalar) -> (r: Scalar)
        ensures
            r@ == if self@ > other@ { self@ } else { other@ },
    {
        if self.code > other.code {
            self
        } else {
            other
        }
    }

    /// `self < other`.
    pub fn lt(&self, other: &Scalar) -> (r: bool)
        ensures
            r == (self@ < other@),
    {
        self.code < other.code
    }

    /// `self <= other`.
    pub fn le(&self, other: &Scalar) -> (r: bool)
        ensures
            r == (self@ <= other@),
    {
        self.code <= other.code
    }

    /// `self > other`.
    pub fn gt(&self, other: &Scalar) -> (r: bool)
        ensures
            r == (self@ > other@),
    {
        self.code > other.code
    }

    /// `self >= other`.
    pub fn ge(&self, other: &Scalar) -> (r: bool)
        ensures
            r == (self@ >= other@),
    {
        self.code >= other.code
    }
}

/// Ranks order patterns as the numbers they stand for are ordered.
pub proof fn lemma_rank_follows_order(a: u32, b: u32)
    requires
        spec_is_number(a),
        spec_is_number(b),
    ensures
        spec_rank(a) < spec_rank(b) <==> spec_precedes(a, b),
        spec_rank(a) == spec_rank(b) <==> !spec_precedes(a, b) && !spec_precedes(b, a),
{
}

/// Reading a number's pattern back gives the number again, and a pattern
/// survives the round trip unless it is the negative zero.
pub proof fn lemma_round_trip(bits: u32)
    requires
        spec_is_number(bits),
    ensures
        bits != SIGN_BIT ==> spec_bits_of_rank(spec_rank(bits)) == bits,
        bits == SIGN_BIT ==> spec_bits_of_rank(spec_rank(bits)) == 0,
{
}

} // verus!
