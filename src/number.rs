//! Prices and amounts: non-negative finite IEEE-754 doubles, held as their bit patterns.
use vstd::prelude::*;

verus! {

/// The weight of the lowest exponent bit of a double.
pub const EXPONENT_UNIT: u64 = 0x10_0000_0000_0000;

/// The exponent field of a double whose value is an infinity or a NaN.
pub const EXPONENT_SPECIAL: u64 = 0x7FF;

/// The weight of the sign bit of a double.
pub const SIGN_BIT: u64 = 0x8000_0000_0000_0000;

/// The eleven-bit exponent field of the double with bit pattern `bits`.
pub open spec fn exponent_field(bits: u64) -> int {
    (bits / EXPONENT_UNIT) as int % 0x800
}

/// The double with bit pattern `bits` is neither an infinity nor a NaN.
pub open spec fn is_finite_bits(bits: u64) -> bool {
    exponent_field(bits) != EXPONENT_SPECIAL
}

/// The double with bit pattern `bits` carries a negative sign (this includes `-0.0`).
pub open spec fn is_sign_negative_bits(bits: u64) -> bool {
    bits >= SIGN_BIT
}

/// Three-way comparison of two mathematical integers.
pub open spec fn compare_int(a: int, b: int) -> core::cmp::Ordering {
    if a < b {
        core::cmp::Ordering::Less
    } else if a > b {
        core::cmp::Ordering::Greater
    } else {
        core::cmp::Ordering::Equal
    }
}

/// Why a double was refused as a price or an amount.
#[derive(Clone, Copy, Debug, PartialEq, Eq, Structural)]
pub enum NumberError {
    /// An infinity or a NaN.
    NonFinite,
    /// A negatively signed value, `-0.0` included.
    Negative,
}

impl NumberError {
    /// The text that describes the error.
    pub fn message(&self) -> (r: &'static str)
        ensures
            *self == NumberError::NonFinite ==> r@
                == "Can't construct FinitePositiveF64 from non finite f64"@,
            *self == NumberError::Negative ==> r@
                == "Can't construct FinitePositiveF64 from negative f64"@,
    {
        match self {
            NumberError::NonFinite => "Can't construct FinitePositiveF64 from non finite f64",
            NumberError::Negative => "Can't construct FinitePositiveF64 from negative f64",
        }
    }
}

/// A double that is finite and positively signed (`+0.0` included).
///
/// The value is kept as its IEEE-754 bit pattern. For doubles of positive sign that
/// are finite, the order of the bit patterns as unsigned integers is the numeric
/// order, and equal bit patterns are equal values; both orders below rest on this.
#[derive(Clone, Copy, Debug, PartialEq, Eq, Structural)]
pub struct FinitePositiveF64 {
    bits: u64,
}

impl FinitePositiveF64 {
    #[verifier::type_invariant]
    spec fn well_formed(self) -> bool {
        is_finite_bits(self.bits) && !is_sign_negative_bits(self.bits)
    }

    /// The IEEE-754 bit pattern of the value.
    pub closed spec fn bits(self) -> u64 {
        self.bits
    }

    /// Checks `bits`, the bit pattern of a double: an infinity or a NaN is refused
    /// first, then a negatively signed value.
    pub fn try_from_bits(bits: u64) -> (r: Result<FinitePositiveF64, NumberError>)
        ensures
            !is_finite_bits(bits) <==> r == Err::<FinitePositiveF64, NumberError>(
                NumberError::NonFinite,
            ),
            is_finite_bits(bits) && is_sign_negative_bits(bits) <==> r == Err::<
                FinitePositiveF64,
                NumberError,
            >(NumberError::Negative),
            r is Ok <==> is_finite_bits(bits) && !is_sign_negative_bits(bits),
            r matches Ok(v) ==> v.bits() == bits,
    {
        if (bits / EXPONENT_UNIT) % 0x800 == EXPONENT_SPECIAL {
            Err(NumberError::NonFinite)
        } else if bits >= SIGN_BIT {
            Err(NumberError::Negative)
        } else {
            Ok(FinitePositiveF64 { bits })
        }
    }

    /// The IEEE-754 bit pattern of the value, which is that of a finite double of
    /// positive sign.
    pub fn to_bits(&self) -> (r: u64)
        ensures
            r == self.bits(),
            is_finite_bits(r),
            !is_sign_negative_bits(r),
    {
        proof {
            use_type_invariant(self);
        }
        self.bits
    }

    /// Two values are equal exactly when their bit patterns are.
    pub proof fn lemma_bits_injective(self, other: Self)
        ensures
            (self.bits() == other.bits()) == (self == other),
    {
    }

    /// Numeric comparison of two values.
    pub fn cmp(&self, other: &Self) -> (r: core::cmp::Ordering)
        ensures
            r == compare_int(self.bits() as int, other.bits() as int),
    {
        if self.bits < other.bits {
            core::cmp::Ordering::Less
        } else if self.bits > other.bits {
            core::cmp::Ordering::Greater
        } else {
            core::cmp::Ordering::Equal
        }
    }
}

} // verus!
