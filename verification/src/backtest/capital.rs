//! How capital is spread over instruments.

use vstd::prelude::*;

verus! {

/// A weight, as the 64 bits of a double precision number.
#[derive(Debug, Clone, Copy, PartialEq, Eq, Structural)]
pub struct Weight {
    pub bits: u64,
}

impl Weight {
    /// Not a number: the exponent is all ones, and the fraction is not zero.
    pub open spec fn nan(self) -> bool {
        self.bits % 0x8000_0000_0000_0000 > 0x7ff0_0000_0000_0000
    }

    /// Zero, with either sign.
    pub open spec fn zero(self) -> bool {
        self.bits % 0x8000_0000_0000_0000 == 0
    }

    /// Less than zero.
    pub open spec fn negative(self) -> bool {
        !self.nan() && !self.zero() && self.bits >= 0x8000_0000_0000_0000
    }

    /// Not a number.
    pub fn is_nan(&self) -> (r: bool)
        ensures
            r == self.nan(),
    {
        self.bits % 0x8000_0000_0000_0000 > 0x7ff0_0000_0000_0000
    }

    /// Zero.
    pub fn is_zero(&self) -> (r: bool)
        ensures
            r == self.zero(),
    {
        self.bits % 0x8000_0000_0000_0000 == 0
    }

    /// Less than zero.
    pub fn is_negative(&self) -> (r: bool)
        ensures
            r == self.negative(),
    {
        !self.is_nan() && !self.is_zero() && self.bits >= 0x8000_0000_0000_0000
    }
}

/// How capital is spread over instruments.
#[derive(Debug)]
pub enum CapitalSpread {
    /// The same for each.
    Equal,
    /// By weight, in the order in which the instruments are registered.
    Weighted(Vec<Weight>),
}

/// Why a spread cannot be used.
#[derive(Debug, Clone, Copy, PartialEq, Eq, Structural)]
pub enum CapitalSpreadError {
    EmptyWeights,
    ZeroSum,
    NaNWeight,
    NaNSum,
    NegativeWeight,
}

impl CapitalSpreadError {
    /// What the error says.
    pub open spec fn text(self) -> Seq<char> {
        match self {
            CapitalSpreadError::EmptyWeights => "weights list is empty"@,
            CapitalSpreadError::ZeroSum => "weights sum to 0 — must be positive"@,
            CapitalSpreadError::NaNWeight => "weights contain NaN"@,
            CapitalSpreadError::NaNSum => "weights sum to NaN"@,
            CapitalSpreadError::NegativeWeight =>
                "negative weight found — weights must be non-negative"@,
        }
    }

    /// What the error says.
    pub fn message(&self) -> (r: &'static str)
        ensures
            r@ == self.text(),
    {
        match self {
            CapitalSpreadError::EmptyWeights => "weights list is empty",
            CapitalSpreadError::ZeroSum => "weights sum to 0 — must be positive",
            CapitalSpreadError::NaNWeight => "weights contain NaN",
            CapitalSpreadError::NaNSum => "weights sum to NaN",
            CapitalSpreadError::NegativeWeight =>
                "negative weight found — weights must be non-negative",
        }
    }
}

/// Why weights cannot be used: there are none, one is not a number, one is negative, or all are
/// zero. The sum of other weights is positive.
pub open spec fn weights_fault(w: Seq<Weight>) -> Option<CapitalSpreadError> {
    if w.len() == 0 {
        Some(CapitalSpreadError::EmptyWeights)
    } else if exists|i: int| 0 <= i < w.len() && (#[trigger] w[i]).nan() {
        Some(CapitalSpreadError::NaNWeight)
    } else if exists|i: int| 0 <= i < w.len() && (#[trigger] w[i]).negative() {
        Some(CapitalSpreadError::NegativeWeight)
    } else if forall|i: int| 0 <= i < w.len() ==> (#[trigger] w[i]).zero() {
        Some(CapitalSpreadError::ZeroSum)
    } else {
        None
    }
}

impl CapitalSpread {
    /// The spread can be used.
    pub fn validate(&self) -> (r: Result<(), CapitalSpreadError>)
        ensures
            match *self {
                CapitalSpread::Equal => r is Ok,
                CapitalSpread::Weighted(w) => match weights_fault(w@) {
                    Some(e) => r == Err::<(), CapitalSpreadError>(e),
                    None => r is Ok,
                },
            },
    {
        match self {
            CapitalSpread::Equal => Ok(()),
            CapitalSpread::Weighted(w) => {
                if w.len() == 0 {
                    return Err(CapitalSpreadError::EmptyWeights);
                }
                let mut nan = false;
                let mut negative = false;
                let mut zero = true;
                let mut i: usize = 0;
                while i < w.len()
                    invariant
                        i <= w@.len(),
                        nan <==> exists|j: int| 0 <= j < i && (#[trigger] w@[j]).nan(),
                        negative <==> exists|j: int| 0 <= j < i && (#[trigger] w@[j]).negative(),
                        zero <==> forall|j: int| 0 <= j < i ==> (#[trigger] w@[j]).zero(),
                    decreases w@.len() - i,
                {
                    nan = nan || w[i].is_nan();
                    negative = negative || w[i].is_negative();
                    zero = zero && w[i].is_zero();
                    i = i + 1;
                }
                if nan {
                    Err(CapitalSpreadError::NaNWeight)
                } else if negative {
                    Err(CapitalSpreadError::NegativeWeight)
                } else if zero {
                    Err(CapitalSpreadError::ZeroSum)
                } else {
                    Ok(())
                }
            },
        }
    }

    /// The number of weights.
    pub fn len(&self) -> (r: usize)
        ensures
            r == (match *self {
                CapitalSpread::Equal => 0,
                CapitalSpread::Weighted(w) => w@.len(),
            }),
    {
        match self {
            CapitalSpread::Equal => 0,
            CapitalSpread::Weighted(w) => w.len(),
        }
    }

    /// The capital is the same for each instrument.
    pub fn is_equal(&self) -> (r: bool)
        ensures
            r == (*self is Equal),
    {
        match self {
            CapitalSpread::Equal => true,
            CapitalSpread::Weighted(_) => false,
        }
    }
}

/// The sign of a weight is its highest bit: it makes a number negative, unless it is zero or no
/// number at all. A weight is zero, negative, no number, or above zero.
pub proof fn sign_is_the_highest_bit(bits: u64)
    requires
        bits < 0x8000_0000_0000_0000,
    ensures
        ({
            let w = Weight { bits };
            let m = Weight { bits: (bits + 0x8000_0000_0000_0000) as u64 };
            &&& w.zero() <==> bits == 0
            &&& w.zero() <==> m.zero()
            &&& w.nan() <==> bits > 0x7ff0_0000_0000_0000
            &&& w.nan() <==> m.nan()
            &&& !w.negative()
            &&& m.negative() <==> 0 < bits <= 0x7ff0_0000_0000_0000
        }),
{
}

/// Weights can be used exactly where there are some, each is a number that is not below zero, and one
/// is above it. What is said of other weights does not depend on their order.
pub proof fn weights_can_be_used(w: Seq<Weight>)
    ensures
        weights_fault(w) is None <==> (forall|i: int|
            0 <= i < w.len() ==> !(#[trigger] w[i]).nan() && !w[i].negative()) && (exists|i: int|
            0 <= i < w.len() && !(#[trigger] w[i]).zero()),
        weights_fault(w) == Some(CapitalSpreadError::EmptyWeights) <==> w.len() == 0,
        weights_fault(w) == Some(CapitalSpreadError::NaNWeight) <==> exists|i: int|
            0 <= i < w.len() && (#[trigger] w[i]).nan(),
        weights_fault(w) == Some(CapitalSpreadError::NegativeWeight) <==> (forall|i: int|
            0 <= i < w.len() ==> !(#[trigger] w[i]).nan()) && (exists|i: int|
            0 <= i < w.len() && (#[trigger] w[i]).negative()),
        weights_fault(w) == Some(CapitalSpreadError::ZeroSum) <==> w.len() > 0 && forall|i: int|
            0 <= i < w.len() ==> (#[trigger] w[i]).zero(),
{
    if w.len() > 0 {
        assert(w[0] == w[0]);
    }
}

} // verus!
