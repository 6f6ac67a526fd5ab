//! The 2.14 fixed-point number of OpenType: two bits of whole part and
//! fourteen bits of fraction.

use core::cmp::Ordering;
use vstd::prelude::*;
use vstd::std_specs::cmp::PartialOrdSpecImpl;
use vstd::std_specs::ops::AddSpecImpl;

verus! {

/// The greatest fraction: fourteen bits set.
pub const MAX_FRACT: u16 = 0x3fff;

/// A number from -2 to just below 2: a whole part from -2 to 1 and a
/// fraction of at most `MAX_FRACT`.
#[derive(Debug, PartialEq, Eq, Ord)]
pub struct F2Dot14 {
    int: i8,
    fract: u16,
}

/// What an `F2Dot14` is, as plain values.
pub struct F2Dot14View {
    /// The whole part.
    pub int: i8,
    /// The fraction.
    pub fract: u16,
}

impl View for F2Dot14 {
    type V = F2Dot14View;

    closed spec fn view(&self) -> F2Dot14View {
        F2Dot14View { int: self.int, fract: self.fract }
    }
}

/// The parts are those of an `F2Dot14`.
pub open spec fn in_range(whole: i8, fract: u16) -> bool {
    -2 <= whole < 2 && fract <= MAX_FRACT
}

/// The whole part brought into the range from -2 to 1.
pub open spec fn clamped_int(whole: i8) -> i8 {
    if whole < -2 {
        -2i8
    } else if whole > 1 {
        1i8
    } else {
        whole
    }
}

/// The fraction brought down to at most `MAX_FRACT`.
pub open spec fn clamped_fract(fract: u16) -> u16 {
    if fract > MAX_FRACT {
        MAX_FRACT
    } else {
        fract
    }
}

/// The order of two numbers: by the whole part, then by the fraction.
pub open spec fn order_of_parts(a: F2Dot14View, b: F2Dot14View) -> Ordering {
    if a.int < b.int {
        Ordering::Less
    } else if a.int > b.int {
        Ordering::Greater
    } else if a.fract < b.fract {
        Ordering::Less
    } else if a.fract > b.fract {
        Ordering::Greater
    } else {
        Ordering::Equal
    }
}

/// The sum of two numbers as `add` forms it: the parts are added; a
/// fraction above `MAX_FRACT` gives `MAX_FRACT` of itself up to the whole
/// part as one; and the parts are brought into range.
pub open spec fn sum(a: F2Dot14View, b: F2Dot14View) -> F2Dot14View {
    if a.fract + b.fract > MAX_FRACT {
        F2Dot14View {
            int: clamped_int((a.int + b.int + 1) as i8),
            fract: clamped_fract((a.fract + b.fract - MAX_FRACT) as u16),
        }
    } else {
        F2Dot14View {
            int: clamped_int((a.int + b.int) as i8),
            fract: clamped_fract((a.fract + b.fract) as u16),
        }
    }
}

impl F2Dot14 {
    #[verifier::type_invariant]
    spec fn valid(self) -> bool {
        in_range(self.int, self.fract)
    }

    /// The number of the given parts, if they are in range.
    pub fn try_create(whole: i8, fract: u16) -> (number: Option<Self>)
        ensures
            number is Some <==> in_range(whole, fract),
            number matches Some(n) ==> n@.int == whole && n@.fract == fract,
    {
        if whole >= -2 && whole < 2 && fract <= MAX_FRACT {
            Some(Self { int: whole, fract })
        } else {
            None
        }
    }

    /// The number of the given parts, each brought into its range.
    pub fn clamped(whole: i8, fract: u16) -> (number: Self)
        ensures
            number@.int == clamped_int(whole),
            number@.fract == clamped_fract(fract),
    {
        let whole: i8 = if whole < -2 {
            -2
        } else if whole > 1 {
            1
        } else {
            whole
        };
        let fract: u16 = if fract > MAX_FRACT {
            MAX_FRACT
        } else {
            fract
        };
        Self { int: whole, fract }
    }

    /// The whole part.
    pub fn whole(&self) -> (whole: i8)
        ensures
            whole == self@.int,
            in_range(self@.int, self@.fract),
    {
        proof {
            use_type_invariant(self);
        }
        self.int
    }

    /// The fraction.
    pub fn fraction(&self) -> (fract: u16)
        ensures
            fract == self@.fract,
    {
        self.fract
    }
}

impl PartialOrd for F2Dot14 {
    fn partial_cmp(&self, other: &Self) -> (r: Option<Ordering>) {
        if self.int < other.int {
            Some(Ordering::Less)
        } else if self.int > other.int {
            Some(Ordering::Greater)
        } else {
            if self.fract < other.fract {
                Some(Ordering::Less)
            } else if self.fract > other.fract {
                Some(Ordering::Greater)
            } else {
                Some(Ordering::Equal)
            }
        }
    }
}

impl PartialOrdSpecImpl for F2Dot14 {
    open spec fn obeys_partial_cmp_spec() -> bool {
        true
    }

    open spec fn partial_cmp_spec(&self, other: &Self) -> Option<Ordering> {
        Some(order_of_parts(self@, other@))
    }
}

impl core::ops::Add for F2Dot14 {
    type Output = F2Dot14;

    fn add(self, other: Self) -> (r: Self::Output) {
        proof {
            use_type_invariant(&self);
            use_type_invariant(&other);
        }
        let mut fract: u16 = self.fract + other.fract;
        let mut whole: i8 = self.int + other.int;

        if fract > MAX_FRACT {
            fract -= MAX_FRACT;
            whole += 1
        }

        Self::clamped(whole, fract)
    }
}

impl AddSpecImpl for F2Dot14 {
    open spec fn obeys_add_spec() -> bool {
        true
    }

    open spec fn add_req(self, rhs: Self) -> bool {
        true
    }

    open spec fn add_spec(self, rhs: Self) -> Self::Output {
        F2Dot14::from_view(sum(self@, rhs@))
    }
}

impl F2Dot14 {
    /// The number with the given parts.
    pub closed spec fn from_view(view: F2Dot14View) -> F2Dot14 {
        F2Dot14 { int: view.int, fract: view.fract }
    }
}

} // verus!
