use vstd::prelude::*;

verus! {

/// A single value inside a label: a 32-bit signed integer, with helpers to
/// read it back as `usize`, `isize` or `i32`.
#[derive(Clone, Copy, PartialEq, Eq, Structural, Ord, Hash, Debug)]
pub struct LabelValue(i32);

impl View for LabelValue {
    type V = i32;

    closed spec fn view(&self) -> i32 {
        self.0
    }
}

/// Two label values are equal exactly when they hold the same integer.
pub proof fn lemma_view_injective(a: LabelValue, b: LabelValue)
    ensures
        (a == b) == (a@ == b@),
{
}

impl LabelValue {
    /// Create a `LabelValue` holding `value`.
    pub fn new(value: i32) -> (r: LabelValue)
        ensures
            r@ == value,
    {
        LabelValue(value)
    }

    /// Create a `LabelValue` from an unsigned 32-bit integer, which must fit
    /// in an `i32`.
    pub fn from_u32(value: u32) -> (r: LabelValue)
        requires
            value <= i32::MAX,
        ensures
            r@ == value,
    {
        LabelValue(value as i32)
    }

    /// Create a `LabelValue` from a `usize`, which must fit in an `i32`.
    pub fn from_usize(value: usize) -> (r: LabelValue)
        requires
            value <= i32::MAX,
        ensures
            r@ == value,
    {
        LabelValue(value as i32)
    }

    /// Create a `LabelValue` from an `isize`, which must fit in an `i32`.
    pub fn from_isize(value: isize) -> (r: LabelValue)
        requires
            i32::MIN <= value <= i32::MAX,
        ensures
            r@ == value,
    {
        LabelValue(value as i32)
    }

    /// Get the value as a `usize`; the value must not be negative.
    pub fn usize(self) -> (r: usize)
        requires
            self@ >= 0,
        ensures
            r == self@,
    {
        self.0 as usize
    }

    /// Get the value as an `isize`.
    pub fn isize(self) -> (r: isize)
        ensures
            r == self@,
    {
        self.0 as isize
    }

    /// Get the value as an `i32`.
    pub fn i32(self) -> (r: i32)
        ensures
            r == self@,
    {
        self.0
    }
}

impl From<i32> for LabelValue {
    fn from(value: i32) -> (r: LabelValue)
        ensures
            r@ == value,
    {
        LabelValue(value)
    }
}

impl vstd::std_specs::convert::FromSpecImpl<i32> for LabelValue {
    open spec fn obeys_from_spec() -> bool {
        true
    }

    closed spec fn from_spec(v: i32) -> LabelValue {
        LabelValue(v)
    }
}

impl PartialEq<i32> for LabelValue {
    fn eq(&self, other: &i32) -> (r: bool) {
        self.0 == *other
    }
}

impl vstd::std_specs::cmp::PartialEqSpecImpl<i32> for LabelValue {
    open spec fn obeys_eq_spec() -> bool {
        true
    }

    open spec fn eq_spec(&self, other: &i32) -> bool {
        self@ == *other
    }
}

impl PartialEq<LabelValue> for i32 {
    fn eq(&self, other: &LabelValue) -> (r: bool) {
        *self == other.0
    }
}

impl vstd::std_specs::cmp::PartialEqSpecImpl<LabelValue> for i32 {
    open spec fn obeys_eq_spec() -> bool {
        true
    }

    open spec fn eq_spec(&self, other: &LabelValue) -> bool {
        *self == other@
    }
}

/// Label values are ordered as the integers they hold.
impl PartialOrd for LabelValue {
    fn partial_cmp(&self, other: &LabelValue) -> (r: Option<core::cmp::Ordering>) {
        if self.0 < other.0 {
            Some(core::cmp::Ordering::Less)
        } else if self.0 == other.0 {
            Some(core::cmp::Ordering::Equal)
        } else {
            Some(core::cmp::Ordering::Greater)
        }
    }
}

impl vstd::std_specs::cmp::PartialOrdSpecImpl for LabelValue {
    open spec fn obeys_partial_cmp_spec() -> bool {
        true
    }

    open spec fn partial_cmp_spec(&self, other: &LabelValue) -> Option<core::cmp::Ordering> {
        if self@ < other@ {
            Some(core::cmp::Ordering::Less)
        } else if self@ == other@ {
            Some(core::cmp::Ordering::Equal)
        } else {
            Some(core::cmp::Ordering::Greater)
        }
    }
}

} // verus!
