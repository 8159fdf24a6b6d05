//! Logical cluster numbers.

use vstd::prelude::*;
use vstd::std_specs::convert::FromSpecImpl;

verus! {

/// A cluster of a volume, counted from the volume's start.
///
/// The number is signed as it is in the operating system's buffers: retrieval
/// pointers mark a sparse extent by a negative number. Data runs mark one by
/// zero instead. Values are ordered as their numbers are.
#[derive(Copy, Clone, Debug, PartialEq, Eq, Structural, PartialOrd, Ord, Hash)]
pub struct Lcn(pub i64);

impl Lcn {
    /// The first cluster of the volume.
    pub fn zero() -> (r: Lcn)
        ensures
            r == Lcn(0),
    {
        Lcn(0)
    }

    /// The number that the operating system gives to sparse extents.
    pub fn hole() -> (r: Lcn)
        ensures
            r == Lcn(-1i64),
    {
        Lcn(-1)
    }

    /// The cluster of a number.
    pub fn new(raw: i64) -> (r: Lcn)
        ensures
            r == Lcn(raw),
    {
        Lcn(raw)
    }

    /// The number of the cluster.
    pub fn raw(self) -> (r: i64)
        ensures
            r == self.0,
    {
        self.0
    }

    /// The bit pattern of the number, read without a sign. For a cluster that
    /// is no hole this is its number.
    pub fn raw_unsigned(self) -> (r: u64)
        ensures
            r == crate::bytes::unsigned64(self.0),
            self.0 >= 0 ==> r == self.0,
    {
        crate::bytes::to_unsigned64(self.0)
    }

    /// Whether the number marks a sparse extent: any negative number does.
    pub fn is_hole(self) -> (r: bool)
        ensures
            r == (self.0 < 0),
    {
        self.0 < 0
    }

    /// Whether this is the first cluster, by which data runs mark a sparse
    /// run.
    pub fn is_zero(self) -> (r: bool)
        ensures
            r == (self.0 == 0),
    {
        self.0 == 0
    }

    /// The number in decimal.
    pub fn to_string(&self) -> (r: String)
        ensures
            r@ == crate::text::signed_decimal(self.0 as int),
    {
        let mut s: String = String::new();
        crate::text::push_signed_decimal(&mut s, self.0);
        assert(s@ =~= crate::text::signed_decimal(self.0 as int));
        s
    }
}

impl From<i64> for Lcn {
    fn from(raw: i64) -> (r: Lcn) {
        Lcn(raw)
    }
}

impl FromSpecImpl<i64> for Lcn {
    open spec fn obeys_from_spec() -> bool {
        true
    }

    open spec fn from_spec(raw: i64) -> Lcn {
        Lcn(raw)
    }
}

impl From<Lcn> for i64 {
    fn from(value: Lcn) -> (r: i64) {
        value.0
    }
}

impl FromSpecImpl<Lcn> for i64 {
    open spec fn obeys_from_spec() -> bool {
        true
    }

    open spec fn from_spec(value: Lcn) -> i64 {
        value.0
    }
}

} // verus!
