//! The numbers that recipes, machines and plans are made of.

use vstd::prelude::*;

verus! {

/// An amount: a count of items, a rate, a crafting time or a speed.
///
/// Each arithmetic operation and comparison is a function of its
/// arguments: the spec functions name what it gives, and the library's
/// contracts speak of amounts through them. What they are on given numbers
/// is the implementing type's own arithmetic, which the library does not
/// fix. So are reading a number and writing one. `plus`, `minus`, `times` and
/// `over` are the four arithmetic operations, `lesser` gives the smaller of
/// two amounts, `parse` reads a decimal number and `format_fixed` writes one
/// with the given number of digits after the point.
pub trait Quantity: Copy + Sized {
    /// Nothing.
    spec fn spec_zero() -> Self;

    /// One unit.
    spec fn spec_one() -> Self;

    /// The whole number `n`.
    spec fn spec_from_u64(n: u64) -> Self;

    /// The sum.
    spec fn spec_plus(self, other: Self) -> Self;

    /// The difference.
    spec fn spec_minus(self, other: Self) -> Self;

    /// The product.
    spec fn spec_times(self, other: Self) -> Self;

    /// The quotient.
    spec fn spec_over(self, other: Self) -> Self;

    /// The smaller of the two.
    spec fn spec_lesser(self, other: Self) -> Self;

    /// `self` is strictly less than `other`.
    spec fn spec_less_than(self, other: Self) -> bool;

    /// `self` is less than or equal to `other`.
    spec fn spec_at_most(self, other: Self) -> bool;

    /// `self` is strictly greater than `other`.
    spec fn spec_greater_than(self, other: Self) -> bool;

    /// The two are equal.
    spec fn spec_equals(self, other: Self) -> bool;

    /// The number written in `text`, if it is one.
    spec fn spec_parse(text: &str) -> Option<Self>;

    /// The number written out with `places` digits after the point.
    spec fn spec_format_fixed(self, places: usize) -> String;

    /// The number written out in its shortest form.
    spec fn spec_format(self) -> String;

    /// Nothing.
    fn zero() -> (r: Self)
        ensures
            r == Self::spec_zero(),
    ;

    /// One unit.
    fn one() -> (r: Self)
        ensures
            r == Self::spec_one(),
    ;

    /// The whole number `n`.
    fn from_u64(n: u64) -> (r: Self)
        ensures
            r == Self::spec_from_u64(n),
    ;

    /// The sum.
    fn plus(self, other: Self) -> (r: Self)
        ensures
            r == self.spec_plus(other),
    ;

    /// The difference.
    fn minus(self, other: Self) -> (r: Self)
        ensures
            r == self.spec_minus(other),
    ;

    /// The product.
    fn times(self, other: Self) -> (r: Self)
        ensures
            r == self.spec_times(other),
    ;

    /// The quotient.
    fn over(self, other: Self) -> (r: Self)
        ensures
            r == self.spec_over(other),
    ;

    /// The smaller of the two.
    fn lesser(self, other: Self) -> (r: Self)
        ensures
            r == self.spec_lesser(other),
    ;

    /// Whether `self` is strictly less than `other`.
    fn less_than(self, other: Self) -> (b: bool)
        ensures
            b == self.spec_less_than(other),
    ;

    /// Whether `self` is less than or equal to `other`.
    fn at_most(self, other: Self) -> (b: bool)
        ensures
            b == self.spec_at_most(other),
    ;

    /// Whether `self` is strictly greater than `other`.
    fn greater_than(self, other: Self) -> (b: bool)
        ensures
            b == self.spec_greater_than(other),
    ;

    /// Whether the two are equal.
    fn equals(self, other: Self) -> (b: bool)
        ensures
            b == self.spec_equals(other),
    ;

    /// The number written in `text`, if it is one.
    fn parse(text: &str) -> (r: Option<Self>)
        ensures
            r == Self::spec_parse(text),
    ;

    /// The number written out with `places` digits after the point.
    fn format_fixed(self, places: usize) -> (s: String)
        ensures
            s@ == self.spec_format_fixed(places)@,
    ;

    /// The number written out in its shortest form.
    fn format(self) -> (s: String)
        ensures
            s@ == self.spec_format()@,
    ;
}

} // verus!
