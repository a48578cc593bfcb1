//! A two-component vector with the usual arithmetic, used by the grid for
//! sizes and lattice positions.
//!
//! The arithmetic is generic: what an operator does to the two components
//! is what the component type says it does, and an operator may be used
//! wherever the component type allows it for both components.

use core::ops::{
    Add, AddAssign, Div, DivAssign, Mul, MulAssign, Neg, Sub, SubAssign,
};
use std::cmp::Ordering;
use vstd::prelude::*;
use vstd::std_specs::cmp::{OrdSpec, PartialOrdSpec};
use vstd::std_specs::ops::{AddSpec, DivSpec, MulSpec, NegSpec, SubSpec};

verus! {

/// A pair of coordinates.
#[derive(Debug, Clone, Copy, PartialEq, Eq, Structural)]
pub struct Vector2<T> {
    pub x: T,
    pub y: T,
}

// Things that work for all vectors
impl<T> Vector2<T> {
    /// Builds the vector `(x, y)`.
    pub fn new(x: T, y: T) -> (v: Self)
        ensures
            v.x == x,
            v.y == y,
    {
        Vector2 { x, y }
    }

    /// Swaps the two components.
    pub fn transpose(self) -> (v: Self)
        ensures
            v.x == self.y,
            v.y == self.x,
    {
        Vector2 { x: self.y, y: self.x }
    }
}

impl<T: Default> Default for Vector2<T> {
    /// The vector whose components are both the default of their type.
    fn default() -> (v: Self)
        ensures
            call_ensures(T::default, (), v.x),
            call_ensures(T::default, (), v.y),
    {
        Vector2 { x: T::default(), y: T::default() }
    }
}

// Vector with vector, component by component
impl<T: Add> Add for Vector2<T> {
    type Output = Vector2<<T as Add>::Output>;

    fn add(self, rhs: Self) -> (r: Self::Output) {
        Vector2 { x: self.x + rhs.x, y: self.y + rhs.y }
    }
}

impl<T: Add> vstd::std_specs::ops::AddSpecImpl for Vector2<T> {
    open spec fn obeys_add_spec() -> bool {
        T::obeys_add_spec()
    }

    open spec fn add_req(self, rhs: Self) -> bool {
        self.x.add_req(rhs.x) && self.y.add_req(rhs.y)
    }

    open spec fn add_spec(self, rhs: Self) -> Self::Output {
        Vector2 { x: self.x.add_spec(rhs.x), y: self.y.add_spec(rhs.y) }
    }
}

impl<T: Sub> Sub for Vector2<T> {
    type Output = Vector2<<T as Sub>::Output>;

    fn sub(self, rhs: Self) -> (r: Self::Output) {
        Vector2 { x: self.x - rhs.x, y: self.y - rhs.y }
    }
}

impl<T: Sub> vstd::std_specs::ops::SubSpecImpl for Vector2<T> {
    open spec fn obeys_sub_spec() -> bool {
        T::obeys_sub_spec()
    }

    open spec fn sub_req(self, rhs: Self) -> bool {
        self.x.sub_req(rhs.x) && self.y.sub_req(rhs.y)
    }

    open spec fn sub_spec(self, rhs: Self) -> Self::Output {
        Vector2 { x: self.x.sub_spec(rhs.x), y: self.y.sub_spec(rhs.y) }
    }
}

impl<T: Mul> Mul for Vector2<T> {
    type Output = Vector2<<T as Mul>::Output>;

    fn mul(self, rhs: Self) -> (r: Self::Output) {
        Vector2 { x: self.x * rhs.x, y: self.y * rhs.y }
    }
}

impl<T: Mul> vstd::std_specs::ops::MulSpecImpl for Vector2<T> {
    open spec fn obeys_mul_spec() -> bool {
        T::obeys_mul_spec()
    }

    open spec fn mul_req(self, rhs: Self) -> bool {
        self.x.mul_req(rhs.x) && self.y.mul_req(rhs.y)
    }

    open spec fn mul_spec(self, rhs: Self) -> Self::Output {
        Vector2 { x: self.x.mul_spec(rhs.x), y: self.y.mul_spec(rhs.y) }
    }
}

impl<T: Div> Div for Vector2<T> {
    type Output = Vector2<<T as Div>::Output>;

    fn div(self, rhs: Self) -> (r: Self::Output) {
        Vector2 { x: self.x / rhs.x, y: self.y / rhs.y }
    }
}

impl<T: Div> vstd::std_specs::ops::DivSpecImpl for Vector2<T> {
    open spec fn obeys_div_spec() -> bool {
        T::obeys_div_spec()
    }

    open spec fn div_req(self, rhs: Self) -> bool {
        self.x.div_req(rhs.x) && self.y.div_req(rhs.y)
    }

    open spec fn div_spec(self, rhs: Self) -> Self::Output {
        Vector2 { x: self.x.div_spec(rhs.x), y: self.y.div_spec(rhs.y) }
    }
}

// Vector with scalar: the scalar meets both components
impl<T: Copy + Add> Add<T> for Vector2<T> {
    type Output = Vector2<<T as Add>::Output>;

    fn add(self, rhs: T) -> (r: Self::Output) {
        Vector2 { x: self.x + rhs, y: self.y + rhs }
    }
}

impl<T: Copy + Add> vstd::std_specs::ops::AddSpecImpl<T> for Vector2<T> {
    open spec fn obeys_add_spec() -> bool {
        T::obeys_add_spec()
    }

    open spec fn add_req(self, rhs: T) -> bool {
        self.x.add_req(rhs) && self.y.add_req(rhs)
    }

    open spec fn add_spec(self, rhs: T) -> Self::Output {
        Vector2 { x: self.x.add_spec(rhs), y: self.y.add_spec(rhs) }
    }
}

impl<T: Copy + Sub> Sub<T> for Vector2<T> {
    type Output = Vector2<<T as Sub>::Output>;

    fn sub(self, rhs: T) -> (r: Self::Output) {
        Vector2 { x: self.x - rhs, y: self.y - rhs }
    }
}

impl<T: Copy + Sub> vstd::std_specs::ops::SubSpecImpl<T> for Vector2<T> {
    open spec fn obeys_sub_spec() -> bool {
        T::obeys_sub_spec()
    }

    open spec fn sub_req(self, rhs: T) -> bool {
        self.x.sub_req(rhs) && self.y.sub_req(rhs)
    }

    open spec fn sub_spec(self, rhs: T) -> Self::Output {
        Vector2 { x: self.x.sub_spec(rhs), y: self.y.sub_spec(rhs) }
    }
}

impl<T: Copy + Mul> Mul<T> for Vector2<T> {
    type Output = Vector2<<T as Mul>::Output>;

    fn mul(self, rhs: T) -> (r: Self::Output) {
        Vector2 { x: self.x * rhs, y: self.y * rhs }
    }
}

impl<T: Copy + Mul> vstd::std_specs::ops::MulSpecImpl<T> for Vector2<T> {
    open spec fn obeys_mul_spec() -> bool {
        T::obeys_mul_spec()
    }

    open spec fn mul_req(self, rhs: T) -> bool {
        self.x.mul_req(rhs) && self.y.mul_req(rhs)
    }

    open spec fn mul_spec(self, rhs: T) -> Self::Output {
        Vector2 { x: self.x.mul_spec(rhs), y: self.y.mul_spec(rhs) }
    }
}

impl<T: Copy + Div> Div<T> for Vector2<T> {
    type Output = Vector2<<T as Div>::Output>;

    fn div(self, rhs: T) -> (r: Self::Output) {
        Vector2 { x: self.x / rhs, y: self.y / rhs }
    }
}

impl<T: Copy + Div> vstd::std_specs::ops::DivSpecImpl<T> for Vector2<T> {
    open spec fn obeys_div_spec() -> bool {
        T::obeys_div_spec()
    }

    open spec fn div_req(self, rhs: T) -> bool {
        self.x.div_req(rhs) && self.y.div_req(rhs)
    }

    open spec fn div_spec(self, rhs: T) -> Self::Output {
        Vector2 { x: self.x.div_spec(rhs), y: self.y.div_spec(rhs) }
    }
}

impl<T: Neg> Neg for Vector2<T> {
    type Output = Vector2<<T as Neg>::Output>;

    fn neg(self) -> (r: Self::Output) {
        Vector2 { x: self.x.neg(), y: self.y.neg() }
    }
}

impl<T: Neg> vstd::std_specs::ops::NegSpecImpl for Vector2<T> {
    open spec fn obeys_neg_spec() -> bool {
        T::obeys_neg_spec()
    }

    open spec fn neg_req(self) -> bool {
        self.x.neg_req() && self.y.neg_req()
    }

    open spec fn neg_spec(self) -> Self::Output {
        Vector2 { x: self.x.neg_spec(), y: self.y.neg_spec() }
    }
}

// In place: the vector takes the result
impl<T: Copy + Add<Output = T>> AddAssign for Vector2<T> {
    fn add_assign(&mut self, rhs: Self)
        requires
            old(self).x.add_req(rhs.x),
            old(self).y.add_req(rhs.y),
        ensures
            T::obeys_add_spec() ==> *final(self) == (Vector2 {
                x: old(self).x.add_spec(rhs.x),
                y: old(self).y.add_spec(rhs.y),
            }),
    {
        self.x = self.x + rhs.x;
        self.y = self.y + rhs.y;
    }
}

impl<T: Copy + Add<Output = T>> AddAssign<T> for Vector2<T> {
    fn add_assign(&mut self, rhs: T)
        requires
            old(self).x.add_req(rhs),
            old(self).y.add_req(rhs),
        ensures
            T::obeys_add_spec() ==> *final(self) == (Vector2 {
                x: old(self).x.add_spec(rhs),
                y: old(self).y.add_spec(rhs),
            }),
    {
        self.x = self.x + rhs;
        self.y = self.y + rhs;
    }
}

impl<T: Copy + Sub<Output = T>> SubAssign for Vector2<T> {
    fn sub_assign(&mut self, rhs: Self)
        requires
            old(self).x.sub_req(rhs.x),
            old(self).y.sub_req(rhs.y),
        ensures
            T::obeys_sub_spec() ==> *final(self) == (Vector2 {
                x: old(self).x.sub_spec(rhs.x),
                y: old(self).y.sub_spec(rhs.y),
            }),
    {
        self.x = self.x - rhs.x;
        self.y = self.y - rhs.y;
    }
}

impl<T: Copy + Sub<Output = T>> SubAssign<T> for Vector2<T> {
    fn sub_assign(&mut self, rhs: T)
        requires
            old(self).x.sub_req(rhs),
            old(self).y.sub_req(rhs),
        ensures
            T::obeys_sub_spec() ==> *final(self) == (Vector2 {
                x: old(self).x.sub_spec(rhs),
                y: old(self).y.sub_spec(rhs),
            }),
    {
        self.x = self.x - rhs;
        self.y = self.y - rhs;
    }
}

impl<T: Copy + Mul<Output = T>> MulAssign for Vector2<T> {
    fn mul_assign(&mut self, rhs: Self)
        requires
            old(self).x.mul_req(rhs.x),
            old(self).y.mul_req(rhs.y),
        ensures
            T::obeys_mul_spec() ==> *final(self) == (Vector2 {
                x: old(self).x.mul_spec(rhs.x),
                y: old(self).y.mul_spec(rhs.y),
            }),
    {
        self.x = self.x * rhs.x;
        self.y = self.y * rhs.y;
    }
}

impl<T: Copy + Mul<Output = T>> MulAssign<T> for Vector2<T> {
    fn mul_assign(&mut self, rhs: T)
        requires
            old(self).x.mul_req(rhs),
            old(self).y.mul_req(rhs),
        ensures
            T::obeys_mul_spec() ==> *final(self) == (Vector2 {
                x: old(self).x.mul_spec(rhs),
                y: old(self).y.mul_spec(rhs),
            }),
    {
        self.x = self.x * rhs;
        self.y = self.y * rhs;
    }
}

impl<T: Copy + Div<Output = T>> DivAssign for Vector2<T> {
    fn div_assign(&mut self, rhs: Self)
        requires
            old(self).x.div_req(rhs.x),
            old(self).y.div_req(rhs.y),
        ensures
            T::obeys_div_spec() ==> *final(self) == (Vector2 {
                x: old(self).x.div_spec(rhs.x),
                y: old(self).y.div_spec(rhs.y),
            }),
    {
        self.x = self.x / rhs.x;
        self.y = self.y / rhs.y;
    }
}

impl<T: Copy + Div<Output = T>> DivAssign<T> for Vector2<T> {
    fn div_assign(&mut self, rhs: T)
        requires
            old(self).x.div_req(rhs),
            old(self).y.div_req(rhs),
        ensures
            T::obeys_div_spec() ==> *final(self) == (Vector2 {
                x: old(self).x.div_spec(rhs),
                y: old(self).y.div_spec(rhs),
            }),
    {
        self.x = self.x / rhs;
        self.y = self.y / rhs;
    }
}

// Absolute value trait
pub trait Abs {
    type Output;

    /// Whether the absolute value can be taken.
    spec fn abs_req(self) -> bool;

    /// The absolute value.
    spec fn abs_spec(self) -> Self::Output;

    fn abs(self) -> (r: Self::Output)
        requires
            self.abs_req(),
        ensures
            r == self.abs_spec(),
    ;
}

impl Abs for i8 {
    type Output = Self;

    open spec fn abs_req(self) -> bool {
        self > i8::MIN
    }

    open spec fn abs_spec(self) -> Self {
        if self < 0 {
            (-self) as i8
        } else {
            self
        }
    }

    fn abs(self) -> (r: Self) {
        if self < 0 {
            -self
        } else {
            self
        }
    }
}

impl Abs for i16 {
    type Output = Self;

    open spec fn abs_req(self) -> bool {
        self > i16::MIN
    }

    open spec fn abs_spec(self) -> Self {
        if self < 0 {
            (-self) as i16
        } else {
            self
        }
    }

    fn abs(self) -> (r: Self) {
        if self < 0 {
            -self
        } else {
            self
        }
    }
}

impl Abs for i32 {
    type Output = Self;

    open spec fn abs_req(self) -> bool {
        self > i32::MIN
    }

    open spec fn abs_spec(self) -> Self {
        if self < 0 {
            (-self) as i32
        } else {
            self
        }
    }

    fn abs(self) -> (r: Self) {
        if self < 0 {
            -self
        } else {
            self
        }
    }
}

impl Abs for i64 {
    type Output = Self;

    open spec fn abs_req(self) -> bool {
        self > i64::MIN
    }

    open spec fn abs_spec(self) -> Self {
        if self < 0 {
            (-self) as i64
        } else {
            self
        }
    }

    fn abs(self) -> (r: Self) {
        if self < 0 {
            -self
        } else {
            self
        }
    }
}

impl Abs for i128 {
    type Output = Self;

    open spec fn abs_req(self) -> bool {
        self > i128::MIN
    }

    open spec fn abs_spec(self) -> Self {
        if self < 0 {
            (-self) as i128
        } else {
            self
        }
    }

    fn abs(self) -> (r: Self) {
        if self < 0 {
            -self
        } else {
            self
        }
    }
}

impl Abs for isize {
    type Output = Self;

    open spec fn abs_req(self) -> bool {
        self > isize::MIN
    }

    open spec fn abs_spec(self) -> Self {
        if self < 0 {
            (-self) as isize
        } else {
            self
        }
    }

    fn abs(self) -> (r: Self) {
        if self < 0 {
            -self
        } else {
            self
        }
    }
}

impl<T: Abs> Abs for Vector2<T> {
    type Output = Vector2<<T as Abs>::Output>;

    open spec fn abs_req(self) -> bool {
        self.x.abs_req() && self.y.abs_req()
    }

    open spec fn abs_spec(self) -> Self::Output {
        Vector2 { x: self.x.abs_spec(), y: self.y.abs_spec() }
    }

    fn abs(self) -> (r: Self::Output) {
        Vector2 { x: self.x.abs(), y: self.y.abs() }
    }
}

// Actual vector math
impl<T: Mul> Vector2<T> {
    /// The product of the two components.
    pub fn area(self) -> (r: <T as Mul>::Output)
        requires
            self.x.mul_req(self.y),
        ensures
            T::obeys_mul_spec() ==> r == self.x.mul_spec(self.y),
    {
        self.x * self.y
    }
}

impl<T: Copy + Mul> Vector2<T> {
    /// Each component times itself.
    pub fn squared(self) -> (r: Vector2<<T as Mul>::Output>)
        requires
            self.x.mul_req(self.x),
            self.y.mul_req(self.y),
        ensures
            T::obeys_mul_spec() ==> r == (Vector2 {
                x: self.x.mul_spec(self.x),
                y: self.y.mul_spec(self.y),
            }),
    {
        self * self
    }
}

impl<T: Add> Vector2<T> {
    /// The sum of the two components.
    pub fn sum(self) -> (r: <T as Add>::Output)
        requires
            self.x.add_req(self.y),
        ensures
            T::obeys_add_spec() ==> r == self.x.add_spec(self.y),
    {
        self.x + self.y
    }
}

impl<T> Vector2<T> where T: Copy + Mul, <T as Mul>::Output: Add {
    /// The squared magnitude: the sum of the squares of the components.
    pub fn mag2(self) -> (r: <<T as Mul>::Output as Add>::Output)
        requires
            T::obeys_mul_spec(),
            self.x.mul_req(self.x),
            self.y.mul_req(self.y),
            self.x.mul_spec(self.x).add_req(self.y.mul_spec(self.y)),
        ensures
            <<T as Mul>::Output as AddSpec>::obeys_add_spec() ==> r == self.x.mul_spec(
                self.x,
            ).add_spec(self.y.mul_spec(self.y)),
    {
        self.squared().sum()
    }
}

impl<T> Vector2<T> where T: Neg<Output = T> {
    /// The vector turned by a quarter turn.
    pub fn perp(self) -> (r: Self)
        requires
            self.y.neg_req(),
        ensures
            T::obeys_neg_spec() ==> r == (Vector2 { x: self.y.neg_spec(), y: self.x }),
    {
        Vector2 { x: self.y.neg(), y: self.x }
    }
}

impl<T: Ord> Vector2<T> {
    /// The smaller of the two vectors in each component.
    pub fn min(self, other: Self) -> (r: Self)
        ensures
            T::obeys_cmp_spec() ==> r == (Vector2 {
                x: if other.x.cmp_spec(&self.x) == Ordering::Less {
                    other.x
                } else {
                    self.x
                },
                y: if other.y.cmp_spec(&self.y) == Ordering::Less {
                    other.y
                } else {
                    self.y
                },
            }),
    {
        Vector2 { x: Ord::min(self.x, other.x), y: Ord::min(self.y, other.y) }
    }

    /// The larger of the two vectors in each component.
    pub fn max(self, other: Self) -> (r: Self)
        ensures
            T::obeys_cmp_spec() ==> r == (Vector2 {
                x: if other.x.cmp_spec(&self.x) == Ordering::Less {
                    self.x
                } else {
                    other.x
                },
                y: if other.y.cmp_spec(&self.y) == Ordering::Less {
                    self.y
                } else {
                    other.y
                },
            }),
    {
        Vector2 { x: Ord::max(self.x, other.x), y: Ord::max(self.y, other.y) }
    }

    /// The vector with each component held between those of `min` and
    /// `max`.
    pub fn clamp(self, min: Self, max: Self) -> (r: Self)
        requires
            T::obeys_partial_cmp_spec(),
            min.x.partial_cmp_spec(&max.x) matches Some(Ordering::Less | Ordering::Equal),
            min.y.partial_cmp_spec(&max.y) matches Some(Ordering::Less | Ordering::Equal),
        ensures
            T::obeys_cmp_spec() ==> r == (Vector2 {
                x: if self.x.cmp_spec(&min.x) == Ordering::Less {
                    min.x
                } else if self.x.cmp_spec(&max.x) == Ordering::Greater {
                    max.x
                } else {
                    self.x
                },
                y: if self.y.cmp_spec(&min.y) == Ordering::Less {
                    min.y
                } else if self.y.cmp_spec(&max.y) == Ordering::Greater {
                    max.y
                } else {
                    self.y
                },
            }),
    {
        Vector2 { x: Ord::clamp(self.x, min.x, max.x), y: Ord::clamp(self.y, min.y, max.y) }
    }
}

impl<T> Vector2<T> where T: Mul, <T as Mul>::Output: Add {
    /// The dot product.
    pub fn dot(self, rhs: Vector2<T>) -> (r: <<T as Mul>::Output as Add>::Output)
        requires
            T::obeys_mul_spec(),
            self.x.mul_req(rhs.x),
            self.y.mul_req(rhs.y),
            self.x.mul_spec(rhs.x).add_req(self.y.mul_spec(rhs.y)),
        ensures
            <<T as Mul>::Output as AddSpec>::obeys_add_spec() ==> r == self.x.mul_spec(
                rhs.x,
            ).add_spec(self.y.mul_spec(rhs.y)),
    {
        (self * rhs).sum()
    }
}

impl<T> Vector2<T> where T: Mul, <T as Mul>::Output: Sub {
    /// The cross product: the signed area that the two vectors span.
    pub fn cross(self, rhs: Vector2<T>) -> (r: <<T as Mul>::Output as Sub>::Output)
        requires
            T::obeys_mul_spec(),
            self.x.mul_req(rhs.y),
            self.y.mul_req(rhs.x),
            self.x.mul_spec(rhs.y).sub_req(self.y.mul_spec(rhs.x)),
        ensures
            <<T as Mul>::Output as SubSpec>::obeys_sub_spec() ==> r == self.x.mul_spec(
                rhs.y,
            ).sub_spec(self.y.mul_spec(rhs.x)),
    {
        let Vector2 { x, y } = self * rhs.transpose();
        x - y
    }
}

impl<T> Vector2<T> where T: Copy + Sub<Output = T> + Mul<Output = T> + Add<Output = T> {
    /// The point on the way from this vector to `to`, `by` being the share
    /// of the way that has been gone.
    pub fn lerp(self, to: Self, by: T) -> (r: Vector2<T>)
        requires
            T::obeys_sub_spec(),
            T::obeys_mul_spec(),
            to.x.sub_req(self.x),
            to.y.sub_req(self.y),
            to.x.sub_spec(self.x).mul_req(by),
            to.y.sub_spec(self.y).mul_req(by),
            to.x.sub_spec(self.x).mul_spec(by).add_req(self.x),
            to.y.sub_spec(self.y).mul_spec(by).add_req(self.y),
        ensures
            T::obeys_add_spec() ==> r == (Vector2 {
                x: to.x.sub_spec(self.x).mul_spec(by).add_spec(self.x),
                y: to.y.sub_spec(self.y).mul_spec(by).add_spec(self.y),
            }),
    {
        (to - self) * by + self
    }
}

impl<T> Vector2<T> where
    T: Copy + Mul + From<u8>,
    <T as Mul>::Output: Add,
    <<T as Mul>::Output as Add>::Output: Mul<Vector2<T>>,
    <<<T as Mul>::Output as Add>::Output as Mul<Vector2<T>>>::Output: Mul<T>,
    Vector2<T>: Sub<
        <<<<T as Mul>::Output as Add>::Output as Mul<Vector2<T>>>::Output as Mul<T>>::Output,
    >,
 {
    /// The vector mirrored along `along`: the vector less twice its part
    /// along `along`.
    pub fn reflect(self, along: Self) -> (r: <Vector2<T> as Sub<
        <<<<T as Mul>::Output as Add>::Output as Mul<Vector2<T>>>::Output as Mul<T>>::Output,
    >>::Output)
        requires
            T::obeys_mul_spec(),
            <<T as Mul>::Output as AddSpec>::obeys_add_spec(),
            <<<T as Mul>::Output as Add>::Output as MulSpec<Vector2<T>>>::obeys_mul_spec(),
            <<<<T as Mul>::Output as Add>::Output as Mul<Vector2<T>>>::Output as MulSpec<
                T,
            >>::obeys_mul_spec(),
            <T as vstd::std_specs::convert::FromSpec<u8>>::obeys_from_spec(),
            self.x.mul_req(along.x),
            self.y.mul_req(along.y),
            self.x.mul_spec(along.x).add_req(self.y.mul_spec(along.y)),
            self.x.mul_spec(along.x).add_spec(self.y.mul_spec(along.y)).mul_req(along),
            self.x.mul_spec(along.x).add_spec(self.y.mul_spec(along.y)).mul_spec(along).mul_req(
                <T as vstd::std_specs::convert::FromSpec<u8>>::from_spec(2u8),
            ),
            self.sub_req(
                self.x.mul_spec(along.x).add_spec(self.y.mul_spec(along.y)).mul_spec(
                    along,
                ).mul_spec(<T as vstd::std_specs::convert::FromSpec<u8>>::from_spec(2u8)),
            ),
        ensures
            <Vector2<T> as SubSpec<
                <<<<T as Mul>::Output as Add>::Output as Mul<Vector2<T>>>::Output as Mul<
                    T,
                >>::Output,
            >>::obeys_sub_spec() ==> r == self.sub_spec(
                self.x.mul_spec(along.x).add_spec(self.y.mul_spec(along.y)).mul_spec(
                    along,
                ).mul_spec(<T as vstd::std_specs::convert::FromSpec<u8>>::from_spec(2u8)),
            ),
    {
        self - self.dot(along) * along * (T::from(2))
    }
}

} // verus!
