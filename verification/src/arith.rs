//! What the generic algorithms need of a scalar type.
use vstd::prelude::*;
use std::ops::{Add, Div, Mul, Neg, Sub};
use vstd::std_specs::ops::{AddSpec, DivSpec, MulSpec, NegSpec, SubSpec};

verus! {

/// Scalars that can be copied, added, subtracted and multiplied.
pub trait Arith: Copy + Add<Output = Self> + Sub<Output = Self> + Mul<Output = Self> {

}

impl<T: Copy + Add<Output = T> + Sub<Output = T> + Mul<Output = T>> Arith for T {

}

/// Scalars that can also be divided and negated.
pub trait FieldOps: Arith + Div<Output = Self> + Neg<Output = Self> {

}

impl<T: Arith + Div<Output = T> + Neg<Output = T>> FieldOps for T {

}

/// `+` on `T` never refuses its operands.
pub open spec fn add_total<T: Add<Output = T>>() -> bool {
    forall|a: T, b: T| #[trigger] a.add_req(b)
}

/// `-` on `T` never refuses its operands.
pub open spec fn sub_total<T: Sub<Output = T>>() -> bool {
    forall|a: T, b: T| #[trigger] a.sub_req(b)
}

/// `*` on `T` never refuses its operands.
pub open spec fn mul_total<T: Mul<Output = T>>() -> bool {
    forall|a: T, b: T| #[trigger] a.mul_req(b)
}

/// `/` on `T` never refuses its operands.
pub open spec fn div_total<T: Div<Output = T>>() -> bool {
    forall|a: T, b: T| #[trigger] a.div_req(b)
}

/// Unary `-` on `T` never refuses its operand.
pub open spec fn neg_total<T: Neg<Output = T>>() -> bool {
    forall|a: T| #[trigger] a.neg_req()
}

/// All five field operations of `T` are defined on every operand.
pub open spec fn field_total<T: FieldOps>() -> bool {
    &&& total::<T>()
    &&& div_total::<T>()
    &&& neg_total::<T>()
}

/// All five field operations of `T` compute exactly their specification functions.
pub open spec fn field_exact<T: FieldOps>() -> bool {
    &&& exact::<T>()
    &&& T::obeys_div_spec()
    &&& T::obeys_neg_spec()
}

/// The three ring operations of `T` are defined on every pair of operands.
pub open spec fn total<T: Arith>() -> bool {
    &&& add_total::<T>()
    &&& sub_total::<T>()
    &&& mul_total::<T>()
}

/// The three ring operations of `T` compute exactly their specification functions.
pub open spec fn exact<T: Arith>() -> bool {
    &&& T::obeys_add_spec()
    &&& T::obeys_sub_spec()
    &&& T::obeys_mul_spec()
}

} // verus!
