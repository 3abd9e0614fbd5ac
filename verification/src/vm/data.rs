//! Tagged values: numbers, truth values and nil, for code that wants to
//! tell them apart.
use vstd::prelude::*;
use crate::vm::semantics::VMError;

verus! {

/// What a tagged value holds.
#[derive(Debug, Clone, Copy, PartialEq, Eq, Hash, Structural)]
pub enum EstaType {
    Num(i32),
    Bool(bool),
    Nil,
}

impl Default for EstaType {
    fn default() -> (r: Self)
        ensures
            r == EstaType::Nil,
    {
        EstaType::Nil
    }
}

/// A tagged value.
#[derive(Debug, Clone, Copy, PartialEq, Eq, Hash, Structural)]
pub struct EstaData {
    data: EstaType,
}

impl View for EstaData {
    type V = EstaType;

    closed spec fn view(&self) -> EstaType {
        self.data
    }
}

impl Default for EstaData {
    fn default() -> (r: Self)
        ensures
            r@ == EstaType::Nil,
    {
        EstaData { data: EstaType::Nil }
    }
}

/// The sum of two 32-bit integers, wrapped around into their range.
pub open spec fn wrapping_sum(a: i32, b: i32) -> i32 {
    if a + b > i32::MAX {
        (a + b - 0x1_0000_0000) as i32
    } else if a + b < i32::MIN {
        (a + b + 0x1_0000_0000) as i32
    } else {
        (a + b) as i32
    }
}

impl EstaData {
    /// A number.
    pub fn new_int(data: i32) -> (r: EstaData)
        ensures
            r@ == EstaType::Num(data),
    {
        EstaData { data: EstaType::Num(data) }
    }

    /// A truth value.
    pub fn new_bool(data: bool) -> (r: EstaData)
        ensures
            r@ == EstaType::Bool(data),
    {
        EstaData { data: EstaType::Bool(data) }
    }

    /// What the value holds.
    pub fn kind(&self) -> (r: EstaType)
        ensures
            r == self@,
    {
        self.data
    }

    /// The sum of two numbers, which wraps around. Anything but two numbers
    /// is a type mismatch.
    pub fn new_add(lhs: EstaData, rhs: EstaData) -> (r: Result<EstaData, VMError>)
        ensures
            match (lhs@, rhs@) {
                (EstaType::Num(a), EstaType::Num(b)) => r is Ok && r->Ok_0@ == EstaType::Num(
                    wrapping_sum(a, b),
                ),
                _ => r == Err::<EstaData, VMError>(VMError::TypeMismatch),
            },
    {
        match (lhs.data, rhs.data) {
            (EstaType::Num(a), EstaType::Num(b)) => Ok(EstaData::new_int(a.wrapping_add(b))),
            _ => Err(VMError::TypeMismatch),
        }
    }

    /// The truth value that the value holds. Anything but a truth value is
    /// a type mismatch.
    pub fn eval_bool(self) -> (r: Result<bool, VMError>)
        ensures
            match self@ {
                EstaType::Bool(b) => r == Ok::<bool, VMError>(b),
                _ => r == Err::<bool, VMError>(VMError::TypeMismatch),
            },
    {
        match self.data {
            EstaType::Bool(b) => Ok(b),
            _ => Err(VMError::TypeMismatch),
        }
    }
}

} // verus!
