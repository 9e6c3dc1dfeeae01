//! Strongly typed monetary primitives: prices, volumes and values.
//!
//! A `Price` is a tick on the ladder, a `Volume` a quantity of an
//! instrument, and a `Value` the product of the two. The operator impls
//! keep the units straight: volume times price gives value, and same-unit
//! quantities add and subtract.

use vstd::prelude::*;
use vstd::std_specs::ops::{AddSpecImpl, MulSpecImpl, SubSpecImpl};

verus! {

/// An amount of value (money).
#[derive(Debug, PartialEq, Eq, PartialOrd, Ord, Hash, Copy, Clone, Structural)]
pub struct Value(pub u64);

/// A quantity of an instrument.
#[derive(Debug, PartialEq, Eq, PartialOrd, Ord, Hash, Copy, Clone, Structural)]
pub struct Volume(pub u64);

/// A price tick.
#[derive(Debug, PartialEq, Eq, PartialOrd, Ord, Hash, Copy, Clone, Structural)]
pub struct Price(pub u64);

impl Value {
    /// The raw amount.
    pub fn get(&self) -> (r: u64)
        ensures
            r == self.0,
    {
        self.0
    }
}

impl Volume {
    /// The raw quantity.
    pub fn get(&self) -> (r: u64)
        ensures
            r == self.0,
    {
        self.0
    }
}

impl Price {
    /// The raw tick.
    pub fn get(&self) -> (r: u64)
        ensures
            r == self.0,
    {
        self.0
    }
}

impl core::ops::Mul<Price> for Volume {
    type Output = Value;

    /// Value bought or sold when this volume trades at `rhs`.
    fn mul(self, rhs: Price) -> (r: Value) {
        Value(self.0 * rhs.0)
    }
}

impl MulSpecImpl<Price> for Volume {
    open spec fn obeys_mul_spec() -> bool {
        true
    }

    open spec fn mul_req(self, rhs: Price) -> bool {
        self.0 * rhs.0 <= u64::MAX
    }

    open spec fn mul_spec(self, rhs: Price) -> Value {
        Value((self.0 * rhs.0) as u64)
    }
}

impl core::ops::Mul<Volume> for Price {
    type Output = Value;

    /// Value bought or sold when `rhs` trades at this price.
    fn mul(self, rhs: Volume) -> (r: Value) {
        Value(self.0 * rhs.0)
    }
}

impl MulSpecImpl<Volume> for Price {
    open spec fn obeys_mul_spec() -> bool {
        true
    }

    open spec fn mul_req(self, rhs: Volume) -> bool {
        self.0 * rhs.0 <= u64::MAX
    }

    open spec fn mul_spec(self, rhs: Volume) -> Value {
        Value((self.0 * rhs.0) as u64)
    }
}

impl core::ops::Add<Price> for Price {
    type Output = Price;

    fn add(self, rhs: Price) -> (r: Price) {
        Price(self.0 + rhs.0)
    }
}

impl AddSpecImpl<Price> for Price {
    open spec fn obeys_add_spec() -> bool {
        true
    }

    open spec fn add_req(self, rhs: Price) -> bool {
        self.0 + rhs.0 <= u64::MAX
    }

    open spec fn add_spec(self, rhs: Price) -> Price {
        Price((self.0 + rhs.0) as u64)
    }
}

impl core::ops::Add<Volume> for Volume {
    type Output = Volume;

    fn add(self, rhs: Volume) -> (r: Volume) {
        Volume(self.0 + rhs.0)
    }
}

impl AddSpecImpl<Volume> for Volume {
    open spec fn obeys_add_spec() -> bool {
        true
    }

    open spec fn add_req(self, rhs: Volume) -> bool {
        self.0 + rhs.0 <= u64::MAX
    }

    open spec fn add_spec(self, rhs: Volume) -> Volume {
        Volume((self.0 + rhs.0) as u64)
    }
}

impl core::ops::Add<Value> for Value {
    type Output = Value;

    fn add(self, rhs: Value) -> (r: Value) {
        Value(self.0 + rhs.0)
    }
}

impl AddSpecImpl<Value> for Value {
    open spec fn obeys_add_spec() -> bool {
        true
    }

    open spec fn add_req(self, rhs: Value) -> bool {
        self.0 + rhs.0 <= u64::MAX
    }

    open spec fn add_spec(self, rhs: Value) -> Value {
        Value((self.0 + rhs.0) as u64)
    }
}

impl core::ops::Sub<Price> for Price {
    type Output = Price;

    fn sub(self, rhs: Price) -> (r: Price) {
        Price(self.0 - rhs.0)
    }
}

impl SubSpecImpl<Price> for Price {
    open spec fn obeys_sub_spec() -> bool {
        true
    }

    open spec fn sub_req(self, rhs: Price) -> bool {
        self.0 >= rhs.0
    }

    open spec fn sub_spec(self, rhs: Price) -> Price {
        Price((self.0 - rhs.0) as u64)
    }
}

impl core::ops::Sub<Volume> for Volume {
    type Output = Volume;

    fn sub(self, rhs: Volume) -> (r: Volume) {
        Volume(self.0 - rhs.0)
    }
}

impl SubSpecImpl<Volume> for Volume {
    open spec fn obeys_sub_spec() -> bool {
        true
    }

    open spec fn sub_req(self, rhs: Volume) -> bool {
        self.0 >= rhs.0
    }

    open spec fn sub_spec(self, rhs: Volume) -> Volume {
        Volume((self.0 - rhs.0) as u64)
    }
}

impl core::ops::Sub<Value> for Value {
    type Output = Value;

    fn sub(self, rhs: Value) -> (r: Value) {
        Value(self.0 - rhs.0)
    }
}

impl SubSpecImpl<Value> for Value {
    open spec fn obeys_sub_spec() -> bool {
        true
    }

    open spec fn sub_req(self, rhs: Value) -> bool {
        self.0 >= rhs.0
    }

    open spec fn sub_spec(self, rhs: Value) -> Value {
        Value((self.0 - rhs.0) as u64)
    }
}

} // verus!
