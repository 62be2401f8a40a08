//! A value together with the unit of measure it is expressed in.
use vstd::prelude::*;

verus! {

/// A unit of length.
#[derive(Debug, Clone, Copy, PartialEq, Eq, Structural)]
pub enum Length {
    Millimeter,
    Centimeter,
    Decimeter,
    Meter,
    Kilometer,
    Inch,
    Foot,
    Yard,
    Mile,
}

/// A kind of physical quantity, with the unit it is measured in.
#[derive(Debug, Clone, Copy, PartialEq, Eq, Structural)]
pub enum Quantity {
    Length(Length),
}

/// A unit of measure: a quantity's unit raised to a power (`power` 2 for an area in square
/// meters).
#[derive(Debug, Clone, Copy, PartialEq, Eq, Structural)]
pub struct Unit {
    pub quantity: Quantity,
    pub power: u8,
}

impl Unit {
    /// The unit `quantity` to the first power.
    pub fn new(quantity: Quantity) -> (r: Unit)
        ensures
            r.quantity == quantity,
            r.power == 1,
    {
        Unit { quantity, power: 1 }
    }
}

/// A value and the unit it represents.
pub struct Measurement<T> {
    value: T,
    unit: Unit,
}

impl<T> Measurement<T> {
    /// The value of this measurement.
    pub closed spec fn value_spec(&self) -> T {
        self.value
    }

    /// The unit of this measurement.
    pub closed spec fn unit_spec(&self) -> Unit {
        self.unit
    }

    /// Creates a new measurement.
    pub fn new(value: T, unit: Unit) -> (r: Measurement<T>)
        ensures
            r.value_spec() == value,
            r.unit_spec() == unit,
    {
        Measurement { value, unit }
    }

    /// The value of this measurement.
    pub fn value(&self) -> (r: &T)
        ensures
            *r == self.value_spec(),
    {
        &self.value
    }

    /// The unit of this measurement.
    pub fn unit(&self) -> (r: &Unit)
        ensures
            *r == self.unit_spec(),
    {
        &self.unit
    }
}

} // verus!
