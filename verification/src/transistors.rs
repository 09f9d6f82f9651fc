//! Very simply modelled pMOS and nMOS transistors.

use vstd::prelude::*;

verus! {

#[derive(Clone, Copy)]
pub struct Pmos {}

impl Pmos {
    /// A pMOS transistor conducts the power rail when its gate input is low.
    pub fn value(&self, input: bool, power: bool) -> (r: bool)
        ensures
            r == (!input && power),
    {
        !input && power
    }
}

#[derive(Clone, Copy)]
pub struct Nmos {}

impl Nmos {
    /// An nMOS transistor conducts the power rail when its gate input is high.
    pub fn value(&self, input: bool, power: bool) -> (r: bool)
        ensures
            r == (input && power),
    {
        input && power
    }
}

} // verus!
