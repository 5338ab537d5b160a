//! Handles on the two registry contracts. The handles themselves are
//! stateless query/command objects; the network calls against them are
//! made outside the library and hand their answers back as plain values.
use vstd::prelude::*;

verus! {

/// A handle on the anoncreds artifact registry contract.
#[derive(Debug, Clone, PartialEq, Eq, Structural)]
pub struct AnoncredsEthRegistry;

impl AnoncredsEthRegistry {
    /// A fresh handle; the registry holds no in-process state.
    pub fn new() -> AnoncredsEthRegistry {
        AnoncredsEthRegistry {  }
    }
}

/// A handle on the linked-resources registry contract.
#[derive(Debug, Clone, PartialEq, Eq, Structural)]
pub struct LinkedResourcesRegistry;

impl LinkedResourcesRegistry {
    /// A fresh handle; the registry holds no in-process state.
    pub fn new() -> LinkedResourcesRegistry {
        LinkedResourcesRegistry {  }
    }
}

} // verus!
