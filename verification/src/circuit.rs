//! The compiled circuit bundles: the graph with its derived settings, and
//! with the witness of one concrete execution.

use vstd::prelude::*;
use crate::model::Model;
use crate::graphsettings::GraphSettings;
use crate::graphwitness::GraphWitness;

verus! {

/// A computational graph together with the settings it was sized for.
pub struct CoreCircuit {
    /// The model / graph of computations.
    pub model: Model,
    /// The settings of the model.
    pub settings: GraphSettings,
}

/// A core circuit together with the witness data for one execution.
pub struct GraphCircuit {
    /// The graph and its settings.
    pub core: CoreCircuit,
    /// The witness data for the model.
    pub graph_witness: GraphWitness,
}

} // verus!
