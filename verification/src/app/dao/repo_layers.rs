//! The catalog of systems and of their layers.
use vstd::prelude::*;

verus! {

/// One layer of one system, as the systems catalog lists it.
#[derive(Debug, Clone)]
pub struct SystemAndLayer {
    pub system: String,
    pub layer: String,
    pub description: String,
    pub config_image_link: String,
    pub config_color: String,
}

} // verus!
