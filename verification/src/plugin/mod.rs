//! Elements, the plugins that provide them, and the names under which a
//! plugin library exports an element's entry points.

use vstd::prelude::*;

use crate::messages::MessageClient;
use crate::text::str_concat;

pub mod discover;
pub mod meta;

verus! {

/// What part an element plays in a pipeline.
#[derive(Clone, Copy, Debug, PartialEq, Eq, Structural)]
pub enum ElementKind {
    Initialiser,
    Transform,
    Render,
    Synth,
    Transmute,
    Integrator,
}

/// An element of a pipeline: a client of the bus that can describe its
/// properties, as (property, description) pairs, or say why it cannot.
pub trait Element: MessageClient {
    /// The descriptions of the element's properties.
    fn get_property_descriptions(&self) -> Result<Vec<(String, String)>, String>;
}

/// The word a listing of elements shows for each kind.
pub open spec fn kind_label_text(kind: ElementKind) -> Seq<char> {
    match kind {
        ElementKind::Initialiser => "initialiser"@,
        ElementKind::Transform => "transform"@,
        ElementKind::Render => "renderer"@,
        ElementKind::Synth => "synth"@,
        ElementKind::Transmute => "transmute"@,
        ElementKind::Integrator => "integrator"@,
    }
}

impl ElementKind {
    /// The word a listing of elements shows for this kind.
    pub fn label(&self) -> (r: &'static str)
        ensures
            r@ == kind_label_text(*self),
    {
        match self {
            ElementKind::Initialiser => "initialiser",
            ElementKind::Transform => "transform",
            ElementKind::Render => "renderer",
            ElementKind::Synth => "synth",
            ElementKind::Transmute => "transmute",
            ElementKind::Integrator => "integrator",
        }
    }
}

/// The symbol that creates an element called `name` from its properties.
pub fn create_element_symbol(name: &str) -> (r: String)
    ensures
        r@ == name@ + "_create_element"@,
{
    str_concat(name, "_create_element")
}

/// The symbol that hands out the entry points of the transform called
/// `name`.
pub fn transform_api_symbol(name: &str) -> (r: String)
    ensures
        r@ == name@ + "_get_api"@,
{
    str_concat(name, "_get_api")
}

/// The symbol that gives the metadata of the element called `name`.
pub fn register_symbol(name: &str) -> (r: String)
    ensures
        r@ == name@ + "_register"@,
{
    str_concat(name, "_register")
}

} // verus!
