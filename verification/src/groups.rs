//! Groups of elements, to start or stop together.
use vstd::prelude::*;

use crate::text::views_of;

verus! {

/// A group of elements as the configuration file defines it.
#[derive(Clone)]
pub struct GroupConfig {
    /// Name of the group
    pub name: String,
    /// Description of the group
    pub description: Option<String>,
    /// List of element names in this group
    pub elements: Vec<String>,
}

/// The value of a `GroupConfig`.
pub struct GroupConfigView {
    pub name: Seq<char>,
    pub description: Option<Seq<char>>,
    pub elements: Seq<Seq<char>>,
}

impl View for GroupConfig {
    type V = GroupConfigView;

    open spec fn view(&self) -> GroupConfigView {
        GroupConfigView {
            name: self.name@,
            description: match self.description {
                Some(d) => Some(d@),
                None => None,
            },
            elements: views_of(self.elements@),
        }
    }
}

} // verus!
