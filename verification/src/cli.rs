//! The model choice as the command line offers it, and its mapping onto the
//! API client's own model type.

use vstd::prelude::*;

verus! {

/// The model a user can pick on the command line.
#[derive(Debug, Clone)]
pub enum Model {
    /// The default model.
    GPT35Turbo,
    /// The code-davinci model.
    CodeDavinci,
}

impl Default for Model {
    fn default() -> (r: Model)
        ensures
            r is GPT35Turbo,
    {
        Model::GPT35Turbo
    }
}

impl Model {
    /// The API client's model that the chosen one stands for.
    pub fn as_yaoic_model(&self) -> (r: crate::api::Model)
        ensures
            self is GPT35Turbo <==> r is GPT35Turbo,
            self is CodeDavinci <==> r is CodeDavinci,
    {
        match self {
            Model::GPT35Turbo => crate::api::Model::GPT35Turbo,
            Model::CodeDavinci => crate::api::Model::CodeDavinci,
        }
    }
}

} // verus!
