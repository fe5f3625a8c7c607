//! Documentation fragments exported by API providers.

use vstd::prelude::*;
use crate::error::ScriptError;

verus! {

/// A documentation piece exported by an API provider.
pub trait DocFragment: Sized + 'static {
    /// Combines this fragment with another of the same provider.
    fn merge(self, o: Self) -> Self;

    /// Renders the collected documentation.
    fn gen_docs(self) -> Result<(), ScriptError>;

    /// Retrieves the name of the documentation fragment, most likely the name
    /// of your game!
    fn name(&self) -> &'static str;
}

} // verus!
