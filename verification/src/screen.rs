//! The screens of the interactive browser built around the engine.

use vstd::prelude::*;

verus! {

/// Which screen the interactive browser is on. The browsing loop itself is
/// plain terminal glue and lives outside the library; only the state it
/// steps through is defined here.
#[derive(Clone, Copy, Debug, PartialEq, Eq, Structural)]
pub enum CurrentScreen {
    ChoosePath,
    ConfirmPath,
    DeletedPath,
}

} // verus!
