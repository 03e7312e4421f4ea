//! Application-level shared state.

use vstd::prelude::*;

verus! {

/// Node-wide shared state. The database handle and the service addresses
/// that surround this core live with the embedding application.
#[derive(Debug)]
pub struct AppState {}

} // verus!
