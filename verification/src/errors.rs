use vstd::prelude::*;

verus! {

/// Error taxonomy of the library: `Storage` wraps any persistence failure
/// (including constraint violations), `NotFound` is the id-keyed lookup miss,
/// `InvalidInput` is reserved for malformed filter or tag values, and the
/// remaining variants carry collaborator failures reported by the
/// clipboard, image-codec and process-control layers.
#[derive(Debug)]
pub enum CbError {
    Storage(String),
    Clipboard(String),
    Image(String),
    Daemon(String),
    NotFound(String),
    InvalidInput(String),
}

} // verus!
