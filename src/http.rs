use vstd::prelude::*;

pub mod text;
pub mod version;

verus! {

/// The one way in which parsing a scheme or a protocol version fails: the
/// text does not follow the grammar `scheme "/" major "." minor`.
#[derive(Debug, Clone, Copy, PartialEq, Eq, Structural)]
pub enum HttpError {
    HeaderParseError,
}

} // verus!
