use vstd::prelude::*;

verus! {

/// Failure reasons shared by every layer of the tool (HECI, PTHI, APF, HTTP, WS-Man).
#[derive(Debug, Clone, Copy, PartialEq, Eq, Structural)]
pub enum Error {
    Timeout,
    NotFound,
    DeviceError,
    BufferTooSmall,
    Unsupported,
    AccessDenied,
    ProtocolError,
    Aborted,
    AmtStatus(u32),
    HttpStatus(u32),
}

pub type Result<T> = core::result::Result<T, Error>;

} // verus!
