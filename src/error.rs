use vstd::prelude::*;

verus! {

/// Everything that can go wrong while listing monitors or capturing one.
#[derive(Debug, Clone, PartialEq, Eq)]
pub enum XCapError {
    /// The display service could not be reached, or reported an
    /// inconsistent configuration.
    Enumeration,
    /// No monitor matched the requested point.
    NotFound,
    /// The operating system refused screen-capture consent.
    PermissionDenied,
    /// The monitor's id no longer names a connected output.
    MonitorGone,
    /// The native pixel layout cannot be mapped to RGBA.
    UnsupportedFormat,
    /// Any other failure of a platform call, with its native error code.
    Platform(i64),
}

pub type XCapResult<T> = Result<T, XCapError>;

} // verus!
