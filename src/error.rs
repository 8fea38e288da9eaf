use vstd::prelude::*;

verus! {

/// The ways a remote operation can fail.
#[derive(Clone, Copy, Debug, PartialEq, Eq, Structural)]
pub enum RemoteError {
    /// Connection or protocol failure.
    Transport,
    /// The payload arrived whole but the codec rejected it.
    Decode,
    /// The backend reported that the object does not exist.
    NotFound,
    /// The backend refused the operation.
    Denied,
    /// The result belongs to an operation that was canceled or superseded.
    Stale,
}

/// gRPC status code for a missing object.
pub const CODE_NOT_FOUND: i32 = 5;

/// gRPC status code for a refused operation.
pub const CODE_PERMISSION_DENIED: i32 = 7;

/// gRPC status code for a caller without valid credentials.
pub const CODE_UNAUTHENTICATED: i32 = 16;

/// The error kind that a gRPC status code stands for.
pub open spec fn error_of_code(code: i32) -> RemoteError {
    if code == CODE_NOT_FOUND {
        RemoteError::NotFound
    } else if code == CODE_PERMISSION_DENIED || code == CODE_UNAUTHENTICATED {
        RemoteError::Denied
    } else {
        RemoteError::Transport
    }
}

/// Classifies a gRPC status code.
pub fn error_from_code(code: i32) -> (r: RemoteError)
    ensures
        r == error_of_code(code),
{
    if code == CODE_NOT_FOUND {
        RemoteError::NotFound
    } else if code == CODE_PERMISSION_DENIED || code == CODE_UNAUTHENTICATED {
        RemoteError::Denied
    } else {
        RemoteError::Transport
    }
}

/// `tonic::Status`, the failure a remote call reports; carried opaquely.
#[verifier::external_type_specification]
#[verifier::external_body]
pub struct ExStatus(tonic::Status);

/// Relies on `tonic::Status::code`: the status's code, as the integer that
/// `tonic::Code` assigns it, which lies between `Ok = 0` and
/// `Unauthenticated = 16`.
#[verifier::external_body]
fn status_code(s: &tonic::Status) -> (r: i32)
    ensures
        0 <= r <= 16,
{
    s.code() as i32
}

/// Classifies the status with which a remote call failed.
pub fn error_from_status(s: &tonic::Status) -> (r: RemoteError)
    ensures
        exists|c: i32| 0 <= c <= 16 && r == error_of_code(c),
{
    let code = status_code(s);
    error_from_code(code)
}

} // verus!
