//! Status codes and the errors of file system operations.
use vstd::prelude::*;

verus! {

pub const STATUS_INVALID_PARAMETER: u32 = 0xC000000D;

pub const STATUS_INVALID_DEVICE_REQUEST: u32 = 0xC0000010;

pub const STATUS_ACCESS_DENIED: u32 = 0xC0000022;

pub const STATUS_OBJECT_NAME_INVALID: u32 = 0xC0000033;

pub const STATUS_OBJECT_NAME_NOT_FOUND: u32 = 0xC0000034;

pub const STATUS_OBJECT_NAME_COLLISION: u32 = 0xC0000035;

pub const STATUS_SHARING_VIOLATION: u32 = 0xC0000043;

pub const STATUS_DELETE_PENDING: u32 = 0xC0000056;

pub const STATUS_FILE_IS_A_DIRECTORY: u32 = 0xC00000BA;

pub const STATUS_INTERNAL_ERROR: u32 = 0xC00000E5;

pub const STATUS_DIRECTORY_NOT_EMPTY: u32 = 0xC0000101;

pub const STATUS_NOT_A_DIRECTORY: u32 = 0xC0000103;

pub const STATUS_CANNOT_DELETE: u32 = 0xC0000121;

/// Why an operation was refused: an NT status or a Win32 error code.
#[derive(Clone, Copy, Debug, PartialEq, Eq, Structural)]
pub enum OperationError {
    NtStatus(u32),
    Win32(u32),
}

/// The error for `status`.
pub fn nt_err(status: u32) -> (r: OperationError)
    ensures
        r == OperationError::NtStatus(status),
{
    OperationError::NtStatus(status)
}

/// A refusal with `status`.
pub fn nt_res<T>(status: u32) -> (r: Result<T, OperationError>)
    ensures
        r == Err::<T, OperationError>(OperationError::NtStatus(status)),
{
    Err(OperationError::NtStatus(status))
}

/// Why an item of a listing was not taken.
#[derive(Clone, Copy, Debug, PartialEq, Eq, Structural)]
pub enum FillDataError {
    /// The name is longer than the receiver can hold.
    NameTooLong,
    /// The receiver has no room left.
    BufferFull,
}

/// What a listing does after an item was handed out. A name that is too long is passed over: one
/// such name does not make the whole directory unreadable. A full buffer ends the listing.
pub fn check_fill_data_error(res: Result<(), FillDataError>) -> (r: Result<(), OperationError>)
    ensures
        r == (if res == Err::<(), FillDataError>(FillDataError::BufferFull) {
            Err::<(), OperationError>(OperationError::NtStatus(STATUS_INTERNAL_ERROR))
        } else {
            Ok(())
        }),
{
    match res {
        Ok(()) => Ok(()),
        Err(FillDataError::BufferFull) => nt_res(STATUS_INTERNAL_ERROR),
        Err(FillDataError::NameTooLong) => Ok(()),
    }
}

} // verus!
