//! The errors of the client and the errno numbers librados reports, as Linux numbers them on x86-64
//! and ARM.

use vstd::prelude::*;

verus! {

/// No such object, pool or lock.
pub const ENOENT: i32 = 2;

/// The object, pool or lock exists already.
pub const EEXIST: i32 = 17;

/// A buffer was too small for the answer, or an asserted version is behind the object.
pub const ERANGE: i32 = 34;

/// A value does not fit where it has to go, or an asserted version is ahead of the object.
pub const EOVERFLOW: i32 = 75;

/// A watcher did not answer a notification in time.
pub const ETIMEDOUT: i32 = 110;

/// A string with a NUL byte inside was to be handed over as a C string.
#[derive(Debug, PartialEq, Eq)]
pub struct NulError {
    /// Where the first NUL byte stands.
    pub position: usize,
    /// The bytes of the refused string.
    pub bytes: Vec<u8>,
}

impl NulError {
    /// This error reports the first NUL byte of `bytes`.
    pub open spec fn reports(&self, bytes: Seq<u8>) -> bool {
        &&& self.bytes@ == bytes
        &&& self.position < bytes.len()
        &&& self.position == crate::cstring::first_nul(bytes)
    }

    /// The index of the first NUL byte.
    pub fn nul_position(&self) -> (position: usize)
        ensures
            position == self.position,
    {
        self.position
    }

    /// The bytes of the refused string.
    pub fn into_vec(self) -> (bytes: Vec<u8>)
        ensures
            bytes@ == self.bytes@,
    {
        self.bytes
    }
}

/// What an operation of the client fails with.
#[derive(Debug, PartialEq, Eq)]
pub enum RadosError {
    /// librados reported this errno, and none of the two with a variant of their own.
    Rados(i32),
    /// librados reported `ENOENT`.
    NotFound,
    /// librados reported `EEXIST`.
    AlreadyExists,
    /// An argument cannot be a C string.
    Nul(NulError),
    /// A read result was asked for with a handle of another operation.
    InvalidHandle,
}

/// What the return value of a librados call means: a negative one is an errno, negated.
pub open spec fn status(ret: i32) -> Result<(), RadosError> {
    if ret >= 0 {
        Ok(())
    } else if ret == -ENOENT {
        Err(RadosError::NotFound)
    } else if ret == -EEXIST {
        Err(RadosError::AlreadyExists)
    } else {
        Err(RadosError::Rados((-ret) as i32))
    }
}

/// `res` is the failure that `ret` reports.
pub open spec fn fails_as<T>(res: Result<T, RadosError>, ret: i32) -> bool {
    &&& res is Err
    &&& status(ret) == Err::<(), RadosError>(res->Err_0)
}

/// `res` refuses `bytes` because of the NUL byte in it.
pub open spec fn refuses<T>(res: Result<T, RadosError>, bytes: Seq<u8>) -> bool {
    res matches Err(RadosError::Nul(e)) && e.reports(bytes)
}

/// Turns the return value of a librados call into a result.
pub fn check_err(ret: i32) -> (res: Result<(), RadosError>)
    requires
        ret != i32::MIN,
    ensures
        res == status(ret),
{
    if ret >= 0 {
        return Ok(());
    }
    let errno: i32 = -ret;
    Err(
        if errno == ENOENT {
            RadosError::NotFound
        } else if errno == EEXIST {
            RadosError::AlreadyExists
        } else {
            RadosError::Rados(errno)
        },
    )
}

/// No errno is lost: two failures are the same error only where librados reported the same
/// number.
pub proof fn failures_keep_their_errno(a: i32, b: i32)
    requires
        i32::MIN < a < 0,
        i32::MIN < b < 0,
        status(a) == status(b),
    ensures
        a == b,
{
}

/// A return value that is not negative is success, and the error of any other tells its number:
/// 2 is `NotFound`, 17 is `AlreadyExists`, and any other errno is in the error as it is.
pub proof fn an_error_tells_its_errno(ret: i32)
    requires
        ret != i32::MIN,
    ensures
        ret >= 0 <==> status(ret) is Ok,
        match status(ret) {
            Ok(()) => ret >= 0,
            Err(RadosError::NotFound) => ret == -2,
            Err(RadosError::AlreadyExists) => ret == -17,
            Err(RadosError::Rados(errno)) => errno + ret == 0 && errno > 0 && errno != 2 && errno
                != 17,
            Err(RadosError::Nul(_)) => false,
            Err(RadosError::InvalidHandle) => false,
        },
{
}

/// A result that fails as a call did has the error of that call's return value.
pub proof fn a_failure_has_the_error_of_its_call<T>(res: Result<T, RadosError>, ret: i32)
    requires
        ret != i32::MIN,
    ensures
        fails_as(res, ret) <==> ret < 0 && match res {
            Ok(_) => false,
            Err(RadosError::NotFound) => ret == -2,
            Err(RadosError::AlreadyExists) => ret == -17,
            Err(RadosError::Rados(errno)) => errno == -ret && ret != -2 && ret != -17,
            Err(RadosError::Nul(_)) => false,
            Err(RadosError::InvalidHandle) => false,
        },
{
}

/// A refusal brings the refused bytes back and points to a NUL in them, with none before it.
pub proof fn a_refusal_points_to_the_first_nul<T>(res: Result<T, RadosError>, bytes: Seq<u8>)
    requires
        refuses(res, bytes),
    ensures
        res matches Err(RadosError::Nul(e)) && {
            &&& e.bytes@ == bytes
            &&& e.position < bytes.len()
            &&& bytes[e.position as int] == 0
            &&& forall|i: int| 0 <= i < e.position ==> bytes[i] != 0
        },
{
    crate::cstring::first_nul_holds(bytes);
}

} // verus!
