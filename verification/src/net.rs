use vstd::prelude::*;

verus! {

/// The kinds of socket errors an accept loop tells apart.
#[derive(Clone, Copy, Debug, PartialEq, Eq, Structural)]
pub enum AcceptErrorKind {
    WouldBlock,
    Interrupted,
    ConnectionAborted,
    ConnectionReset,
    Other,
}

/// An accept error is retried when its kind is a transient one, or when the
/// operating system reported one of the `transient` error numbers.
pub open spec fn spec_is_retryable_accept_error(kind: AcceptErrorKind, raw_os_error: Option<i32>, transient: Seq<i32>) -> bool {
    kind != AcceptErrorKind::Other || (raw_os_error matches Some(errno) && transient.contains(errno))
}

/// Decides whether an accept error is transient, given the error numbers
/// that count as transient.
pub fn is_retryable_accept_error_among(kind: AcceptErrorKind, raw_os_error: Option<i32>, transient: &[i32]) -> (r: bool)
    ensures
        r == spec_is_retryable_accept_error(kind, raw_os_error, transient@),
{
    match kind {
        AcceptErrorKind::Other => {},
        _ => {
            return true;
        },
    }
    let errno = match raw_os_error {
        Some(errno) => errno,
        None => {
            return false;
        },
    };
    let mut i: usize = 0;
    while i < transient.len()
        invariant
            i <= transient@.len(),
            kind == AcceptErrorKind::Other,
            raw_os_error == Some(errno),
            forall|j: int| 0 <= j < i ==> transient@[j] != errno,
        decreases transient@.len() - i,
    {
        if transient[i] == errno {
            assert(transient@.contains(errno)) by {
                assert(transient@[i as int] == errno);
            }
            return true;
        }
        i = i + 1;
    }
    false
}

/// libc's `ENETDOWN` for the target platform; its value is not stated.
#[verifier::external_body]
fn libc_enetdown() -> (errno: i32) {
    libc::ENETDOWN
}

/// libc's `EPROTO` for the target platform; its value is not stated.
#[verifier::external_body]
fn libc_eproto() -> (errno: i32) {
    libc::EPROTO
}

/// libc's `ENOPROTOOPT` for the target platform; its value is not stated.
#[verifier::external_body]
fn libc_enoprotoopt() -> (errno: i32) {
    libc::ENOPROTOOPT
}

/// libc's `EHOSTDOWN` for the target platform; its value is not stated.
#[verifier::external_body]
fn libc_ehostdown() -> (errno: i32) {
    libc::EHOSTDOWN
}

/// libc's `ENONET` for the target platform; its value is not stated.
#[verifier::external_body]
fn libc_enonet() -> (errno: i32) {
    libc::ENONET
}

/// libc's `EHOSTUNREACH` for the target platform; its value is not stated.
#[verifier::external_body]
fn libc_ehostunreach() -> (errno: i32) {
    libc::EHOSTUNREACH
}

/// libc's `EOPNOTSUPP` for the target platform; its value is not stated.
#[verifier::external_body]
fn libc_eopnotsupp() -> (errno: i32) {
    libc::EOPNOTSUPP
}

/// libc's `ENETUNREACH` for the target platform; its value is not stated.
#[verifier::external_body]
fn libc_enetunreach() -> (errno: i32) {
    libc::ENETUNREACH
}

/// The error numbers Linux's accept reports for transient network
/// conditions: ENETDOWN, EPROTO, ENOPROTOOPT, EHOSTDOWN, ENONET,
/// EHOSTUNREACH, EOPNOTSUPP and ENETUNREACH, in that order.
pub fn linux_transient_accept_errnos() -> (errnos: Vec<i32>)
    ensures
        errnos@.len() == 8,
{
    let mut errnos: Vec<i32> = Vec::new();
    errnos.push(libc_enetdown());
    errnos.push(libc_eproto());
    errnos.push(libc_enoprotoopt());
    errnos.push(libc_ehostdown());
    errnos.push(libc_enonet());
    errnos.push(libc_ehostunreach());
    errnos.push(libc_eopnotsupp());
    errnos.push(libc_enetunreach());
    errnos
}

/// Whether an accept error is transient on Linux: a transient kind, or one
/// of the error numbers of `linux_transient_accept_errnos`.
pub fn is_retryable_accept_error(kind: AcceptErrorKind, raw_os_error: Option<i32>) -> (r: bool)
    ensures
        kind != AcceptErrorKind::Other ==> r,
        kind == AcceptErrorKind::Other && raw_os_error is None ==> !r,
{
    let transient = linux_transient_accept_errnos();
    is_retryable_accept_error_among(kind, raw_os_error, transient.as_slice())
}

} // verus!
