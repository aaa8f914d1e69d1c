//! What can go wrong, on the wire and towards the kernel.

use vstd::prelude::*;

use crate::id::NodeId;
use crate::outside::errno::{
    eacces, eexist, einval, eio, eisdir, enoent, enospc, enotdir, enotempty,
};

verus! {

/// The kinds of failure that a remote call can report.
#[derive(Copy, Clone, Debug, PartialEq, Eq, Structural)]
pub enum Code {
    Cancelled,
    Unknown,
    InvalidArgument,
    DeadlineExceeded,
    NotFound,
    AlreadyExists,
    PermissionDenied,
    ResourceExhausted,
    FailedPrecondition,
    Aborted,
    OutOfRange,
    Unimplemented,
    Internal,
    Unavailable,
    DataLoss,
    Unauthenticated,
}

/// What a [`Status`] says, as mathematical values.
pub struct StatusView {
    pub code: Code,
    pub message: Seq<char>,
}

/// The answer of a remote call that failed.
#[derive(Debug, PartialEq, Eq)]
pub struct Status {
    pub code: Code,
    pub message: String,
}

impl View for Status {
    type V = StatusView;

    open spec fn view(&self) -> StatusView {
        StatusView { code: self.code, message: self.message@ }
    }
}

impl Status {
    pub fn new(code: Code, message: &str) -> (s: Status)
        ensures
            s@ == (StatusView { code, message: message@ }),
    {
        Status { code, message: message.to_owned() }
    }
}

/// A failure of a filesystem operation.
#[derive(Debug, PartialEq, Eq)]
pub enum DtmpfsError {
    MetaUnavailable,
    StoreUnavailable(NodeId),
    BlockGenerationMismatch,
    NotFound,
    AlreadyExists,
    NotADirectory,
    IsADirectory,
    NotEmpty,
    PermissionDenied,
    ResourceExhausted,
    InvalidArgument,
    Unauthenticated,
    Io(String),
    Rpc(Status),
}

/// What a [`DtmpfsError`] says, as mathematical values.
pub enum ErrorView {
    MetaUnavailable,
    StoreUnavailable(Seq<char>),
    BlockGenerationMismatch,
    NotFound,
    AlreadyExists,
    NotADirectory,
    IsADirectory,
    NotEmpty,
    PermissionDenied,
    ResourceExhausted,
    InvalidArgument,
    Unauthenticated,
    Io(Seq<char>),
    Rpc(StatusView),
}

impl View for DtmpfsError {
    type V = ErrorView;

    open spec fn view(&self) -> ErrorView {
        match *self {
            DtmpfsError::MetaUnavailable => ErrorView::MetaUnavailable,
            DtmpfsError::StoreUnavailable(n) => ErrorView::StoreUnavailable(n@),
            DtmpfsError::BlockGenerationMismatch => ErrorView::BlockGenerationMismatch,
            DtmpfsError::NotFound => ErrorView::NotFound,
            DtmpfsError::AlreadyExists => ErrorView::AlreadyExists,
            DtmpfsError::NotADirectory => ErrorView::NotADirectory,
            DtmpfsError::IsADirectory => ErrorView::IsADirectory,
            DtmpfsError::NotEmpty => ErrorView::NotEmpty,
            DtmpfsError::PermissionDenied => ErrorView::PermissionDenied,
            DtmpfsError::ResourceExhausted => ErrorView::ResourceExhausted,
            DtmpfsError::InvalidArgument => ErrorView::InvalidArgument,
            DtmpfsError::Unauthenticated => ErrorView::Unauthenticated,
            DtmpfsError::Io(m) => ErrorView::Io(m@),
            DtmpfsError::Rpc(s) => ErrorView::Rpc(s@),
        }
    }
}

/// The error that a failed remote call stands for; `node` is the storage node
/// that was called, if it was one.
pub open spec fn error_of_status(s: StatusView, node: Option<Seq<char>>) -> ErrorView {
    match s.code {
        Code::InvalidArgument | Code::OutOfRange => ErrorView::InvalidArgument,
        Code::NotFound => ErrorView::NotFound,
        Code::AlreadyExists => ErrorView::AlreadyExists,
        Code::PermissionDenied => ErrorView::PermissionDenied,
        Code::Unauthenticated => ErrorView::Unauthenticated,
        Code::ResourceExhausted => ErrorView::ResourceExhausted,
        Code::FailedPrecondition => ErrorView::BlockGenerationMismatch,
        Code::Unavailable => match node {
            Some(n) => ErrorView::StoreUnavailable(n),
            None => ErrorView::MetaUnavailable,
        },
        _ => ErrorView::Rpc(s),
    }
}

impl DtmpfsError {
    pub fn from_status(s: Status, node: Option<NodeId>) -> (e: DtmpfsError)
        ensures
            e@ == error_of_status(
                s@,
                match node {
                    Some(n) => Some(n@),
                    None => None,
                },
            ),
    {
        match s.code {
            Code::InvalidArgument | Code::OutOfRange => DtmpfsError::InvalidArgument,
            Code::NotFound => DtmpfsError::NotFound,
            Code::AlreadyExists => DtmpfsError::AlreadyExists,
            Code::PermissionDenied => DtmpfsError::PermissionDenied,
            Code::Unauthenticated => DtmpfsError::Unauthenticated,
            Code::ResourceExhausted => DtmpfsError::ResourceExhausted,
            Code::FailedPrecondition => DtmpfsError::BlockGenerationMismatch,
            Code::Unavailable => match node {
                Some(n) => DtmpfsError::StoreUnavailable(n),
                None => DtmpfsError::MetaUnavailable,
            },
            _ => DtmpfsError::Rpc(s),
        }
    }
}

/// Whether `n` is the number by which the kernel knows the error `e`.
pub open spec fn is_errno(e: ErrorView, n: int) -> bool {
    match e {
        ErrorView::NotFound => n == 2,
        ErrorView::AlreadyExists => n == 17,
        ErrorView::NotADirectory => n == 20,
        ErrorView::IsADirectory => n == 21,
        ErrorView::NotEmpty => n == 39 || n == 66 || n == 93,
        ErrorView::PermissionDenied | ErrorView::Unauthenticated => n == 13,
        ErrorView::ResourceExhausted => n == 28,
        ErrorView::InvalidArgument => n == 22,
        ErrorView::MetaUnavailable
        | ErrorView::StoreUnavailable(_)
        | ErrorView::BlockGenerationMismatch
        | ErrorView::Io(_)
        | ErrorView::Rpc(_) => n == 5,
    }
}

impl From<DtmpfsError> for i32 {
    fn from(e: DtmpfsError) -> (n: i32)
        ensures
            is_errno(e@, n as int),
    {
        match e {
            DtmpfsError::NotFound => enoent(),
            DtmpfsError::AlreadyExists => eexist(),
            DtmpfsError::NotADirectory => enotdir(),
            DtmpfsError::IsADirectory => eisdir(),
            DtmpfsError::NotEmpty => enotempty(),
            DtmpfsError::PermissionDenied | DtmpfsError::Unauthenticated => eacces(),
            DtmpfsError::ResourceExhausted => enospc(),
            DtmpfsError::InvalidArgument => einval(),
            DtmpfsError::MetaUnavailable
            | DtmpfsError::StoreUnavailable(_)
            | DtmpfsError::BlockGenerationMismatch
            | DtmpfsError::Io(_)
            | DtmpfsError::Rpc(_) => eio(),
        }
    }
}

impl vstd::std_specs::convert::FromSpecImpl<DtmpfsError> for i32 {
    open spec fn obeys_from_spec() -> bool {
        false
    }

    open spec fn from_spec(e: DtmpfsError) -> i32 {
        arbitrary()
    }
}

/// A failed call is told apart by its code: each of the codes that stand for an
/// error of its own gives that error and no other code does; a node out of
/// reach is named, where it was a node; every other failure is kept as it is.
pub proof fn law_failures_keep_their_meaning(s: StatusView, node: Option<Seq<char>>)
    ensures
        ({
            let e = error_of_status(s, node);
            &&& e is NotFound <==> s.code == Code::NotFound
            &&& e is AlreadyExists <==> s.code == Code::AlreadyExists
            &&& e is PermissionDenied <==> s.code == Code::PermissionDenied
            &&& e is Unauthenticated <==> s.code == Code::Unauthenticated
            &&& e is ResourceExhausted <==> s.code == Code::ResourceExhausted
            &&& e is BlockGenerationMismatch <==> s.code == Code::FailedPrecondition
            &&& e is InvalidArgument <==> s.code == Code::InvalidArgument || s.code
                == Code::OutOfRange
            &&& e is MetaUnavailable <==> s.code == Code::Unavailable && node is None
            &&& e is StoreUnavailable <==> s.code == Code::Unavailable && node is Some
            &&& e is StoreUnavailable ==> e->StoreUnavailable_0 == node->0
            &&& e is Rpc <==> s.code == Code::Cancelled || s.code == Code::Unknown || s.code
                == Code::DeadlineExceeded || s.code == Code::Aborted || s.code
                == Code::Unimplemented || s.code == Code::Internal || s.code == Code::DataLoss
            &&& e is Rpc ==> e->Rpc_0 == s
            &&& !(e is NotADirectory) && !(e is IsADirectory) && !(e is NotEmpty) && !(e is Io)
        }),
{
}

/// The kernel knows each error by one number of Linux; what has none of its own
/// is an input/output error. Only the number of a directory that is not empty
/// differs between machines.
pub proof fn law_errors_have_their_numbers(e: ErrorView, n: int)
    requires
        is_errno(e, n),
    ensures
        n == 2 <==> e is NotFound,
        n == 17 <==> e is AlreadyExists,
        n == 20 <==> e is NotADirectory,
        n == 21 <==> e is IsADirectory,
        n == 13 <==> e is PermissionDenied || e is Unauthenticated,
        n == 28 <==> e is ResourceExhausted,
        n == 22 <==> e is InvalidArgument,
        n == 39 || n == 66 || n == 93 <==> e is NotEmpty,
        n == 5 <==> e is MetaUnavailable || e is StoreUnavailable || e is BlockGenerationMismatch
            || e is Io || e is Rpc,
{
}

/// What is said of an error tells it apart from every other.
pub proof fn law_errors_are_told_apart(e: DtmpfsError, s: Status)
    ensures
        e@ is MetaUnavailable <==> e is MetaUnavailable,
        e@ is StoreUnavailable <==> e is StoreUnavailable,
        e is StoreUnavailable ==> e@->StoreUnavailable_0 == e->StoreUnavailable_0@,
        e@ is BlockGenerationMismatch <==> e is BlockGenerationMismatch,
        e@ is NotFound <==> e is NotFound,
        e@ is AlreadyExists <==> e is AlreadyExists,
        e@ is NotADirectory <==> e is NotADirectory,
        e@ is IsADirectory <==> e is IsADirectory,
        e@ is NotEmpty <==> e is NotEmpty,
        e@ is PermissionDenied <==> e is PermissionDenied,
        e@ is ResourceExhausted <==> e is ResourceExhausted,
        e@ is InvalidArgument <==> e is InvalidArgument,
        e@ is Unauthenticated <==> e is Unauthenticated,
        e@ is Io <==> e is Io,
        e is Io ==> e@->Io_0 == e->Io_0@,
        e@ is Rpc <==> e is Rpc,
        e is Rpc ==> e@->Rpc_0 == e->Rpc_0@,
        s@.code == s.code && s@.message == s.message@,
{
}

} // verus!
