use vstd::prelude::*;

use std::sync::Arc;

use vstd::string::StringExecFns;

verus! {

#[verifier::external_type_specification]
#[verifier::external_body]
pub struct ExBacktrace(backtrace::Backtrace);

/// Relies on `backtrace::Backtrace::new`: the stack of the calling thread,
/// captured now.
#[verifier::external_body]
fn capture_backtrace() -> backtrace::Backtrace {
    backtrace::Backtrace::new()
}

/// The two strings one after the other.
pub(crate) fn concat(a: &str, b: &str) -> (r: String)
    ensures
        r@ == a@ + b@,
{
    <String as StringExecFns>::from_str(a).concat(b)
}

/// The kinds of error of the system.
#[derive(Debug, Clone)]
pub enum ErrorCode {
    OK,
    /// An allocation of `size` bytes aligned to `align` failed.
    MemoryError { size: usize, align: usize },
    InternalError(String),
    ProtobufError(String),
    NotImplementedError(String),
    IoError(String),
    /// An RPC failed: its context, then the failure.
    GrpcError(String, String),
    ParseError(String),
    NumericValueOutOfRange,
    ProtocolError(String),
    TaskNotFound,
}

/// Status codes of an RPC reply.
#[derive(Debug, Clone, Copy, PartialEq, Eq, Structural)]
pub enum RpcStatusCode {
    Success,
    NotFound,
    Unimplemented,
    Internal,
}

impl RpcStatusCode {
    /// The numeric gRPC status code.
    pub fn value(&self) -> (r: i32)
        ensures
            *self == RpcStatusCode::Success ==> r == 0,
            *self == RpcStatusCode::NotFound ==> r == 5,
            *self == RpcStatusCode::Unimplemented ==> r == 12,
            *self == RpcStatusCode::Internal ==> r == 13,
    {
        match self {
            RpcStatusCode::Success => 0,
            RpcStatusCode::NotFound => 5,
            RpcStatusCode::Unimplemented => 12,
            RpcStatusCode::Internal => 13,
        }
    }
}

/// An RPC reply status: a code and a message.
#[derive(Debug)]
pub struct RpcStatus {
    pub code: RpcStatusCode,
    pub message: String,
}

impl RpcStatus {
    pub fn code(&self) -> (r: RpcStatusCode)
        ensures
            r == self.code,
    {
        self.code
    }
}

/// The numeric code of each kind of error.
pub open spec fn code_of(e: ErrorCode) -> u32 {
    match e {
        ErrorCode::OK => 0,
        ErrorCode::InternalError(_) => 1,
        ErrorCode::MemoryError { .. } => 2,
        ErrorCode::ProtobufError(_) => 3,
        ErrorCode::NotImplementedError(_) => 4,
        ErrorCode::IoError(_) => 5,
        ErrorCode::GrpcError(_, _) => 6,
        ErrorCode::ParseError(_) => 7,
        ErrorCode::NumericValueOutOfRange => 8,
        ErrorCode::ProtocolError(_) => 9,
        ErrorCode::TaskNotFound => 10,
    }
}

/// The RPC status an error is reported with.
pub open spec fn grpc_code_of(e: ErrorCode) -> RpcStatusCode {
    match e {
        ErrorCode::OK => RpcStatusCode::Success,
        ErrorCode::NotImplementedError(_) => RpcStatusCode::Unimplemented,
        ErrorCode::TaskNotFound => RpcStatusCode::NotFound,
        _ => RpcStatusCode::Internal,
    }
}

/// Two errors are equal when both are `OK`, or both are memory errors of
/// the same layout, or both internal errors with the same message.
pub open spec fn same_error(a: ErrorCode, b: ErrorCode) -> bool {
    match (a, b) {
        (ErrorCode::OK, ErrorCode::OK) => true,
        (
            ErrorCode::MemoryError { size: s1, align: a1 },
            ErrorCode::MemoryError { size: s2, align: a2 },
        ) => s1 == s2 && a1 == a2,
        (ErrorCode::InternalError(m1), ErrorCode::InternalError(m2)) => m1@ == m2@,
        _ => false,
    }
}

/// The human-readable text of an error.
pub open spec fn message_of(e: ErrorCode) -> Seq<char> {
    match e {
        ErrorCode::OK => "ok"@,
        ErrorCode::MemoryError { .. } => "Failed to alloc memory"@,
        ErrorCode::InternalError(m) => "internal error: "@ + m@,
        ErrorCode::ProtobufError(m) => m@,
        ErrorCode::NotImplementedError(m) => "Feature is not yet implemented: "@ + m@,
        ErrorCode::IoError(m) => m@,
        ErrorCode::GrpcError(c, m) => "Grpc failure: "@ + c@ + ": "@ + m@,
        ErrorCode::ParseError(m) => "Parse string error: "@ + m@,
        ErrorCode::NumericValueOutOfRange => "Out of range"@,
        ErrorCode::ProtocolError(m) => "protocol error: "@ + m@,
        ErrorCode::TaskNotFound => "Task not found"@,
    }
}

impl ErrorCode {
    pub fn get_code(&self) -> (r: u32)
        ensures
            r == code_of(*self),
    {
        match self {
            ErrorCode::OK => 0,
            ErrorCode::InternalError(_) => 1,
            ErrorCode::MemoryError { .. } => 2,
            ErrorCode::ProtobufError(_) => 3,
            ErrorCode::NotImplementedError(_) => 4,
            ErrorCode::IoError(_) => 5,
            ErrorCode::GrpcError(_, _) => 6,
            ErrorCode::ParseError(_) => 7,
            ErrorCode::NumericValueOutOfRange => 8,
            ErrorCode::ProtocolError(_) => 9,
            ErrorCode::TaskNotFound => 10,
        }
    }

    pub fn to_grpc_error_code(&self) -> (r: RpcStatusCode)
        ensures
            r == grpc_code_of(*self),
    {
        match self {
            ErrorCode::OK => RpcStatusCode::Success,
            ErrorCode::NotImplementedError(_) => RpcStatusCode::Unimplemented,
            ErrorCode::TaskNotFound => RpcStatusCode::NotFound,
            _ => RpcStatusCode::Internal,
        }
    }

    /// The text of the error.
    pub fn message(&self) -> (r: String)
        ensures
            r@ == message_of(*self),
    {
        match self {
            ErrorCode::OK => "ok".to_owned(),
            ErrorCode::MemoryError { .. } => "Failed to alloc memory".to_owned(),
            ErrorCode::InternalError(m) => concat("internal error: ", m.as_str()),
            ErrorCode::ProtobufError(m) => m.clone(),
            ErrorCode::NotImplementedError(m) => concat("Feature is not yet implemented: ", m.as_str()),
            ErrorCode::IoError(m) => m.clone(),
            ErrorCode::GrpcError(c, m) => {
                let head = concat("Grpc failure: ", c.as_str());
                let head = concat(head.as_str(), ": ");
                concat(head.as_str(), m.as_str())
            },
            ErrorCode::ParseError(m) => concat("Parse string error: ", m.as_str()),
            ErrorCode::NumericValueOutOfRange => "Out of range".to_owned(),
            ErrorCode::ProtocolError(m) => concat("protocol error: ", m.as_str()),
            ErrorCode::TaskNotFound => "Task not found".to_owned(),
        }
    }
}

impl PartialEq for ErrorCode {
    fn eq(&self, other: &ErrorCode) -> (r: bool)
        ensures
            r == same_error(*self, *other),
    {
        match (self, other) {
            (ErrorCode::OK, ErrorCode::OK) => true,
            (
                ErrorCode::MemoryError { size: s1, align: a1 },
                ErrorCode::MemoryError { size: s2, align: a2 },
            ) => *s1 == *s2 && *a1 == *a2,
            (ErrorCode::InternalError(m1), ErrorCode::InternalError(m2)) => String::eq(m1, m2),
            _ => false,
        }
    }
}

impl vstd::std_specs::cmp::PartialEqSpecImpl for ErrorCode {
    open spec fn obeys_eq_spec() -> bool {
        false
    }

    open spec fn eq_spec(&self, other: &ErrorCode) -> bool {
        same_error(*self, *other)
    }
}

/// An error of the system with the stack it was raised on; cloning shares
/// both.
#[derive(Debug, Clone)]
pub struct RwError {
    inner: Arc<ErrorCode>,
    backtrace: Arc<backtrace::Backtrace>,
}

impl RwError {
    /// The kind of the error.
    pub closed spec fn code(&self) -> ErrorCode {
        *self.inner
    }

    /// An error of kind `code`, with the stack captured now.
    pub fn new(code: ErrorCode) -> (r: RwError)
        ensures
            r.code() == code,
    {
        RwError { inner: Arc::new(code), backtrace: Arc::new(capture_backtrace()) }
    }

    /// The kind of the error.
    pub fn inner(&self) -> (r: &ErrorCode)
        ensures
            *r == self.code(),
    {
        &*self.inner
    }

    /// The error as an RPC status: its code, and its text as the message.
    pub fn to_grpc_error(&self) -> (r: RpcStatus)
        ensures
            r.code == grpc_code_of(self.code()),
            r.message@ == message_of(self.code()),
    {
        RpcStatus { code: self.inner.to_grpc_error_code(), message: self.inner.message() }
    }

    /// The text of the error.
    pub fn to_string(&self) -> (r: String)
        ensures
            r@ == message_of(self.code()),
    {
        self.inner.message()
    }
}

impl PartialEq for RwError {
    fn eq(&self, other: &RwError) -> (r: bool)
        ensures
            r == same_error(self.code(), other.code()),
    {
        (*self.inner).eq(&*other.inner)
    }
}

impl vstd::std_specs::cmp::PartialEqSpecImpl for RwError {
    open spec fn obeys_eq_spec() -> bool {
        false
    }

    open spec fn eq_spec(&self, other: &RwError) -> bool {
        same_error(self.code(), other.code())
    }
}

/// `Ok` when `cond` holds, else an error of kind `code`.
pub fn ensure(cond: bool, code: ErrorCode) -> (r: Result<(), RwError>)
    ensures
        cond ==> r is Ok,
        !cond ==> (r matches Err(e) && e.code() == code),
{
    if cond {
        Ok(())
    } else {
        Err(RwError::new(code))
    }
}

} // verus!
