use stream_meta::error::{ensure, ErrorCode, RpcStatusCode, RwError};

#[test]
fn test_display_ok() {
    let ret = RwError::new(ErrorCode::OK);
    println!("Error: {}", ret.to_string());
    assert_eq!(ret.to_string(), "ok");
}

#[test]
fn test_display_internal_error() {
    let internal_error = ErrorCode::InternalError("some thing bad happened!".to_string());
    let e = RwError::new(internal_error);
    println!("{:?}", e);
    assert_eq!(e.to_string(), "internal error: some thing bad happened!");
}

#[test]
fn test_ensure() {
    let a = 1;
    {
        let err_msg = "a < 0";
        let error = ensure(a < 0, ErrorCode::InternalError(err_msg.to_string()));
        assert_eq!(Err(RwError::new(ErrorCode::InternalError(err_msg.to_string()))), error);
    }
    {
        let err_msg = "error msg without args";
        let error = ensure(a < 0, ErrorCode::InternalError("error msg without args".to_string()));
        assert_eq!(Err(RwError::new(ErrorCode::InternalError(err_msg.to_string()))), error);
    }
    {
        let error = ensure(a < 0, ErrorCode::InternalError(format!("error msg with args: {}", "xx")));
        assert_eq!(Err(RwError::new(ErrorCode::InternalError(format!("error msg with args: {}", "xx")))), error);
    }
    {
        let expected_error = ErrorCode::MemoryError { size: 8, align: 8 };
        let error = ensure(a < 0, ErrorCode::MemoryError { size: 8, align: 8 });
        assert_eq!(Err(RwError::new(expected_error)), error);
    }
    assert_eq!(ensure(a > 0, ErrorCode::TaskNotFound), Ok(()));
}

#[test]
fn test_to_grpc_error() {
    fn check_grpc_error(ec: ErrorCode, grpc_code: RpcStatusCode) {
        assert_eq!(RwError::new(ec).to_grpc_error().code(), grpc_code);
    }
    check_grpc_error(ErrorCode::TaskNotFound, RpcStatusCode::NotFound);
    check_grpc_error(ErrorCode::InternalError(String::new()), RpcStatusCode::Internal);
    check_grpc_error(ErrorCode::NotImplementedError(String::new()), RpcStatusCode::Unimplemented);
    check_grpc_error(ErrorCode::OK, RpcStatusCode::Success);
}

#[test]
fn grpc_status_carries_code_and_message() {
    let status = RwError::new(ErrorCode::GrpcError("inject barrier".to_string(), "unavailable".to_string())).to_grpc_error();
    assert_eq!(status.code(), RpcStatusCode::Internal);
    assert_eq!(status.code().value(), 13);
    assert_eq!(status.message, "Grpc failure: inject barrier: unavailable");
    assert_eq!(RpcStatusCode::NotFound.value(), 5);
    assert_eq!(RpcStatusCode::Unimplemented.value(), 12);
    assert_eq!(RpcStatusCode::Success.value(), 0);
}

#[test]
fn error_codes_and_equality() {
    let codes = [
        ErrorCode::OK,
        ErrorCode::InternalError(String::new()),
        ErrorCode::MemoryError { size: 1, align: 1 },
        ErrorCode::ProtobufError(String::new()),
        ErrorCode::NotImplementedError(String::new()),
        ErrorCode::IoError(String::new()),
        ErrorCode::GrpcError(String::new(), String::new()),
        ErrorCode::ParseError(String::new()),
        ErrorCode::NumericValueOutOfRange,
        ErrorCode::ProtocolError(String::new()),
        ErrorCode::TaskNotFound,
    ];
    for (i, c) in codes.iter().enumerate() {
        assert_eq!(c.get_code() as usize, i);
    }
    assert!(ErrorCode::TaskNotFound != ErrorCode::TaskNotFound);
    assert!(ErrorCode::MemoryError { size: 8, align: 8 } != ErrorCode::MemoryError { size: 8, align: 4 });
    assert!(ErrorCode::InternalError("x".to_string()) != ErrorCode::InternalError("y".to_string()));
    assert_eq!(ErrorCode::ProtocolError("bad".to_string()).message(), "protocol error: bad");
    assert_eq!(ErrorCode::NumericValueOutOfRange.message(), "Out of range");
}
