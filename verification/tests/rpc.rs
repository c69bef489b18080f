use llama_cpp_4::rpc::backend::{check_endpoint, device_memory, init_outcome};
use llama_cpp_4::rpc::error::RpcError;

#[test]
fn endpoint_with_a_zero_byte_is_refused() {
    assert!(check_endpoint("127.0.0.1:50052").is_ok());
    assert!(matches!(
        check_endpoint("127.0\0.0.1"),
        Err(RpcError::StringConversion { position: 5 })
    ));
}

#[test]
fn missing_handle_means_initialization_failed() {
    assert_eq!(init_outcome("127.0.0.1:50052", false).ok(), Some(String::from("127.0.0.1:50052")));
    match init_outcome("127.0.0.1:50052", true) {
        Err(RpcError::InitializationFailed { endpoint }) => assert_eq!(endpoint, "127.0.0.1:50052"),
        other => panic!("unexpected outcome: {:?}", other),
    }
}

#[test]
fn zero_total_memory_means_the_query_failed() {
    assert!(matches!(device_memory(0, 0), Err(RpcError::MemoryQueryFailed)));
    assert!(matches!(device_memory(5, 0), Err(RpcError::MemoryQueryFailed)));
    assert!(matches!(device_memory(1024, 4096), Ok((1024, 4096))));
    assert!(matches!(device_memory(0, 1), Ok((0, 1))));
}
