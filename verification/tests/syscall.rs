use osmium::syscall::{
    decode_log_result, decode_syscall, decode_syscall_result, encode_log_result, encode_syscall,
    encode_syscall_result, EncodedResult, LogArguments, LogError, RegisterValues, Syscall, SyscallDecodeError,
    SyscallNumber, SyscallResult,
};

#[test]
fn log_call_round_trip() {
    let call = Syscall::Log(LogArguments { string_address: 0x1234_5678, length: 42 });
    let (number, registers) = encode_syscall(call);
    assert_eq!(number, 0);
    assert_eq!(registers, RegisterValues { rdi: 0x1234_5678, rsi: 42, rdx: 0, r10: 0, r8: 0, r9: 0 });
    assert_eq!(decode_syscall(number, registers), Ok(call));
}

#[test]
fn invalid_call_numbers() {
    let registers = RegisterValues::zeroed();
    assert_eq!(decode_syscall(1, registers), Err(SyscallDecodeError::InvalidSyscallNumber(1)));
    assert_eq!(decode_syscall(65535, registers), Err(SyscallDecodeError::InvalidSyscallNumber(65535)));
    assert_eq!(SyscallDecodeError::InvalidSyscallNumber(7).message(), "Invalid syscall number: 7");
    assert_eq!(SyscallDecodeError::InvalidSyscallNumber(1024).message(), "Invalid syscall number: 1024");
    assert_eq!(SyscallDecodeError::InvalidSyscallNumber(0).message(), "Invalid syscall number: 0");
}

#[test]
fn results_in_registers() {
    assert_eq!(encode_syscall_result(SyscallResult::NoValue), RegisterValues::zeroed());
    let registers = RegisterValues { rdi: 3, rsi: 4, rdx: 5, r10: 6, r8: 7, r9: 8 };
    assert_eq!(decode_syscall_result(SyscallNumber::Log, registers), SyscallResult::NoValue);
    assert_eq!(SyscallNumber::Log.as_integer(), 0);
    assert_eq!(SyscallNumber::_Max.as_integer(), 1);
}

#[test]
fn log_results_round_trip() {
    assert_eq!(encode_log_result(Ok(())), EncodedResult { status_code: 0, parameters: 0 });
    let error = Err(LogError::InvalidUtf8 { position: 17 });
    assert_eq!(encode_log_result(error), EncodedResult { status_code: 1, parameters: 17 });
    assert_eq!(decode_log_result(encode_log_result(error)).ok(), Some(error));
    assert_eq!(decode_log_result(encode_log_result(Ok(()))).ok(), Some(Ok(())));
    assert!(decode_log_result(EncodedResult { status_code: 2, parameters: 0 }).is_err());
}
