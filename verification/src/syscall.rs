//! The system-call interface: call numbers, the encoding of calls and
//! results in registers, and the results of the log call.
use vstd::prelude::*;
use vstd::string::StringExecFns;

verus! {

/// The system calls, by number.
#[derive(Debug, Clone, Copy, PartialEq, Eq, Structural)]
pub enum SyscallNumber {
    /// Append the given string to the kernel log.
    Log,
    _Max,
}

/// The number of a system call.
pub open spec fn syscall_number_value(n: SyscallNumber) -> u16 {
    match n {
        SyscallNumber::Log => 0,
        SyscallNumber::_Max => 1,
    }
}

impl SyscallNumber {
    /// The number as an integer.
    pub fn as_integer(self) -> (r: u16)
        ensures
            r == syscall_number_value(self),
    {
        match self {
            SyscallNumber::Log => 0,
            SyscallNumber::_Max => 1,
        }
    }
}

/// The arguments of the log call: where the string is and how long it is.
#[derive(Debug, Clone, Copy, PartialEq, Eq, Structural)]
pub struct LogArguments {
    pub string_address: usize,
    pub length: usize,
}

/// The six argument registers of a system call.
#[derive(Debug, Clone, Copy, PartialEq, Eq, Structural)]
pub struct RegisterValues {
    pub rdi: u64,
    pub rsi: u64,
    pub rdx: u64,
    pub r10: u64,
    pub r8: u64,
    pub r9: u64,
}

impl RegisterValues {
    /// All registers zero.
    pub fn zeroed() -> (r: Self)
        ensures
            r == (RegisterValues { rdi: 0, rsi: 0, rdx: 0, r10: 0, r8: 0, r9: 0 }),
    {
        RegisterValues { rdi: 0, rsi: 0, rdx: 0, r10: 0, r8: 0, r9: 0 }
    }
}

/// A system call with its arguments.
#[derive(Debug, Clone, Copy, PartialEq, Eq, Structural)]
pub enum Syscall {
    Log(LogArguments),
}

/// Why registers do not decode to a system call.
#[derive(Debug, Clone, Copy, PartialEq, Eq, Structural)]
pub enum SyscallDecodeError {
    InvalidSyscallNumber(u16),
}

/// The decimal digits of `n`, most significant first, without leading
/// zeros (`0` for zero).
pub open spec fn decimal_digits(n: nat) -> Seq<char>
    decreases n,
{
    let digit = (('0' as u32) + n % 10) as char;
    if n < 10 {
        seq![digit]
    } else {
        decimal_digits(n / 10).push(digit)
    }
}

/// The number that decimal digits (most significant first) stand for.
pub open spec fn decimal_value(digits: Seq<char>) -> nat
    decreases digits.len(),
{
    if digits.len() == 0 {
        0
    } else {
        10 * decimal_value(digits.drop_last()) + ((digits.last() as u32) - ('0' as u32)) as nat
    }
}

/// The decimal digits of `n` are the usual way to write it: each is one of
/// `0` to `9`, read back most significant first they give `n`, and the
/// first is `0` only for zero itself.
pub proof fn law_decimal_digits_read_back(n: nat)
    ensures
        decimal_digits(n).len() >= 1,
        forall|i: int| 0 <= i < decimal_digits(n).len() ==> '0' <= #[trigger] decimal_digits(n)[i] <= '9',
        decimal_value(decimal_digits(n)) == n,
        decimal_digits(n)[0] == '0' ==> n == 0,
    decreases n,
{
    let digit = (('0' as u32) + n % 10) as char;
    assert(digit as u32 == ('0' as u32) + n % 10);
    assert(decimal_digits(n).last() == digit);
    assert(((digit as u32) - ('0' as u32)) as nat == n % 10);
    assert(decimal_value(decimal_digits(n)) == 10 * decimal_value(decimal_digits(n).drop_last()) + n % 10);
    if n >= 10 {
        law_decimal_digits_read_back(n / 10);
        let front = decimal_digits(n / 10);
        assert(decimal_digits(n) == front.push(digit));
        assert(decimal_digits(n).drop_last() == front);
        assert(decimal_digits(n)[0] == front[0]);
        vstd::arithmetic::div_mod::lemma_fundamental_div_mod(n as int, 10);
    } else {
        assert(decimal_digits(n).drop_last() == Seq::<char>::empty());
    }
}

/// The text `Invalid syscall number: ` followed by `number` in decimal.
pub open spec fn invalid_number_message(number: u16) -> Seq<char> {
    seq!['I', 'n', 'v', 'a', 'l', 'i', 'd', ' ', 's', 'y', 's', 'c', 'a', 'l', 'l', ' ', 'n', 'u', 'm', 'b', 'e', 'r', ':', ' ']
        + decimal_digits(number as nat)
}

impl SyscallDecodeError {
    /// The message the error is shown with.
    pub fn message(&self) -> (r: String)
        ensures
            match self {
                SyscallDecodeError::InvalidSyscallNumber(number) => r@ == invalid_number_message(*number),
            },
    {
        match self {
            SyscallDecodeError::InvalidSyscallNumber(number) => describe_invalid_number(*number),
        }
    }
}

/// The text `Invalid syscall number: ` followed by `number` in decimal.
fn describe_invalid_number(number: u16) -> (r: String)
    ensures
        r@ == invalid_number_message(number),
{
    let mut text = String::from_str("Invalid syscall number: ");
    proof {
        reveal_strlit("Invalid syscall number: ");
    }
    append_decimal(&mut text, number);
    text
}

/// Appends the decimal digits of `n`, most significant first.
fn append_decimal(text: &mut String, n: u16)
    ensures
        final(text)@ == old(text)@ + decimal_digits(n as nat),
    decreases n,
{
    if n >= 10 {
        append_decimal(text, n / 10);
    }
    let digit = decimal_digit(n % 10);
    text.append(digit);
    proof {
        if n >= 10 {
            assert(decimal_digits(n as nat) == decimal_digits((n / 10) as nat).push((('0' as u32) + n % 10) as char));
        }
    }
}

/// The character of the decimal digit `d`.
fn decimal_digit(d: u16) -> (r: &'static str)
    requires
        d < 10,
    ensures
        r@ == seq![(('0' as u32) + d) as char],
{
    proof {
        reveal_strlit("0");
        reveal_strlit("1");
        reveal_strlit("2");
        reveal_strlit("3");
        reveal_strlit("4");
        reveal_strlit("5");
        reveal_strlit("6");
        reveal_strlit("7");
        reveal_strlit("8");
        reveal_strlit("9");
    }
    match d {
        0 => "0",
        1 => "1",
        2 => "2",
        3 => "3",
        4 => "4",
        5 => "5",
        6 => "6",
        7 => "7",
        8 => "8",
        _ => "9",
    }
}

/// The registers of `syscall`: the arguments laid out in order from the
/// first register (a `usize` fills one register).
pub open spec fn encoded_registers(syscall: Syscall) -> RegisterValues {
    match syscall {
        Syscall::Log(arguments) => RegisterValues {
            rdi: arguments.string_address as u64,
            rsi: arguments.length as u64,
            rdx: 0,
            r10: 0,
            r8: 0,
            r9: 0,
        },
    }
}

/// The number and registers of a system call.
pub fn encode_syscall(syscall: Syscall) -> (r: (u16, RegisterValues))
    ensures
        r.0 == match syscall {
            Syscall::Log(_) => syscall_number_value(SyscallNumber::Log),
        },
        r.1 == encoded_registers(syscall),
{
    match syscall {
        Syscall::Log(arguments) => (
            SyscallNumber::Log.as_integer(),
            RegisterValues {
                rdi: arguments.string_address as u64,
                rsi: arguments.length as u64,
                rdx: 0,
                r10: 0,
                r8: 0,
                r9: 0,
            },
        ),
    }
}

/// The system call that a number and registers stand for: numbers from
/// `_Max` on are invalid, and the log call takes its address and length
/// from the first two registers.
pub open spec fn decoded_syscall(number: u16, arguments: RegisterValues) -> Result<Syscall, SyscallDecodeError> {
    if number >= syscall_number_value(SyscallNumber::_Max) {
        Err(SyscallDecodeError::InvalidSyscallNumber(number))
    } else {
        Ok(Syscall::Log(LogArguments { string_address: arguments.rdi as usize, length: arguments.rsi as usize }))
    }
}

/// The system call that a number and registers stand for.
pub fn decode_syscall(number: u16, arguments: RegisterValues) -> (r: Result<Syscall, SyscallDecodeError>)
    ensures
        r == decoded_syscall(number, arguments),
{
    if number >= SyscallNumber::_Max.as_integer() {
        return Err(SyscallDecodeError::InvalidSyscallNumber(number));
    }
    Ok(Syscall::Log(LogArguments { string_address: arguments.rdi as usize, length: arguments.rsi as usize }))
}

/// The result of a system call.
#[derive(Debug, Clone, Copy, PartialEq, Eq, Structural)]
pub enum SyscallResult {
    NoValue,
}

/// The registers of a result: none carries a value, so all are zero.
pub fn encode_syscall_result(result: SyscallResult) -> (r: RegisterValues)
    ensures
        r == (RegisterValues { rdi: 0, rsi: 0, rdx: 0, r10: 0, r8: 0, r9: 0 }),
{
    match result {
        SyscallResult::NoValue => RegisterValues::zeroed(),
    }
}

/// The result of the call `syscall_number` from its registers.
pub fn decode_syscall_result(syscall_number: SyscallNumber, result_registers: RegisterValues) -> (r: SyscallResult)
    requires
        syscall_number != SyscallNumber::_Max,
    ensures
        r == SyscallResult::NoValue,
{
    match syscall_number {
        SyscallNumber::Log => SyscallResult::NoValue,
        SyscallNumber::_Max => SyscallResult::NoValue,
    }
}

/// Decoding the number and registers of an encoded call gives the call back.
pub proof fn lemma_decode_encode(syscall: Syscall)
    ensures
        decoded_syscall(
            match syscall {
                Syscall::Log(_) => syscall_number_value(SyscallNumber::Log),
            },
            encoded_registers(syscall),
        ) == Ok::<Syscall, SyscallDecodeError>(syscall),
{
}

/// Why the log call failed.
#[derive(Debug, Clone, Copy, PartialEq, Eq, Structural)]
pub enum LogError {
    InvalidUtf8 { position: usize },
}

/// The number of result parameters.
pub const PARAMETER_COUNT: usize = 1;

/// The status code of an invalid-UTF-8 result.
pub const INVALID_UTF8_STATUS_CODE: usize = 1;

/// A result as it travels in registers: a status code and its parameters.
#[derive(Clone, Copy, Debug, PartialEq, Eq, Structural)]
pub struct EncodedResult {
    pub status_code: usize,
    pub parameters: usize,
}

/// Why registers do not decode to a result.
#[derive(Debug, Clone, Copy)]
pub enum SyscallResultDecodeError {
    InvalidResultField(&'static str),
}

/// The encoding of a log result: status 0 for success, status 1 with the
/// position for invalid UTF-8.
pub open spec fn log_result_encoding(result: Result<(), LogError>) -> EncodedResult {
    match result {
        Ok(()) => EncodedResult { status_code: 0, parameters: 0 },
        Err(LogError::InvalidUtf8 { position }) => EncodedResult {
            status_code: INVALID_UTF8_STATUS_CODE,
            parameters: position,
        },
    }
}

/// The log result an encoding stands for; another status code is an error
/// in the status-code field.
pub open spec fn log_result_decoding(result: EncodedResult) -> Result<Result<(), LogError>, SyscallResultDecodeError> {
    if result.status_code == 0 {
        Ok(Ok(()))
    } else if result.status_code == INVALID_UTF8_STATUS_CODE {
        Ok(Err(LogError::InvalidUtf8 { position: result.parameters }))
    } else {
        Err(SyscallResultDecodeError::InvalidResultField("status_code"))
    }
}

/// The encoding of a log result.
pub fn encode_log_result(result: Result<(), LogError>) -> (r: EncodedResult)
    ensures
        r == log_result_encoding(result),
{
    match result {
        Ok(()) => EncodedResult { status_code: 0, parameters: 0 },
        Err(LogError::InvalidUtf8 { position }) => EncodedResult {
            status_code: INVALID_UTF8_STATUS_CODE,
            parameters: position,
        },
    }
}

/// The log result an encoding stands for; an unknown status code is an error.
pub fn decode_log_result(result: EncodedResult) -> (r: Result<Result<(), LogError>, SyscallResultDecodeError>)
    ensures
        r == log_result_decoding(result),
{
    if result.status_code == 0 {
        Ok(Ok(()))
    } else if result.status_code == INVALID_UTF8_STATUS_CODE {
        Ok(Err(LogError::InvalidUtf8 { position: result.parameters }))
    } else {
        Err(SyscallResultDecodeError::InvalidResultField("status_code"))
    }
}

/// Decoding an encoded log result gives it back.
pub proof fn lemma_log_result_round_trip(result: Result<(), LogError>)
    ensures
        log_result_decoding(log_result_encoding(result)) == Ok::<Result<(), LogError>, SyscallResultDecodeError>(result),
{
    match result {
        Ok(u) => {
            assert(u == ());
            assert(result == Ok::<(), LogError>(()));
        },
        Err(LogError::InvalidUtf8 { position }) => {
            assert(log_result_encoding(result).status_code == INVALID_UTF8_STATUS_CODE);
        },
    }
}

} // verus!
