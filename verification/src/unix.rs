//! What system calls come to.

use vstd::prelude::*;

verus! {

/// A system call failed; the system's error number says why.
#[derive(Clone, Copy, Debug, PartialEq, Eq, Structural)]
pub struct SyscallFailed;

/// What a system call that returned `result` came to: -1 tells that it failed,
/// anything else is its value.
pub fn syscall(result: i32) -> (outcome: Result<i32, SyscallFailed>)
    ensures
        outcome == (if result == -1 {
            Err(SyscallFailed)
        } else {
            Ok(result)
        }),
{
    if result == -1 {
        Err(SyscallFailed)
    } else {
        Ok(result)
    }
}

/// What a call of `setsockopt` that returned `result` came to. Its value says
/// nothing more than that it succeeded.
pub fn setsockopt(result: i32) -> (outcome: Result<(), SyscallFailed>)
    ensures
        outcome == (if result == -1 {
            Err(SyscallFailed)
        } else {
            Ok(())
        }),
{
    match syscall(result) {
        Ok(_) => Ok(()),
        Err(error) => Err(error),
    }
}

/// The arguments of a call of `setsockopt`, but for the pointer to the value.
#[derive(Clone, Copy, Debug, PartialEq, Eq, Structural)]
pub struct SetsockoptArgs {
    /// the socket.
    pub fd: i32,
    /// the protocol level that the option belongs to.
    pub level: i32,
    /// the option.
    pub name: i32,
    /// how many bytes the value has.
    pub length: u32,
}

/// The arguments that set option `val` of level `opt` to a value of `size` bytes. Of
/// the size there is room for the low 32 bits.
pub fn setsockopt_args(fd: i32, opt: i32, val: i32, size: usize) -> (args: SetsockoptArgs)
    ensures
        args == (SetsockoptArgs {
            fd,
            level: opt,
            name: val,
            length: (size as int % 0x1_0000_0000) as u32,
        }),
{
    let wide: u64 = size as u64;
    assert(wide as u32 as u64 == wide % 0x1_0000_0000) by (bit_vector);
    SetsockoptArgs { fd, level: opt, name: val, length: wide as u32 }
}

/// A system call failed if and only if it returned -1; every other value is kept.
pub proof fn law_syscall(result: i32, outcome: Result<i32, SyscallFailed>)
    requires
        call_ensures(syscall, (result,), outcome),
    ensures
        outcome is Err <==> result == -1,
        outcome matches Ok(value) ==> value == result,
{
}

/// `setsockopt` fails where any other system call with its result does.
pub proof fn law_setsockopt_is_a_syscall(
    result: i32,
    outcome: Result<(), SyscallFailed>,
    general: Result<i32, SyscallFailed>,
)
    requires
        call_ensures(setsockopt, (result,), outcome),
        call_ensures(syscall, (result,), general),
    ensures
        outcome is Err <==> general is Err,
        outcome is Err <==> result == -1,
{
}

/// Socket, level and option are handed on as they are. So is a size that fits in 32 bits;
/// of any other, what is lost is a multiple of what fits.
pub proof fn law_setsockopt_args(fd: i32, opt: i32, val: i32, size: usize, args: SetsockoptArgs)
    requires
        call_ensures(setsockopt_args, (fd, opt, val, size), args),
    ensures
        args.fd == fd,
        args.level == opt,
        args.name == val,
        size <= u32::MAX ==> args.length == size,
        (size - args.length) % 0x1_0000_0000 == 0,
        args.length <= size,
{
}

} // verus!
