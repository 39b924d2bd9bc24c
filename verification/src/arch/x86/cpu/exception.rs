//! Processor exceptions.
use vstd::prelude::*;

verus! {

/// Exceptions the processor raises, by vector.
pub enum Fault {
    DIVIDE_ERROR,
    NMI,
    BREAKPOINT,
    OVERFLOW,
    BOUND_EXCEEDED,
    INVALID_OPCODE,
    NO_MATH_COPROCESSOR,
    DOUBLE_FAULT,
    COPROCESSOR_SEGMENT_OVERUN,
    INVALID_TSS,
    SEGMENT_NOT_PRESENT,
    STACK_SEGMENT_FAULT,
    GENERAL_PROTECTION,
    PAGE_FAULT,
    FLOATING_POINT_ERROR,
    ALIGNMENT_CHECK,
    MACHINE_CHECK,
    SIMD_FP_EXCEPTION,
}

impl Fault {
    pub open spec fn spec_vector(self) -> u8 {
        match self {
            Fault::DIVIDE_ERROR => 0,
            Fault::NMI => 2,
            Fault::BREAKPOINT => 3,
            Fault::OVERFLOW => 4,
            Fault::BOUND_EXCEEDED => 5,
            Fault::INVALID_OPCODE => 6,
            Fault::NO_MATH_COPROCESSOR => 7,
            Fault::DOUBLE_FAULT => 8,
            Fault::COPROCESSOR_SEGMENT_OVERUN => 9,
            Fault::INVALID_TSS => 10,
            Fault::SEGMENT_NOT_PRESENT => 11,
            Fault::STACK_SEGMENT_FAULT => 12,
            Fault::GENERAL_PROTECTION => 13,
            Fault::PAGE_FAULT => 14,
            Fault::FLOATING_POINT_ERROR => 16,
            Fault::ALIGNMENT_CHECK => 17,
            Fault::MACHINE_CHECK => 18,
            Fault::SIMD_FP_EXCEPTION => 19,
        }
    }

    /// The exception's interrupt vector.
    pub fn vector(&self) -> (v: u8)
        ensures
            v == self.spec_vector(),
    {
        match self {
            Fault::DIVIDE_ERROR => 0,
            Fault::NMI => 2,
            Fault::BREAKPOINT => 3,
            Fault::OVERFLOW => 4,
            Fault::BOUND_EXCEEDED => 5,
            Fault::INVALID_OPCODE => 6,
            Fault::NO_MATH_COPROCESSOR => 7,
            Fault::DOUBLE_FAULT => 8,
            Fault::COPROCESSOR_SEGMENT_OVERUN => 9,
            Fault::INVALID_TSS => 10,
            Fault::SEGMENT_NOT_PRESENT => 11,
            Fault::STACK_SEGMENT_FAULT => 12,
            Fault::GENERAL_PROTECTION => 13,
            Fault::PAGE_FAULT => 14,
            Fault::FLOATING_POINT_ERROR => 16,
            Fault::ALIGNMENT_CHECK => 17,
            Fault::MACHINE_CHECK => 18,
            Fault::SIMD_FP_EXCEPTION => 19,
        }
    }
}


/// Names of the exception vectors 0 to 20.
pub open spec fn exception_name(n: int) -> Seq<char> {
    if n == 0 {
        "Divide-by-zero Error"@
    } else if n == 1 {
        "Debug"@
    } else if n == 2 {
        "Non-maskable Interrupt"@
    } else if n == 3 {
        "Breakpoint"@
    } else if n == 4 {
        "Overflow"@
    } else if n == 5 {
        "Bound Range Exceeded"@
    } else if n == 6 {
        "Invalid Opcode"@
    } else if n == 7 {
        "Device Not Available"@
    } else if n == 8 {
        "Double Fault"@
    } else if n == 9 {
        "Coprocessor Segment Overrun"@
    } else if n == 10 {
        "Invalid TSS"@
    } else if n == 11 {
        "Segment Not Present"@
    } else if n == 12 {
        "Stack-Segment Fault"@
    } else if n == 13 {
        "General Protection Fault"@
    } else if n == 14 {
        "Page Fault"@
    } else if n == 15 {
        "Reserved"@
    } else if n == 16 {
        "x87 Floating-Point Exception"@
    } else if n == 17 {
        "Alignment Check"@
    } else if n == 18 {
        "Machine Check"@
    } else if n == 19 {
        "SIMD Floating-Point Exception"@
    } else {
        "Virtualization Exception"@
    }
}

/// What the exception handler does for vector `int_no`: `None` for a
/// breakpoint (the low byte of `int_no` is 3), which goes to the debugger;
/// otherwise the name of the exception, which it reports before halting.
pub fn exception_message(int_no: u32) -> (m: Option<&'static str>)
    requires
        int_no % 256 == 3 || int_no < 21,
    ensures
        int_no % 256 == 3 ==> m is None,
        int_no % 256 != 3 ==> m is Some && m->0@ == exception_name(int_no as int),
{
    if int_no % 256 == 3 {
        return None;
    }
    if int_no == 0 {
        Some("Divide-by-zero Error")
    } else if int_no == 1 {
        Some("Debug")
    } else if int_no == 2 {
        Some("Non-maskable Interrupt")
    } else if int_no == 3 {
        Some("Breakpoint")
    } else if int_no == 4 {
        Some("Overflow")
    } else if int_no == 5 {
        Some("Bound Range Exceeded")
    } else if int_no == 6 {
        Some("Invalid Opcode")
    } else if int_no == 7 {
        Some("Device Not Available")
    } else if int_no == 8 {
        Some("Double Fault")
    } else if int_no == 9 {
        Some("Coprocessor Segment Overrun")
    } else if int_no == 10 {
        Some("Invalid TSS")
    } else if int_no == 11 {
        Some("Segment Not Present")
    } else if int_no == 12 {
        Some("Stack-Segment Fault")
    } else if int_no == 13 {
        Some("General Protection Fault")
    } else if int_no == 14 {
        Some("Page Fault")
    } else if int_no == 15 {
        Some("Reserved")
    } else if int_no == 16 {
        Some("x87 Floating-Point Exception")
    } else if int_no == 17 {
        Some("Alignment Check")
    } else if int_no == 18 {
        Some("Machine Check")
    } else if int_no == 19 {
        Some("SIMD Floating-Point Exception")
    } else {
        Some("Virtualization Exception")
    }
}

/// Each fault is served by its x86 exception vector: divide error 0, NMI 2,
/// breakpoint 3, overflow 4, ..., general protection 13, page fault 14,
/// x87 error 16, ..., SIMD error 19. No two faults share a vector, none is
/// served by the debug vector 1 or the reserved vector 15, the breakpoint is
/// exactly the fault whose vector the exception handler lets pass, and
/// every other fault's vector is the one under which the handler reports
/// it by its name.
pub proof fn law_fault_vectors(f: Fault, g: Fault)
    ensures
        f != g ==> f.spec_vector() != g.spec_vector(),
        f.spec_vector() < 20,
        f.spec_vector() != 1 && f.spec_vector() != 15,
        ((f.spec_vector() as int) % 256 == 3) == (f == Fault::BREAKPOINT),
        Fault::DIVIDE_ERROR.spec_vector() == 0,
        Fault::NMI.spec_vector() == 2,
        Fault::BREAKPOINT.spec_vector() == 3,
        Fault::OVERFLOW.spec_vector() == 4,
        Fault::BOUND_EXCEEDED.spec_vector() == 5,
        Fault::INVALID_OPCODE.spec_vector() == 6,
        Fault::NO_MATH_COPROCESSOR.spec_vector() == 7,
        Fault::DOUBLE_FAULT.spec_vector() == 8,
        Fault::COPROCESSOR_SEGMENT_OVERUN.spec_vector() == 9,
        Fault::INVALID_TSS.spec_vector() == 10,
        Fault::SEGMENT_NOT_PRESENT.spec_vector() == 11,
        Fault::STACK_SEGMENT_FAULT.spec_vector() == 12,
        Fault::GENERAL_PROTECTION.spec_vector() == 13,
        Fault::PAGE_FAULT.spec_vector() == 14,
        Fault::FLOATING_POINT_ERROR.spec_vector() == 16,
        Fault::ALIGNMENT_CHECK.spec_vector() == 17,
        Fault::MACHINE_CHECK.spec_vector() == 18,
        Fault::SIMD_FP_EXCEPTION.spec_vector() == 19,
        exception_name(Fault::DIVIDE_ERROR.spec_vector() as int) == "Divide-by-zero Error"@,
        exception_name(Fault::NMI.spec_vector() as int) == "Non-maskable Interrupt"@,
        exception_name(Fault::BREAKPOINT.spec_vector() as int) == "Breakpoint"@,
        exception_name(Fault::OVERFLOW.spec_vector() as int) == "Overflow"@,
        exception_name(Fault::BOUND_EXCEEDED.spec_vector() as int) == "Bound Range Exceeded"@,
        exception_name(Fault::INVALID_OPCODE.spec_vector() as int) == "Invalid Opcode"@,
        exception_name(Fault::NO_MATH_COPROCESSOR.spec_vector() as int) == "Device Not Available"@,
        exception_name(Fault::DOUBLE_FAULT.spec_vector() as int) == "Double Fault"@,
        exception_name(Fault::COPROCESSOR_SEGMENT_OVERUN.spec_vector() as int) == "Coprocessor Segment Overrun"@,
        exception_name(Fault::INVALID_TSS.spec_vector() as int) == "Invalid TSS"@,
        exception_name(Fault::SEGMENT_NOT_PRESENT.spec_vector() as int) == "Segment Not Present"@,
        exception_name(Fault::STACK_SEGMENT_FAULT.spec_vector() as int) == "Stack-Segment Fault"@,
        exception_name(Fault::GENERAL_PROTECTION.spec_vector() as int) == "General Protection Fault"@,
        exception_name(Fault::PAGE_FAULT.spec_vector() as int) == "Page Fault"@,
        exception_name(Fault::FLOATING_POINT_ERROR.spec_vector() as int) == "x87 Floating-Point Exception"@,
        exception_name(Fault::ALIGNMENT_CHECK.spec_vector() as int) == "Alignment Check"@,
        exception_name(Fault::MACHINE_CHECK.spec_vector() as int) == "Machine Check"@,
        exception_name(Fault::SIMD_FP_EXCEPTION.spec_vector() as int) == "SIMD Floating-Point Exception"@,
{
}

} // verus!
