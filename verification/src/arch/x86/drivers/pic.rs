//! Programmable interrupt controller
use vstd::prelude::*;
use crate::arch::x86::io::{PortWrite, outb, outw, out8, out16};

verus! {

/// The initialisation sequence that maps IRQs 0-7 to vectors 0x20-0x27
/// and IRQs 8-15 to vectors 0x28-0x2F, in the order it is sent.
pub fn remap() -> (ws: Vec<PortWrite>)
    ensures
        ws@ == seq![
            outw(0x20, 0x11), outw(0xA0, 0x11),
            outw(0x21, 0x20), outw(0xA1, 0x28),
            outw(0x21, 4), outw(0xA1, 2),
            outw(0x21, 1), outw(0xA1, 1),
        ],
{
    let mut ws: Vec<PortWrite> = Vec::new();
    ws.push(out16(0x20, 0x11));
    ws.push(out16(0xA0, 0x11));
    ws.push(out16(0x21, 0x20));
    ws.push(out16(0xA1, 0x28));
    ws.push(out16(0x21, 4));
    ws.push(out16(0xA1, 2));
    ws.push(out16(0x21, 1));
    ws.push(out16(0xA1, 1));
    ws
}

/// The data port of the controller that serves `irq`.
pub open spec fn irq_port(irq: u8) -> u16 {
    if irq & 0b1000 == 0 { 0x21 } else { 0xa1 }
}

/// Unmasks `irq`: given the mask `current` read from its controller's data
/// port, the write that clears the IRQ's bit in it.
pub fn enable(irq: u8, current: u8) -> (w: PortWrite)
    ensures
        w == outb(irq_port(irq), current & !(1u8 << (irq & 0b111))),
{
    let port: u16 = if (irq & 0b1000) == 0 { 0x21 } else { 0xa1 };
    assert(irq & 0b111 < 8) by (bit_vector);
    let mask: u8 = !(1u8 << (irq & 0b111));
    out8(port, current & mask)
}

/// Writes the 16-bit IRQ mask: low byte to the first controller, high byte
/// to the second.
pub fn mask(bits: u16) -> (ws: Vec<PortWrite>)
    ensures
        ws@ == seq![outb(0x21, (bits % 0x100) as u8), outb(0xA1, (bits / 0x100) as u8)],
{
    proof {
        assert(bits & 0xFF == bits % 0x100) by (bit_vector);
        assert((bits >> 8) & 0xFF == bits / 0x100) by (bit_vector);
    }
    let mut ws: Vec<PortWrite> = Vec::new();
    ws.push(out8(0x21, (bits & 0xFF) as u8));
    ws.push(out8(0xA1, ((bits >> 8) & 0xFF) as u8));
    ws
}

} // verus!
