use vstd::prelude::*;

use core::marker::PhantomData;

verus! {

/// The interrupts of the clock peripheral, numbered as the interrupt controller numbers them.
#[allow(non_camel_case_types)]
#[derive(Clone, Copy, PartialEq, Eq, Structural)]
pub enum Interrupt {
    POWER_CLOCK,
}

impl Interrupt {
    /// The line number of the interrupt.
    pub fn number(self) -> (r: u16)
        ensures
            self == Interrupt::POWER_CLOCK ==> r == 0,
    {
        match self {
            Interrupt::POWER_CLOCK => 0,
        }
    }
}

/// Register access that allows reading and writing.
#[derive(Clone, Copy, PartialEq, Eq, Structural)]
pub struct RW;

/// Register access that allows reading only.
#[derive(Clone, Copy, PartialEq, Eq, Structural)]
pub struct R;

/// Register access that allows writing only.
#[derive(Clone, Copy, PartialEq, Eq, Structural)]
pub struct W;

/// A register access direction.
pub trait Access: Copy {
}

/// An access direction that allows reading.
pub trait Read: Access {
}

/// An access direction that allows writing.
pub trait Write: Access {
}

impl Access for R {
}

impl Access for W {
}

impl Access for RW {
}

impl Read for R {
}

impl Read for RW {
}

impl Write for W {
}

impl Write for RW {
}

/// A register of value type `T` at a fixed address, with access direction `A`.
pub struct Reg<T: Copy, A: Access> {
    addr: usize,
    phantom: PhantomData<(T, A)>,
}

impl<T: Copy, A: Access> Reg<T, A> {
    pub closed spec fn address(&self) -> usize {
        self.addr
    }

    /// The register at `addr`.
    pub fn from_ptr(addr: usize) -> (r: Self)
        ensures
            r.address() == addr,
    {
        Reg { addr, phantom: PhantomData }
    }

    /// The address of the register.
    pub fn as_ptr(&self) -> (r: usize)
        ensures
            r == self.address(),
    {
        self.addr
    }
}

/// Offset of the interrupt enable register from the clock block's base.
pub const INTENSET_OFFSET: usize = 0x0304;

/// Offset of the interrupt disable register from the clock block's base.
pub const INTENCLR_OFFSET: usize = 0x0308;

/// The clock control block, at a base address.
#[derive(Clone, Copy, PartialEq, Eq, Structural)]
pub struct Clock {
    addr: usize,
}

impl Clock {
    pub closed spec fn address(&self) -> usize {
        self.addr
    }

    /// The block whose registers start at `addr`.
    pub fn from_ptr(addr: usize) -> (r: Self)
        ensures
            r.address() == addr,
    {
        Clock { addr }
    }

    /// The base address of the block.
    pub fn as_ptr(&self) -> (r: usize)
        ensures
            r == self.address(),
    {
        self.addr
    }

    /// The interrupt enable register.
    pub fn intenset(self) -> (r: Reg<Inten, RW>)
        requires
            self.address() + INTENCLR_OFFSET <= usize::MAX,
        ensures
            r.address() == self.address() + INTENSET_OFFSET,
    {
        Reg::from_ptr(self.addr + INTENSET_OFFSET)
    }

    /// The interrupt disable register.
    pub fn intenclr(self) -> (r: Reg<Inten, RW>)
        requires
            self.address() + INTENCLR_OFFSET <= usize::MAX,
        ensures
            r.address() == self.address() + INTENCLR_OFFSET,
    {
        Reg::from_ptr(self.addr + INTENCLR_OFFSET)
    }
}

/// The interrupt enable and disable registers: one bit per event.
#[derive(Clone, Copy, PartialEq, Eq, Structural)]
pub struct Inten(pub u32);

impl Inten {
    /// All interrupts off.
    pub fn new() -> (r: Inten)
        ensures
            r.0 == 0,
    {
        Inten(0)
    }

    /// Bit 0: the interrupt for the event HFCLKSTARTED.
    pub fn hfclkstarted(&self) -> (r: bool)
        ensures
            r == (self.0 & 1 == 1),
    {
        let x: u32 = self.0;
        let val: u32 = (x >> 0usize) & 0x01;
        assert((x >> 0u32) & 1 == x & 1) by (bit_vector);
        assert(x & 1 == 0 || x & 1 == 1) by (bit_vector);
        val != 0
    }

    /// Sets bit 0 to `val`, and leaves the other bits as they are.
    pub fn set_hfclkstarted(&mut self, val: bool)
        ensures
            final(self).hfclkstarted_spec() == val,
            final(self).0 & !1u32 == old(self).0 & !1u32,
    {
        let b: u32 = if val {
            1
        } else {
            0
        };
        let x: u32 = self.0;
        self.0 = (x & !(0x01u32 << 0usize)) | ((b & 0x01) << 0usize);
        assert(b == 1 || b == 0);
        assert(((x & !(1u32 << 0u32)) | ((b & 1) << 0u32)) & 1 == b && ((x & !(1u32 << 0u32)) | ((
        b & 1) << 0u32)) & !1u32 == x & !1u32) by (bit_vector)
            requires
                b == 1 || b == 0,
        ;
    }

    pub open spec fn hfclkstarted_spec(&self) -> bool {
        self.0 & 1 == 1
    }
}

} // verus!
