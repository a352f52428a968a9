//! Register map of the KSZ8851SNL and the register access layer.
//!
//! Every register is 16 bits wide and sits at a fixed byte offset that is
//! congruent to 0 or 2 modulo 4. The named constants and field helpers here
//! are the part of the chip's register table that the driver logic reads or
//! writes; the helpers say bit-exactly how a field lies in its register.
//!
//! [`Ksz8851snlInterface`] is the register access layer: it turns a
//! (direction, address) pair into the 2-byte command header and one bus
//! transaction.
use vstd::prelude::*;

use crate::bus::{Bus, Xfer};
use crate::driver::{reg_cmd, reg_cmd_spec, Error, Opcode};

verus! {

// --- Register addresses -------------------------------------------------
/// Host MAC Address Register Low (bytes 1 and 0 of the address).
pub const MARL: u8 = 0x10;

/// Host MAC Address Register Middle (bytes 3 and 2).
pub const MARM: u8 = 0x12;

/// Host MAC Address Register High (bytes 5 and 4).
pub const MARH: u8 = 0x14;

/// Memory Built-In Self-Test Info Register.
pub const MBIR: u8 = 0x24;

/// Global Reset Register.
pub const GRR: u8 = 0x26;

/// Transmit Control Register.
pub const TXCR: u8 = 0x70;

/// Receive Control Register 1.
pub const RXCR1: u8 = 0x74;

/// Receive Control Register 2.
pub const RXCR2: u8 = 0x76;

/// TXQ Memory Information Register.
pub const TXMIR: u8 = 0x78;

/// Receive Frame Header Status Register.
pub const RXFHSR: u8 = 0x7C;

/// Receive Frame Header Byte Count Register.
pub const RXFHBCR: u8 = 0x7E;

/// TXQ Command Register.
pub const TXQCR: u8 = 0x80;

/// RXQ Command Register.
pub const RXQCR: u8 = 0x82;

/// TX Frame Data Pointer Register.
pub const TXFDPR: u8 = 0x84;

/// RX Frame Data Pointer Register.
pub const RXFDPR: u8 = 0x86;

/// Interrupt Enable Register.
pub const IER: u8 = 0x90;

/// RX Frame Count & Threshold Register.
pub const RXFCTR: u8 = 0x9C;

/// TX Next Total Frames Size Register.
pub const TXNTFSR: u8 = 0x9E;

/// Chip ID and Enable Register.
pub const CIDER: u8 = 0xC0;

/// PHY 1 MII-Register Basic Control Register.
pub const P1MBCR: u8 = 0xE4;

/// PHY 1 MII-Register Basic Status Register.
pub const P1MBSR: u8 = 0xE6;

// --- 16-bit words and their little-endian bytes -------------------------
/// The 16-bit word whose little-endian bytes are `lo`, `hi`.
pub open spec fn word_of(lo: u8, hi: u8) -> u16 {
    (lo as u16) | ((hi as u16) << 8)
}

/// Low byte of a 16-bit word.
pub open spec fn lo_byte(v: u16) -> u8 {
    (v & 0xFF) as u8
}

/// High byte of a 16-bit word.
pub open spec fn hi_byte(v: u16) -> u8 {
    (v >> 8) as u8
}

/// A word assembled from two bytes takes them apart again.
pub proof fn lemma_word_bytes(lo: u8, hi: u8)
    by (bit_vector)
    ensures
        lo_byte(word_of(lo, hi)) == lo,
        hi_byte(word_of(lo, hi)) == hi,
{
}

/// A word is the word of its own two bytes.
pub proof fn lemma_bytes_word(v: u16)
    by (bit_vector)
    ensures
        word_of(lo_byte(v), hi_byte(v)) == v,
{
}

/// Executable twin of `word_of`.
pub fn word_from_bytes(lo: u8, hi: u8) -> (r: u16)
    ensures
        r == word_of(lo, hi),
{
    (lo as u16) | ((hi as u16) << 8)
}

/// Executable twin of `lo_byte`.
pub fn word_lo(v: u16) -> (r: u8)
    ensures
        r == lo_byte(v),
{
    (v & 0xFF) as u8
}

/// Executable twin of `hi_byte`.
pub fn word_hi(v: u16) -> (r: u8)
    ensures
        r == hi_byte(v),
{
    (v >> 8) as u8
}

// --- Register fields the driver reads ----------------------------------
/// CIDER: chip family identifier, bits 15..=8.
pub open spec fn cider_family_id(v: u16) -> u8 {
    hi_byte(v)
}

/// CIDER: chip identifier, bits 7..=4.
pub open spec fn cider_chip_id(v: u16) -> u8 {
    ((v >> 4) & 0xF) as u8
}

/// MBIR: RX memory built-in self-test failed, bit 3.
pub open spec fn mbir_rxmbfa(v: u16) -> bool {
    v & 0x0008 != 0
}

/// MBIR: TX memory built-in self-test failed, bit 11.
pub open spec fn mbir_txmbfa(v: u16) -> bool {
    v & 0x0800 != 0
}

/// TXMIR: TX memory available, bits 12..=0.
pub open spec fn txmir_txma(v: u16) -> u16 {
    v & 0x1FFF
}

/// IER: receive interrupt enable, bit 13.
pub open spec fn ier_rxie(v: u16) -> bool {
    v & 0x2000 != 0
}

/// RXFCTR: count of received frames pending, bits 15..=8.
pub open spec fn rxfctr_rxfc(v: u16) -> u8 {
    hi_byte(v)
}

/// RXFHSR: frame valid, bit 15.
pub open spec fn rxfhsr_rxfv(v: u16) -> bool {
    v & 0x8000 != 0
}

/// RXFHSR: any of the error flags the driver rejects a frame for — CRC
/// error (bit 0), runt frame (bit 1), frame too long (bit 2), MII symbol
/// error (bit 4), or a failed ICMP/IP/TCP/UDP checksum (bits 13..=10).
pub open spec fn rxfhsr_any_error(v: u16) -> bool {
    v & 0x3C17u16 != 0
}

/// RXFHBCR: received frame byte count, bits 11..=0.
pub open spec fn rxfhbcr_rxbc(v: u16) -> u16 {
    v & 0x0FFF
}

/// RXQCR: release error frame, bit 0.
pub open spec fn rxqcr_rrxef(v: u16) -> bool {
    v & 0x0001 != 0
}

/// P1MBSR: link status, bit 2.
pub open spec fn p1mbsr_link_status(v: u16) -> bool {
    v & 0x0004 != 0
}

// --- Transcript shapes of register accesses ----------------------------
/// The transaction a register read performs: the command header out, the
/// register value's two little-endian bytes in.
pub open spec fn read_xfer(addr: u8, v: u16) -> Xfer {
    Xfer { sent: reg_cmd_spec(Opcode::RegRead, addr), rcvd: seq![lo_byte(v), hi_byte(v)] }
}

/// The transaction a register write performs: the command header followed
/// by the value's two little-endian bytes out, nothing in.
pub open spec fn write_xfer(addr: u8, v: u16) -> Xfer {
    Xfer {
        sent: reg_cmd_spec(Opcode::RegWrite, addr) + seq![lo_byte(v), hi_byte(v)],
        rcvd: Seq::<u8>::empty(),
    }
}

/// `post` is `pre` with exactly `n` transactions appended.
pub open spec fn extends(pre: Seq<Xfer>, post: Seq<Xfer>, n: int) -> bool {
    post.len() == pre.len() + n && post.take(pre.len() as int) == pre
}

/// The `i`-th transaction appended after `pre`.
pub open spec fn entry(pre: Seq<Xfer>, post: Seq<Xfer>, i: int) -> Xfer {
    post[pre.len() + i]
}

/// The transaction reads register `addr`; its value is `xfer_word` of it.
pub open spec fn is_reg_read(x: Xfer, addr: u8) -> bool {
    x.sent == reg_cmd_spec(Opcode::RegRead, addr) && x.rcvd.len() == 2
}

/// The register value a read transaction returned.
pub open spec fn xfer_word(x: Xfer) -> u16 {
    word_of(x.rcvd[0], x.rcvd[1])
}

/// A read transaction of register `addr` that returned value `v` is a read
/// of `addr`, and its recorded value is `v`.
pub proof fn lemma_read_xfer_word(addr: u8, v: u16)
    ensures
        is_reg_read(read_xfer(addr, v), addr),
        xfer_word(read_xfer(addr, v)) == v,
{
    lemma_bytes_word(v);
}

/// Appending nothing extends a transcript by zero.
pub proof fn lemma_extends_refl(pre: Seq<Xfer>)
    ensures
        extends(pre, pre, 0),
{
    assert(pre.take(pre.len() as int) =~= pre);
}

/// Appending one transaction extends the extension by one and leaves the
/// earlier appended entries in place.
pub proof fn lemma_extends_push(pre: Seq<Xfer>, post: Seq<Xfer>, n: int, x: Xfer)
    requires
        extends(pre, post, n),
        n >= 0,
    ensures
        extends(pre, post.push(x), n + 1),
        entry(pre, post.push(x), n) == x,
        forall|i: int| 0 <= i < n ==> entry(pre, post.push(x), i) == entry(pre, post, i),
{
    assert(post.push(x).take(pre.len() as int) =~= post.take(pre.len() as int));
}

// --- The register access layer ------------------------------------------
/// Adapts the raw serial transport to per-register transactions.
pub struct Ksz8851snlInterface<BUS> {
    /// The serial transport the chip sits behind.
    pub bus: BUS,
}

impl<BUS: Bus> Ksz8851snlInterface<BUS> {
    /// Read the 16-bit register at `address`: one transaction of the
    /// register-read command header followed by a 2-byte read.
    pub fn read_register(&mut self, address: u8) -> (r: Result<u16, Error>)
        requires
            address % 4 == 0 || address % 4 == 2,
        ensures
            match r {
                Result::Ok(v) => final(self).bus.log() == old(self).bus.log().push(
                    read_xfer(address, v),
                ),
                Result::Err(e) => final(self).bus.log() == old(self).bus.log() && (e matches
                Error::SpiError(_)),
            },
    {
        let cmd = reg_cmd(Opcode::RegRead, address, 2);
        let mut out: Vec<u8> = Vec::new();
        out.push(cmd[0]);
        out.push(cmd[1]);
        proof {
            assert(out@ =~= reg_cmd_spec(Opcode::RegRead, address));
        }
        match self.bus.transfer(&out, 2) {
            Result::Ok(data) => {
                let v = word_from_bytes(data[0], data[1]);
                proof {
                    lemma_word_bytes(data@[0], data@[1]);
                    assert(data@ =~= seq![lo_byte(v), hi_byte(v)]);
                }
                Result::Ok(v)
            },
            Result::Err(e) => Result::Err(Error::SpiError(e)),
        }
    }

    /// Write the 16-bit register at `address`: one transaction of the
    /// register-write command header followed by the value's two
    /// little-endian bytes.
    pub fn write_register(&mut self, address: u8, value: u16) -> (r: Result<(), Error>)
        requires
            address % 4 == 0 || address % 4 == 2,
        ensures
            match r {
                Result::Ok(()) => final(self).bus.log() == old(self).bus.log().push(
                    write_xfer(address, value),
                ),
                Result::Err(e) => final(self).bus.log() == old(self).bus.log() && (e matches
                Error::SpiError(_)),
            },
    {
        let cmd = reg_cmd(Opcode::RegWrite, address, 2);
        let mut out: Vec<u8> = Vec::new();
        out.push(cmd[0]);
        out.push(cmd[1]);
        out.push(word_lo(value));
        out.push(word_hi(value));
        proof {
            assert(out@ =~= reg_cmd_spec(Opcode::RegWrite, address) + seq![
                lo_byte(value),
                hi_byte(value),
            ]);
        }
        match self.bus.transfer(&out, 0) {
            Result::Ok(data) => {
                proof {
                    assert(data@ =~= Seq::<u8>::empty());
                }
                Result::Ok(())
            },
            Result::Err(e) => Result::Err(Error::SpiError(e)),
        }
    }
}

} // verus!
