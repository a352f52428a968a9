//! The driver: command-header encoding, initialization, configuration
//! accessors, and the transmit and receive engines.
//!
//! Every method is specified over the ghost transcript of the bus: its
//! contract says exactly which transactions it issues, how the values it
//! returns derive from the bytes the chip sent back, and on which outcomes
//! each error is returned.
use vstd::prelude::*;

use crate::bus::{Bus, Delay, Xfer};
use crate::device::{
    entry, extends, hi_byte, ier_rxie, is_reg_read, lemma_extends_push, lemma_extends_refl,
    lemma_read_xfer_word, lo_byte, mbir_rxmbfa, mbir_txmbfa, p1mbsr_link_status, read_xfer,
    rxfctr_rxfc, rxfhsr_any_error, rxfhsr_rxfv, txmir_txma, word_from_bytes, word_hi, word_lo,
    word_of, write_xfer, xfer_word,
    Ksz8851snlInterface, CIDER, GRR, IER, MARH, MARL, MARM, MBIR, P1MBCR, P1MBSR, RXCR1, RXCR2,
    RXFCTR, RXFDPR, RXFHBCR, RXFHSR, RXQCR, TXCR, TXFDPR, TXMIR, TXNTFSR, TXQCR,
};

verus! {

/// Serial opcode selecting the kind of bus access. The top two bits of the
/// first byte of every transaction carry it.
pub enum Opcode {
    /// Discrete register read.
    RegRead,
    /// Discrete register write.
    RegWrite,
    /// Streaming read of the RX queue.
    RXRead,
    /// Streaming write of the TX queue.
    TXWrite,
}

/// The two-bit wire encoding of an opcode.
pub open spec fn opcode_bits(o: Opcode) -> u8 {
    match o {
        Opcode::RegRead => 0b00,
        Opcode::RegWrite => 0b01,
        Opcode::RXRead => 0b10,
        Opcode::TXWrite => 0b11,
    }
}

/// Executable twin of `opcode_bits`.
pub fn opcode_val(o: Opcode) -> (r: u8)
    ensures
        r == opcode_bits(o),
{
    match o {
        Opcode::RegRead => 0b00,
        Opcode::RegWrite => 0b01,
        Opcode::RXRead => 0b10,
        Opcode::TXWrite => 0b11,
    }
}

/// The byte-enable mask a register access carries, fully determined by the
/// address alignment: `0011` selects the low half of the 4-byte window for
/// an address congruent to 0 modulo 4, `1100` the high half for one
/// congruent to 2. No other alignment is accepted.
pub open spec fn byte_enable_spec(addr: u8) -> u8 {
    if addr % 4 == 0 {
        0b0011
    } else {
        0b1100
    }
}

/// The 2-byte command header of a register access: opcode in the top two
/// bits, then the 4-bit byte-enable mask, then the address's upper and lower
/// halves spread across both bytes.
pub open spec fn reg_cmd_spec(o: Opcode, addr: u8) -> Seq<u8> {
    seq![
        (opcode_bits(o) << 6) | (byte_enable_spec(addr) << 2) | (addr >> 6),
        (addr & 0b00111100) << 2,
    ]
}

/// Build the 2-byte command header for a register access.
///
/// The device only supports accessing 4-aligned addresses, with selectable
/// bytes being read or written ("byte enables"). Only 2-byte accesses at an
/// address congruent to 0 or 2 modulo 4 are supported; anything else is a
/// configuration error at build time, excluded by precondition.
pub fn reg_cmd(o: Opcode, addr: u8, count: u8) -> (r: [u8; 2])
    requires
        count == 2,
        addr % 4 == 0 || addr % 4 == 2,
    ensures
        r@ == reg_cmd_spec(o, addr),
{
    let byte_enable: u8 = match (addr % 4, count) {
        (0, 2) => 0b0011,
        (_, _) => 0b1100,
    };
    let r = [(opcode_val(o) << 6) | (byte_enable << 2) | (addr >> 6), (addr & 0b00111100) << 2];
    proof {
        assert(r@ =~= reg_cmd_spec(o, addr));
    }
    r
}

/// Everything that can go wrong between the host and the chip.
#[derive(Copy, Clone, PartialEq, Eq, Debug)]
pub enum Error {
    /// The serial transport failed; carries the transport's own error
    /// classification unchanged.
    SpiError(embedded_hal::spi::ErrorKind),
    /// The identity register read after reset does not name the expected
    /// chip. Fatal to initialization.
    BadChipId { expected_family: u8, actual_family: u8, expected_chip: u8, actual_chip: u8 },
    /// The chip's built-in memory self-test reports a failure on the named
    /// side(s). Fatal to initialization.
    FailedBuiltInSelfTest { rx_bist_failed: bool, tx_bist_failed: bool },
    /// The caller asked to transmit a payload beyond the chip's capacity.
    /// Returned before any bus access.
    TxPacketTooBig { size: usize, max: u16 },
    /// The pending receive frame failed a chip-side integrity check, or its
    /// header was inconsistent between the register read and the streamed
    /// copy. Recoverable: retry `rx`.
    RxFrameInvalid,
    /// `rx` was called with no complete frame pending. Recoverable: retry
    /// later.
    RxNoFrameAvailable,
    /// `rx` was called while the receive interrupt was still enabled; the
    /// caller must disable it first.
    RxInterruptEnabled,
}

/// Chip family identifier the identity register must report.
pub const CHIP_ID_FAMILY: u8 = 0x88;

/// Chip identifier the identity register must report.
pub const CHIP_ID_CHIP: u8 = 0x7;

/// Largest payload the chip can transmit, in bytes.
pub const MAX_TX_LEN: u16 = 2000;

/// Cap on the polls of the release-error-frame bit while discarding a bad
/// frame. The chip guarantees the release terminates, and quickly; the cap
/// only bounds the spin so that its termination can be stated. If it is
/// ever exhausted the frame is still reported invalid and the release may
/// complete on the chip's side afterwards.
pub const RELEASE_POLL_LIMIT: usize = 10000;

/// PHY basic control register with its disable-LED bit (bit 0) driven to
/// the opposite of `on`.
pub open spec fn p1mbcr_leds(v: u16, on: bool) -> u16 {
    if on {
        v & !1u16
    } else {
        v | 1u16
    }
}

/// `set_leds` on success: one read of the PHY basic control register, then
/// a write-back of the same value with only the disable-LED bit changed.
pub open spec fn set_leds_ok(pre: Seq<Xfer>, post: Seq<Xfer>, on: bool) -> bool {
    &&& extends(pre, post, 2)
    &&& is_reg_read(entry(pre, post, 0), P1MBCR)
    &&& entry(pre, post, 1) == write_xfer(P1MBCR, p1mbcr_leds(xfer_word(entry(pre, post, 0)), on))
}

/// The three register writes `set_mac` issues: the six address bytes packed
/// big-end first, two per register, high half of each register first.
pub open spec fn set_mac_xfers(mac: Seq<u8>) -> Seq<Xfer> {
    seq![
        write_xfer(MARH, word_of(mac[1], mac[0])),
        write_xfer(MARM, word_of(mac[3], mac[2])),
        write_xfer(MARL, word_of(mac[5], mac[4])),
    ]
}

/// The six MAC address bytes as `get_mac` unpacks them from the three MAC
/// address registers.
pub open spec fn mac_of(h: u16, m: u16, l: u16) -> Seq<u8> {
    seq![hi_byte(h), lo_byte(h), hi_byte(m), lo_byte(m), hi_byte(l), lo_byte(l)]
}

/// `get_mac` on success: reads of the high, middle and low MAC address
/// registers, the result unpacked from the three values read.
pub open spec fn get_mac_ok(pre: Seq<Xfer>, post: Seq<Xfer>, mac: Seq<u8>) -> bool {
    &&& extends(pre, post, 3)
    &&& is_reg_read(entry(pre, post, 0), MARH)
    &&& is_reg_read(entry(pre, post, 1), MARM)
    &&& is_reg_read(entry(pre, post, 2), MARL)
    &&& mac == mac_of(
        xfer_word(entry(pre, post, 0)),
        xfer_word(entry(pre, post, 1)),
        xfer_word(entry(pre, post, 2)),
    )
}

/// `get_mac` on a transport error: the reads issued so far, in order.
pub open spec fn get_mac_err(pre: Seq<Xfer>, post: Seq<Xfer>) -> bool {
    ||| post == pre
    ||| (extends(pre, post, 1) && is_reg_read(entry(pre, post, 0), MARH))
    ||| (extends(pre, post, 2) && is_reg_read(entry(pre, post, 0), MARH) && is_reg_read(
        entry(pre, post, 1),
        MARM,
    ))
}

/// `ready_tx` on success. One read of the TX memory register decides: if
/// the payload plus its 4-byte overhead fits the available space the
/// answer is true and nothing else is issued; otherwise the requested
/// total is written to the notify-threshold register, the memory-available
/// monitor is armed, and the answer is false.
pub open spec fn ready_tx_ok(pre: Seq<Xfer>, post: Seq<Xfer>, tx_len: int, fits: bool) -> bool {
    &&& is_reg_read(entry(pre, post, 0), TXMIR)
    &&& fits == (tx_len + 4 <= txmir_txma(xfer_word(entry(pre, post, 0))))
    &&& if fits {
        extends(pre, post, 1)
    } else {
        &&& extends(pre, post, 3)
        &&& entry(pre, post, 1) == write_xfer(TXNTFSR, (tx_len + 4) as u16)
        &&& entry(pre, post, 2) == write_xfer(TXQCR, 0x0002)
    }
}

/// `ready_tx` on an error: an oversized payload is rejected before any bus
/// access; a transport error leaves the transactions issued so far.
pub open spec fn ready_tx_err(pre: Seq<Xfer>, post: Seq<Xfer>, tx_len: int, e: Error) -> bool {
    if e matches Error::TxPacketTooBig { .. } {
        post == pre
    } else {
        ||| post == pre
        ||| (extends(pre, post, 1) && is_reg_read(entry(pre, post, 0), TXMIR))
        ||| (extends(pre, post, 2) && is_reg_read(entry(pre, post, 0), TXMIR) && entry(pre, post, 1)
            == write_xfer(TXNTFSR, (tx_len + 4) as u16))
    }
}

/// The identity register names the expected chip family and chip.
pub open spec fn cider_ok(v: u16) -> bool {
    crate::device::cider_chip_id(v) == CHIP_ID_CHIP && crate::device::cider_family_id(v)
        == CHIP_ID_FAMILY
}

/// Neither side of the built-in memory self-test reports a failure.
pub open spec fn mbir_ok(v: u16) -> bool {
    !mbir_rxmbfa(v) && !mbir_txmbfa(v)
}

/// TX frame data pointer with auto-increment enabled (bit 14).
pub open spec fn txfdpr_cfg(v: u16) -> u16 {
    v | 0x4000
}

/// TX control: checksum generation for ICMP (bit 8), TCP (bit 6) and IP
/// (bit 5) disabled, flow control (bit 3) disabled, padding (bit 2) and CRC
/// generation (bit 1) enabled.
pub open spec fn txcr_cfg(v: u16) -> u16 {
    (v & !0x0168u16) | 0x0006
}

/// RX frame data pointer with auto-increment enabled (bit 14).
pub open spec fn rxfdpr_cfg(v: u16) -> u16 {
    v | 0x4000
}

/// RX frame-count interrupt threshold (bits 7..=0) set to one frame.
pub open spec fn rxfctr_cfg(v: u16) -> u16 {
    (v & 0xFF00) | 0x0001
}

/// RXQ command: frame-count-threshold interrupts (bit 5), the 2-byte IP
/// header alignment offset (bit 9), and auto-dequeue (bit 4) enabled.
pub open spec fn rxqcr_cfg(v: u16) -> u16 {
    v | 0x0230
}

/// RX control 1: checksum verification for UDP (bit 14), TCP (bit 13) and
/// IP (bit 12) disabled; flow control (bit 10), broadcast (bit 7, needed
/// for ARP) and unicast (bit 5) reception enabled.
pub open spec fn rxcr1_cfg(v: u16) -> u16 {
    (v & !0x7000u16) | 0x04A0
}

/// RX control 2: streaming burst length (bits 7..=5) set to single-frame;
/// fragment pass (bit 4), zero-checksum pass (bit 3), UDP-lite (bit 2) and
/// ICMP checksum handling (bit 1) enabled.
pub open spec fn rxcr2_cfg(v: u16) -> u16 {
    (v & !0x00E0u16) | 0x009E
}

/// Interrupt enables: link change (bit 15), TX done (bit 14), RX done (bit
/// 13), RX overrun (bit 11), TX space available (bit 6), bus error (bit 1).
pub open spec fn ier_cfg(v: u16) -> u16 {
    v | 0xE842
}

/// TXQ command with auto-enqueue (bit 2) disabled: frames are enqueued
/// manually, one at a time, because of a known silicon defect in the
/// auto-enqueue path.
pub open spec fn txqcr_cfg(v: u16) -> u16 {
    v & !0x0004u16
}

/// The first `k` transactions of initialization, in their required order:
/// pulse and clear the global soft reset, verify the chip identity, check
/// the self-test result, configure the TX path, configure the RX path,
/// choose interrupt sources, select manual enqueue, then enable TX and
/// finally RX processing.
///
/// Identity and self-test are gates: entries past the identity read exist
/// only if it matched, entries past the self-test read only if it passed.
pub open spec fn init_entries(pre: Seq<Xfer>, post: Seq<Xfer>, k: int) -> bool {
    &&& extends(pre, post, k)
    &&& 0 <= k <= 26
    &&& (k > 0 ==> entry(pre, post, 0) == write_xfer(GRR, 0x0001))
    &&& (k > 1 ==> entry(pre, post, 1) == write_xfer(GRR, 0x0000))
    &&& (k > 2 ==> is_reg_read(entry(pre, post, 2), CIDER))
    &&& (k > 3 ==> cider_ok(xfer_word(entry(pre, post, 2))))
    &&& (k > 3 ==> is_reg_read(entry(pre, post, 3), MBIR))
    &&& (k > 4 ==> mbir_ok(xfer_word(entry(pre, post, 3))))
    &&& (k > 4 ==> is_reg_read(entry(pre, post, 4), TXFDPR))
    &&& (k > 5 ==> entry(pre, post, 5) == write_xfer(
        TXFDPR,
        txfdpr_cfg(xfer_word(entry(pre, post, 4))),
    ))
    &&& (k > 6 ==> is_reg_read(entry(pre, post, 6), TXCR))
    &&& (k > 7 ==> entry(pre, post, 7) == write_xfer(TXCR, txcr_cfg(xfer_word(entry(pre, post, 6)))))
    &&& (k > 8 ==> is_reg_read(entry(pre, post, 8), RXFDPR))
    &&& (k > 9 ==> entry(pre, post, 9) == write_xfer(
        RXFDPR,
        rxfdpr_cfg(xfer_word(entry(pre, post, 8))),
    ))
    &&& (k > 10 ==> is_reg_read(entry(pre, post, 10), RXFCTR))
    &&& (k > 11 ==> entry(pre, post, 11) == write_xfer(
        RXFCTR,
        rxfctr_cfg(xfer_word(entry(pre, post, 10))),
    ))
    &&& (k > 12 ==> is_reg_read(entry(pre, post, 12), RXQCR))
    &&& (k > 13 ==> entry(pre, post, 13) == write_xfer(
        RXQCR,
        rxqcr_cfg(xfer_word(entry(pre, post, 12))),
    ))
    &&& (k > 14 ==> is_reg_read(entry(pre, post, 14), RXCR1))
    &&& (k > 15 ==> entry(pre, post, 15) == write_xfer(
        RXCR1,
        rxcr1_cfg(xfer_word(entry(pre, post, 14))),
    ))
    &&& (k > 16 ==> is_reg_read(entry(pre, post, 16), RXCR2))
    &&& (k > 17 ==> entry(pre, post, 17) == write_xfer(
        RXCR2,
        rxcr2_cfg(xfer_word(entry(pre, post, 16))),
    ))
    &&& (k > 18 ==> is_reg_read(entry(pre, post, 18), IER))
    &&& (k > 19 ==> entry(pre, post, 19) == write_xfer(
        IER,
        ier_cfg(xfer_word(entry(pre, post, 18))),
    ))
    &&& (k > 20 ==> is_reg_read(entry(pre, post, 20), TXQCR))
    &&& (k > 21 ==> entry(pre, post, 21) == write_xfer(
        TXQCR,
        txqcr_cfg(xfer_word(entry(pre, post, 20))),
    ))
    &&& (k > 22 ==> is_reg_read(entry(pre, post, 22), TXCR))
    &&& (k > 23 ==> entry(pre, post, 23) == write_xfer(
        TXCR,
        xfer_word(entry(pre, post, 22)) | 0x0001,
    ))
    &&& (k > 24 ==> is_reg_read(entry(pre, post, 24), RXCR1))
    &&& (k > 25 ==> entry(pre, post, 25) == write_xfer(
        RXCR1,
        xfer_word(entry(pre, post, 24)) | 0x0001,
    ))
}

/// The settle pauses initialization has taken after `k` transactions: one
/// 10 ms pause after the reset pulse, another after the reset is cleared.
pub open spec fn init_delays(k: int) -> Seq<u32> {
    if k <= 0 {
        Seq::<u32>::empty()
    } else if k == 1 {
        seq![10u32]
    } else {
        seq![10u32, 10u32]
    }
}

/// Zero padding that brings a stream of `n` bytes up to 4-byte alignment.
pub open spec fn pad_len(n: int) -> int {
    (4 - n % 4) % 4
}

/// A run of `n` zero bytes.
pub open spec fn zero_seq(n: int) -> Seq<u8> {
    Seq::new(n as nat, |i: int| 0u8)
}

/// The TX control word: interrupt-on-completion in bit 15, the 6-bit frame
/// identifier in the low bits.
pub open spec fn tx_ctrl_word(fid: u8) -> u16 {
    0x8000u16 | (fid as u16)
}

/// A frame identifier below 32 lands whole in the control word's low byte;
/// the high byte carries only the interrupt-on-completion flag.
pub proof fn lemma_tx_ctrl_bytes(fid: u8)
    by (bit_vector)
    requires
        fid < 32,
    ensures
        lo_byte(tx_ctrl_word(fid)) == fid,
        hi_byte(tx_ctrl_word(fid)) == 0x80,
        tx_ctrl_word(fid) & 0x3F == fid,
{
}

/// The streaming transaction `tx` emits for a payload: the stream opcode
/// byte, the 2-byte control word, the payload length in little-endian, the
/// payload, and zero padding to 4-byte alignment.
pub open spec fn tx_stream_spec(payload: Seq<u8>, fid: u8) -> Seq<u8> {
    seq![
        0xC0u8,
        lo_byte(tx_ctrl_word(fid)),
        hi_byte(tx_ctrl_word(fid)),
        lo_byte(payload.len() as u16),
        hi_byte(payload.len() as u16),
    ] + payload + zero_seq(pad_len(payload.len() as int))
}

/// The frame-identifier counter after a successful transmit: advanced by
/// one, wrapping from 31 back to 0.
pub open spec fn next_fid(fid: u8) -> u8 {
    if fid == 0x1f {
        0u8
    } else {
        (fid + 1) as u8
    }
}

/// The first `k` transactions of a transmit: save the interrupt mask and
/// clear it (critical-section entry), open streaming access, emit the
/// framed payload, close streaming access, arm the manual-enqueue bit,
/// restore the saved interrupt mask (critical-section exit).
pub open spec fn tx_entries(
    pre: Seq<Xfer>,
    post: Seq<Xfer>,
    payload: Seq<u8>,
    fid: u8,
    k: int,
) -> bool {
    &&& extends(pre, post, k)
    &&& 0 <= k <= 10
    &&& (k > 0 ==> is_reg_read(entry(pre, post, 0), IER))
    &&& (k > 1 ==> entry(pre, post, 1) == write_xfer(IER, 0))
    &&& (k > 2 ==> is_reg_read(entry(pre, post, 2), RXQCR))
    &&& (k > 3 ==> entry(pre, post, 3) == write_xfer(
        RXQCR,
        xfer_word(entry(pre, post, 2)) | 0x0008,
    ))
    &&& (k > 4 ==> entry(pre, post, 4) == (Xfer {
        sent: tx_stream_spec(payload, fid),
        rcvd: Seq::<u8>::empty(),
    }))
    &&& (k > 5 ==> is_reg_read(entry(pre, post, 5), RXQCR))
    &&& (k > 6 ==> entry(pre, post, 6) == write_xfer(
        RXQCR,
        xfer_word(entry(pre, post, 5)) & !0x0008u16,
    ))
    &&& (k > 7 ==> is_reg_read(entry(pre, post, 7), TXQCR))
    &&& (k > 8 ==> entry(pre, post, 8) == write_xfer(
        TXQCR,
        xfer_word(entry(pre, post, 7)) | 0x0001,
    ))
    &&& (k > 9 ==> entry(pre, post, 9) == write_xfer(IER, xfer_word(entry(pre, post, 0))))
}

/// The byte count of the pending frame, as a frame-header byte-count read
/// reports it.
pub open spec fn rx_bc(x: Xfer) -> u16 {
    crate::device::rxfhbcr_rxbc(xfer_word(x))
}

/// The streaming transaction `rx` issues for a frame of byte count `bc`:
/// the stream opcode byte out; in come 4 dummy bytes, the 2-byte status
/// word, the 2-byte byte-count word, 2 bytes of IP alignment offset, the
/// payload (`bc` less the 4-byte prefix and the 2-byte offset), the 4-byte
/// CRC trailer, and discard bytes up to 4-byte alignment.
pub open spec fn is_rx_stream(x: Xfer, bc: int) -> bool {
    x.sent == seq![0x80u8] && x.rcvd.len() == bc + 8 + pad_len(bc)
}

/// The status word embedded in the received stream.
pub open spec fn rx_stream_status(x: Xfer) -> u16 {
    word_of(x.rcvd[4], x.rcvd[5])
}

/// The byte count embedded in the received stream.
pub open spec fn rx_stream_bc(x: Xfer) -> u16 {
    crate::device::rxfhbcr_rxbc(word_of(x.rcvd[6], x.rcvd[7]))
}

/// The header embedded in the stream agrees with the header read through
/// register access before the stream began.
pub open spec fn rx_consistent(x: Xfer, status: u16, bc: u16) -> bool {
    rx_stream_status(x) == status && rx_stream_bc(x) == bc
}

/// The payload carried by a received stream of byte count `bc`.
pub open spec fn rx_payload(x: Xfer, bc: int) -> Seq<u8> {
    x.rcvd.subrange(10, 10 + bc - 6)
}

/// The first `k` of the four transactions every receive attempt begins
/// with: save the interrupt mask (the receive interrupt must already be
/// off), clear it, then read the frame header's status and byte count.
pub open spec fn rx_head(pre: Seq<Xfer>, post: Seq<Xfer>, k: int) -> bool {
    &&& (k > 0 ==> is_reg_read(entry(pre, post, 0), IER))
    &&& (k > 1 ==> !ier_rxie(xfer_word(entry(pre, post, 0))) && entry(pre, post, 1) == write_xfer(
        IER,
        0,
    ))
    &&& (k > 2 ==> is_reg_read(entry(pre, post, 2), RXFHSR))
    &&& (k > 3 ==> is_reg_read(entry(pre, post, 3), RXFHBCR))
}

/// The first `k` transactions of a receive that found a valid frame: the
/// head reads, then — only for a frame that is valid, error-free and of a
/// plausible byte count — reset the frame pointer, open streaming access,
/// stream the frame in, close streaming access, restore the interrupt
/// mask. Entries past the stream exist only if the streamed header agreed
/// with the one read beforehand.
pub open spec fn rx_entries(pre: Seq<Xfer>, post: Seq<Xfer>, k: int) -> bool {
    &&& extends(pre, post, k)
    &&& 0 <= k <= 12
    &&& rx_head(
        pre,
        post,
        if k < 4 {
            k
        } else {
            4
        },
    )
    &&& (k > 4 ==> {
        &&& rxfhsr_rxfv(xfer_word(entry(pre, post, 2)))
        &&& !rxfhsr_any_error(xfer_word(entry(pre, post, 2)))
        &&& rx_bc(entry(pre, post, 3)) >= 6
        &&& is_reg_read(entry(pre, post, 4), RXFDPR)
    })
    &&& (k > 5 ==> entry(pre, post, 5) == write_xfer(
        RXFDPR,
        xfer_word(entry(pre, post, 4)) & !0x07FFu16,
    ))
    &&& (k > 6 ==> is_reg_read(entry(pre, post, 6), RXQCR))
    &&& (k > 7 ==> entry(pre, post, 7) == write_xfer(
        RXQCR,
        xfer_word(entry(pre, post, 6)) | 0x0008,
    ))
    &&& (k > 8 ==> is_rx_stream(entry(pre, post, 8), rx_bc(entry(pre, post, 3)) as int))
    &&& (k > 9 ==> {
        &&& rx_consistent(
            entry(pre, post, 8),
            xfer_word(entry(pre, post, 2)),
            rx_bc(entry(pre, post, 3)),
        )
        &&& is_reg_read(entry(pre, post, 9), RXQCR)
    })
    &&& (k > 10 ==> entry(pre, post, 10) == write_xfer(
        RXQCR,
        xfer_word(entry(pre, post, 9)) & !0x0008u16,
    ))
    &&& (k > 11 ==> entry(pre, post, 11) == write_xfer(IER, xfer_word(entry(pre, post, 0))))
}

/// The `n` transactions of a receive that found an error-flagged frame and
/// discards it: the head reads, a read-modify-write of the RXQ command
/// register setting release-error-frame, then polls of that register until
/// the chip clears the bit. With `done`, the last poll saw it clear;
/// without, every poll so far saw it pending — a transport error cut the
/// wait short, or the spin cap ran out.
pub open spec fn rx_discard_entries(pre: Seq<Xfer>, post: Seq<Xfer>, n: int, done: bool) -> bool {
    &&& extends(pre, post, n)
    &&& n >= 4
    &&& rx_head(pre, post, 4)
    &&& rxfhsr_rxfv(xfer_word(entry(pre, post, 2)))
    &&& rxfhsr_any_error(xfer_word(entry(pre, post, 2)))
    &&& (n > 4 ==> is_reg_read(entry(pre, post, 4), RXQCR))
    &&& (n > 5 ==> entry(pre, post, 5) == write_xfer(
        RXQCR,
        xfer_word(entry(pre, post, 4)) | 0x0001,
    ))
    &&& (forall|i: int| 6 <= i < n ==> is_reg_read(#[trigger] entry(pre, post, i), RXQCR))
    &&& (forall|i: int|
        6 <= i < n - 1 ==> crate::device::rxqcr_rrxef(xfer_word(#[trigger] entry(pre, post, i))))
    &&& (done ==> n >= 7 && !crate::device::rxqcr_rrxef(xfer_word(entry(pre, post, n - 1))))
    &&& (!done && n > 6 ==> crate::device::rxqcr_rrxef(xfer_word(entry(pre, post, n - 1))))
}

/// The KSZ8851SNL driver: the register interface over the serial bus, the
/// timing source, and the next frame-identifier to stamp on an outgoing
/// frame.
pub struct Chip<SPI: Bus, D: Delay> {
    delay: D,
    /// The register access layer over the serial transport.
    pub dev: Ksz8851snlInterface<SPI>,
    next_frame_id: u8,
}

impl<SPI: Bus, D: Delay> Chip<SPI, D> {
    /// The ghost transcript of every bus transaction issued so far.
    pub closed spec fn bus_log(&self) -> Seq<Xfer> {
        self.dev.bus.log()
    }

    /// The frame identifier the next transmitted frame will carry.
    pub closed spec fn frame_id(&self) -> u8 {
        self.next_frame_id
    }

    /// The ghost transcript of the pauses taken, in milliseconds.
    pub closed spec fn slept(&self) -> Seq<u32> {
        self.delay.slept()
    }

    /// The frame-identifier counter stays inside its 6-bit field, below 32.
    pub open spec fn wf(&self) -> bool {
        self.frame_id() < 32
    }

    /// Create a new driver from the given SPI device `dev`.
    pub fn new(dev: SPI, delay: D) -> (r: Self)
        ensures
            r.wf(),
            r.frame_id() == 0,
            r.bus_log() == dev.log(),
            r.slept() == delay.slept(),
    {
        Chip { delay, dev: Ksz8851snlInterface { bus: dev }, next_frame_id: 0 }
    }

    /// Is the link status good (i.e. up)?
    ///
    /// One read of the PHY basic status register; the answer is its
    /// link-status bit.
    pub fn link_good(&mut self) -> (r: Result<bool, Error>)
        ensures
            final(self).frame_id() == old(self).frame_id(),
            final(self).slept() == old(self).slept(),
            match r {
                Result::Ok(up) => extends(old(self).bus_log(), final(self).bus_log(), 1)
                    && is_reg_read(entry(old(self).bus_log(), final(self).bus_log(), 0), P1MBSR)
                    && up == p1mbsr_link_status(
                    xfer_word(entry(old(self).bus_log(), final(self).bus_log(), 0)),
                ),
                Result::Err(e) => (e matches Error::SpiError(_)) && final(self).bus_log() == old(
                    self,
                ).bus_log(),
            },
    {
        let ghost pre = self.bus_log();
        let v = match self.dev.read_register(P1MBSR) {
            Result::Ok(v) => v,
            Result::Err(e) => {
                return Result::Err(e);
            },
        };
        proof {
            lemma_extends_refl(pre);
            lemma_extends_push(pre, pre, 0, read_xfer(P1MBSR, v));
            lemma_read_xfer_word(P1MBSR, v);
        }
        Result::Ok(v & 0x0004 != 0)
    }

    /// Initialize the chip.
    ///
    /// This:
    /// - Resets the chip
    /// - Checks that it is what we think it is
    /// - Checks selftest registers
    /// - Configures RX and TX functions
    /// - Enables RX and TX
    ///
    /// The sequence is fixed and fatal on any deviation: an identity
    /// mismatch or a failed self-test is a definitive startup error carrying
    /// what was found, a transport error propagates at once, and no partial
    /// success is retried — the caller must restart from the beginning.
    pub fn init(&mut self) -> (r: Result<(), Error>)
        ensures
            final(self).frame_id() == old(self).frame_id(),
            match r {
                Result::Ok(()) => init_entries(old(self).bus_log(), final(self).bus_log(), 26)
                    && final(self).slept() == old(self).slept() + seq![10u32, 10u32],
                Result::Err(e) => exists|k: int|
                    #[trigger] init_entries(old(self).bus_log(), final(self).bus_log(), k) && k < 26
                        && final(self).slept() == old(self).slept() + init_delays(k) && match e {
                        Error::SpiError(_) => true,
                        Error::BadChipId {
                            expected_family,
                            actual_family,
                            expected_chip,
                            actual_chip,
                        } => {
                            &&& k == 3
                            &&& !cider_ok(
                                xfer_word(entry(old(self).bus_log(), final(self).bus_log(), 2)),
                            )
                            &&& expected_family == CHIP_ID_FAMILY
                            &&& expected_chip == CHIP_ID_CHIP
                            &&& actual_family == crate::device::cider_family_id(
                                xfer_word(entry(old(self).bus_log(), final(self).bus_log(), 2)),
                            )
                            &&& actual_chip == crate::device::cider_chip_id(
                                xfer_word(entry(old(self).bus_log(), final(self).bus_log(), 2)),
                            )
                        },
                        Error::FailedBuiltInSelfTest { rx_bist_failed, tx_bist_failed } => {
                            &&& k == 4
                            &&& !mbir_ok(
                                xfer_word(entry(old(self).bus_log(), final(self).bus_log(), 3)),
                            )
                            &&& rx_bist_failed == mbir_rxmbfa(
                                xfer_word(entry(old(self).bus_log(), final(self).bus_log(), 3)),
                            )
                            &&& tx_bist_failed == mbir_txmbfa(
                                xfer_word(entry(old(self).bus_log(), final(self).bus_log(), 3)),
                            )
                        },
                        _ => false,
                    },
            },
    {
        let ghost pre = self.bus_log();
        proof {
            lemma_extends_refl(pre);
            assert(old(self).slept() + Seq::<u32>::empty() =~= old(self).slept());
        }
        // Pulse the global soft reset, wait for the chip to settle, clear
        // the reset, and wait again.
        match self.dev.write_register(GRR, 0x0001) {
            Result::Ok(()) => (),
            Result::Err(e) => {
                proof {
                    assert(init_entries(pre, self.bus_log(), 0));
                }
                return Result::Err(e);
            },
        };
        proof {
            lemma_extends_push(pre, pre, 0, write_xfer(GRR, 0x0001));
            assert(init_entries(pre, self.bus_log(), 1));
        }
        self.delay.delay_ms(10);
        proof {
            assert(self.slept() =~= old(self).slept() + init_delays(1));
        }
        let ghost l = self.bus_log();
        match self.dev.write_register(GRR, 0x0000) {
            Result::Ok(()) => (),
            Result::Err(e) => {
                proof {
                    assert(init_entries(pre, self.bus_log(), 1));
                }
                return Result::Err(e);
            },
        };
        proof {
            lemma_extends_push(pre, l, 1, write_xfer(GRR, 0x0000));
            assert(init_entries(pre, self.bus_log(), 2));
        }
        self.delay.delay_ms(10);
        proof {
            assert(self.slept() =~= old(self).slept() + seq![10u32, 10u32]);
        }

        // Read the chip identity and compare family and chip sub-fields
        // against the expected constants.
        let ghost l = self.bus_log();
        let cider = match self.dev.read_register(CIDER) {
            Result::Ok(v) => v,
            Result::Err(e) => {
                proof {
                    assert(init_entries(pre, self.bus_log(), 2));
                }
                return Result::Err(e);
            },
        };
        proof {
            lemma_extends_push(pre, l, 2, read_xfer(CIDER, cider));
            lemma_read_xfer_word(CIDER, cider);
            assert(init_entries(pre, self.bus_log(), 3));
        }
        let chip_id = ((cider >> 4) & 0xF) as u8;
        let family_id = word_hi(cider);
        if chip_id != CHIP_ID_CHIP || family_id != CHIP_ID_FAMILY {
            return Result::Err(
                Error::BadChipId {
                    expected_family: CHIP_ID_FAMILY,
                    actual_family: family_id,
                    expected_chip: CHIP_ID_CHIP,
                    actual_chip: chip_id,
                },
            );
        }

        // Read the memory self-test result; fail carrying which side(s)
        // reported a failure.
        let ghost l = self.bus_log();
        let mbir = match self.dev.read_register(MBIR) {
            Result::Ok(v) => v,
            Result::Err(e) => {
                proof {
                    assert(init_entries(pre, self.bus_log(), 3));
                }
                return Result::Err(e);
            },
        };
        proof {
            lemma_extends_push(pre, l, 3, read_xfer(MBIR, mbir));
            lemma_read_xfer_word(MBIR, mbir);
            assert(init_entries(pre, self.bus_log(), 4));
        }
        let rx_bist_failed = mbir & 0x0008 != 0;
        let tx_bist_failed = mbir & 0x0800 != 0;
        if rx_bist_failed || tx_bist_failed {
            return Result::Err(Error::FailedBuiltInSelfTest { rx_bist_failed, tx_bist_failed });
        }

        // TX path: enable frame-pointer auto-increment.
        let ghost l = self.bus_log();
        let v = match self.dev.read_register(TXFDPR) {
            Result::Ok(v) => v,
            Result::Err(e) => {
                proof {
                    assert(init_entries(pre, self.bus_log(), 4));
                }
                return Result::Err(e);
            },
        };
        proof {
            lemma_extends_push(pre, l, 4, read_xfer(TXFDPR, v));
            lemma_read_xfer_word(TXFDPR, v);
            assert(init_entries(pre, self.bus_log(), 5));
        }
        let ghost l = self.bus_log();
        let nv = v | 0x4000;
        match self.dev.write_register(TXFDPR, nv) {
            Result::Ok(()) => (),
            Result::Err(e) => {
                proof {
                    assert(init_entries(pre, self.bus_log(), 5));
                }
                return Result::Err(e);
            },
        };
        proof {
            lemma_extends_push(pre, l, 5, write_xfer(TXFDPR, nv));
            assert(init_entries(pre, self.bus_log(), 6));
        }
        // TX path: no checksum generation, no flow control, padding and CRC on.
        let ghost l = self.bus_log();
        let v = match self.dev.read_register(TXCR) {
            Result::Ok(v) => v,
            Result::Err(e) => {
                proof {
                    assert(init_entries(pre, self.bus_log(), 6));
                }
                return Result::Err(e);
            },
        };
        proof {
            lemma_extends_push(pre, l, 6, read_xfer(TXCR, v));
            lemma_read_xfer_word(TXCR, v);
            assert(init_entries(pre, self.bus_log(), 7));
        }
        let ghost l = self.bus_log();
        let nv = (v & !0x0168u16) | 0x0006;
        match self.dev.write_register(TXCR, nv) {
            Result::Ok(()) => (),
            Result::Err(e) => {
                proof {
                    assert(init_entries(pre, self.bus_log(), 7));
                }
                return Result::Err(e);
            },
        };
        proof {
            lemma_extends_push(pre, l, 7, write_xfer(TXCR, nv));
            assert(init_entries(pre, self.bus_log(), 8));
        }
        // RX path: enable frame-pointer auto-increment.
        let ghost l = self.bus_log();
        let v = match self.dev.read_register(RXFDPR) {
            Result::Ok(v) => v,
            Result::Err(e) => {
                proof {
                    assert(init_entries(pre, self.bus_log(), 8));
                }
                return Result::Err(e);
            },
        };
        proof {
            lemma_extends_push(pre, l, 8, read_xfer(RXFDPR, v));
            lemma_read_xfer_word(RXFDPR, v);
            assert(init_entries(pre, self.bus_log(), 9));
        }
        let ghost l = self.bus_log();
        let nv = v | 0x4000;
        match self.dev.write_register(RXFDPR, nv) {
            Result::Ok(()) => (),
            Result::Err(e) => {
                proof {
                    assert(init_entries(pre, self.bus_log(), 9));
                }
                return Result::Err(e);
            },
        };
        proof {
            lemma_extends_push(pre, l, 9, write_xfer(RXFDPR, nv));
            assert(init_entries(pre, self.bus_log(), 10));
        }
        // RX path: interrupt after every received frame.
        let ghost l = self.bus_log();
        let v = match self.dev.read_register(RXFCTR) {
            Result::Ok(v) => v,
            Result::Err(e) => {
                proof {
                    assert(init_entries(pre, self.bus_log(), 10));
                }
                return Result::Err(e);
            },
        };
        proof {
            lemma_extends_push(pre, l, 10, read_xfer(RXFCTR, v));
            lemma_read_xfer_word(RXFCTR, v);
            assert(init_entries(pre, self.bus_log(), 11));
        }
        let ghost l = self.bus_log();
        let nv = (v & 0xFF00) | 0x0001;
        match self.dev.write_register(RXFCTR, nv) {
            Result::Ok(()) => (),
            Result::Err(e) => {
                proof {
                    assert(init_entries(pre, self.bus_log(), 11));
                }
                return Result::Err(e);
            },
        };
        proof {
            lemma_extends_push(pre, l, 11, write_xfer(RXFCTR, nv));
            assert(init_entries(pre, self.bus_log(), 12));
        }
        // RX path: frame-count-threshold interrupts, IP-header alignment offset, auto-dequeue.
        let ghost l = self.bus_log();
        let v = match self.dev.read_register(RXQCR) {
            Result::Ok(v) => v,
            Result::Err(e) => {
                proof {
                    assert(init_entries(pre, self.bus_log(), 12));
                }
                return Result::Err(e);
            },
        };
        proof {
            lemma_extends_push(pre, l, 12, read_xfer(RXQCR, v));
            lemma_read_xfer_word(RXQCR, v);
            assert(init_entries(pre, self.bus_log(), 13));
        }
        let ghost l = self.bus_log();
        let nv = v | 0x0230;
        match self.dev.write_register(RXQCR, nv) {
            Result::Ok(()) => (),
            Result::Err(e) => {
                proof {
                    assert(init_entries(pre, self.bus_log(), 13));
                }
                return Result::Err(e);
            },
        };
        proof {
            lemma_extends_push(pre, l, 13, write_xfer(RXQCR, nv));
            assert(init_entries(pre, self.bus_log(), 14));
        }
        // RX path: no checksum verification; flow control, broadcast (you need broadcast for ARP!) and unicast reception on.
        let ghost l = self.bus_log();
        let v = match self.dev.read_register(RXCR1) {
            Result::Ok(v) => v,
            Result::Err(e) => {
                proof {
                    assert(init_entries(pre, self.bus_log(), 14));
                }
                return Result::Err(e);
            },
        };
        proof {
            lemma_extends_push(pre, l, 14, read_xfer(RXCR1, v));
            lemma_read_xfer_word(RXCR1, v);
            assert(init_entries(pre, self.bus_log(), 15));
        }
        let ghost l = self.bus_log();
        let nv = (v & !0x7000u16) | 0x04A0;
        match self.dev.write_register(RXCR1, nv) {
            Result::Ok(()) => (),
            Result::Err(e) => {
                proof {
                    assert(init_entries(pre, self.bus_log(), 15));
                }
                return Result::Err(e);
            },
        };
        proof {
            lemma_extends_push(pre, l, 15, write_xfer(RXCR1, nv));
            assert(init_entries(pre, self.bus_log(), 16));
        }
        // RX path: single-frame burst mode, fragment and zero-checksum pass.
        let ghost l = self.bus_log();
        let v = match self.dev.read_register(RXCR2) {
            Result::Ok(v) => v,
            Result::Err(e) => {
                proof {
                    assert(init_entries(pre, self.bus_log(), 16));
                }
                return Result::Err(e);
            },
        };
        proof {
            lemma_extends_push(pre, l, 16, read_xfer(RXCR2, v));
            lemma_read_xfer_word(RXCR2, v);
            assert(init_entries(pre, self.bus_log(), 17));
        }
        let ghost l = self.bus_log();
        let nv = (v & !0x00E0u16) | 0x009E;
        match self.dev.write_register(RXCR2, nv) {
            Result::Ok(()) => (),
            Result::Err(e) => {
                proof {
                    assert(init_entries(pre, self.bus_log(), 17));
                }
                return Result::Err(e);
            },
        };
        proof {
            lemma_extends_push(pre, l, 17, write_xfer(RXCR2, nv));
            assert(init_entries(pre, self.bus_log(), 18));
        }
        // Interrupt sources: link change, TX done, RX done, RX overrun, TX space available, bus error.
        let ghost l = self.bus_log();
        let v = match self.dev.read_register(IER) {
            Result::Ok(v) => v,
            Result::Err(e) => {
                proof {
                    assert(init_entries(pre, self.bus_log(), 18));
                }
                return Result::Err(e);
            },
        };
        proof {
            lemma_extends_push(pre, l, 18, read_xfer(IER, v));
            lemma_read_xfer_word(IER, v);
            assert(init_entries(pre, self.bus_log(), 19));
        }
        let ghost l = self.bus_log();
        let nv = v | 0xE842;
        match self.dev.write_register(IER, nv) {
            Result::Ok(()) => (),
            Result::Err(e) => {
                proof {
                    assert(init_entries(pre, self.bus_log(), 19));
                }
                return Result::Err(e);
            },
        };
        proof {
            lemma_extends_push(pre, l, 19, write_xfer(IER, nv));
            assert(init_entries(pre, self.bus_log(), 20));
        }
        // Manual per-frame enqueue only: auto-enqueue cannot write multiple frames reliably, per the chip's errata.
        let ghost l = self.bus_log();
        let v = match self.dev.read_register(TXQCR) {
            Result::Ok(v) => v,
            Result::Err(e) => {
                proof {
                    assert(init_entries(pre, self.bus_log(), 20));
                }
                return Result::Err(e);
            },
        };
        proof {
            lemma_extends_push(pre, l, 20, read_xfer(TXQCR, v));
            lemma_read_xfer_word(TXQCR, v);
            assert(init_entries(pre, self.bus_log(), 21));
        }
        let ghost l = self.bus_log();
        let nv = v & !0x0004u16;
        match self.dev.write_register(TXQCR, nv) {
            Result::Ok(()) => (),
            Result::Err(e) => {
                proof {
                    assert(init_entries(pre, self.bus_log(), 21));
                }
                return Result::Err(e);
            },
        };
        proof {
            lemma_extends_push(pre, l, 21, write_xfer(TXQCR, nv));
            assert(init_entries(pre, self.bus_log(), 22));
        }
        // Enable TX processing.
        let ghost l = self.bus_log();
        let v = match self.dev.read_register(TXCR) {
            Result::Ok(v) => v,
            Result::Err(e) => {
                proof {
                    assert(init_entries(pre, self.bus_log(), 22));
                }
                return Result::Err(e);
            },
        };
        proof {
            lemma_extends_push(pre, l, 22, read_xfer(TXCR, v));
            lemma_read_xfer_word(TXCR, v);
            assert(init_entries(pre, self.bus_log(), 23));
        }
        let ghost l = self.bus_log();
        let nv = v | 0x0001;
        match self.dev.write_register(TXCR, nv) {
            Result::Ok(()) => (),
            Result::Err(e) => {
                proof {
                    assert(init_entries(pre, self.bus_log(), 23));
                }
                return Result::Err(e);
            },
        };
        proof {
            lemma_extends_push(pre, l, 23, write_xfer(TXCR, nv));
            assert(init_entries(pre, self.bus_log(), 24));
        }
        // Enable RX processing.
        let ghost l = self.bus_log();
        let v = match self.dev.read_register(RXCR1) {
            Result::Ok(v) => v,
            Result::Err(e) => {
                proof {
                    assert(init_entries(pre, self.bus_log(), 24));
                }
                return Result::Err(e);
            },
        };
        proof {
            lemma_extends_push(pre, l, 24, read_xfer(RXCR1, v));
            lemma_read_xfer_word(RXCR1, v);
            assert(init_entries(pre, self.bus_log(), 25));
        }
        let ghost l = self.bus_log();
        let nv = v | 0x0001;
        match self.dev.write_register(RXCR1, nv) {
            Result::Ok(()) => (),
            Result::Err(e) => {
                proof {
                    assert(init_entries(pre, self.bus_log(), 25));
                }
                return Result::Err(e);
            },
        };
        proof {
            lemma_extends_push(pre, l, 25, write_xfer(RXCR1, nv));
            assert(init_entries(pre, self.bus_log(), 26));
        }
        Result::Ok(())
    }

    /// Switch the chip's LED outputs on or off.
    ///
    /// A read-modify-write of the PHY basic control register, driving its
    /// disable-LED bit to the opposite of `on`.
    pub fn set_leds(&mut self, on: bool) -> (r: Result<(), Error>)
        ensures
            final(self).frame_id() == old(self).frame_id(),
            final(self).slept() == old(self).slept(),
            match r {
                Result::Ok(()) => set_leds_ok(old(self).bus_log(), final(self).bus_log(), on),
                Result::Err(e) => (e matches Error::SpiError(_)) && (final(self).bus_log() == old(
                    self,
                ).bus_log() || (extends(old(self).bus_log(), final(self).bus_log(), 1)
                    && is_reg_read(entry(old(self).bus_log(), final(self).bus_log(), 0), P1MBCR))),
            },
    {
        let ghost pre = self.bus_log();
        let v = match self.dev.read_register(P1MBCR) {
            Result::Ok(v) => v,
            Result::Err(e) => {
                return Result::Err(e);
            },
        };
        proof {
            lemma_extends_refl(pre);
            lemma_extends_push(pre, pre, 0, read_xfer(P1MBCR, v));
            lemma_read_xfer_word(P1MBCR, v);
        }
        let nv: u16 = if on {
            v & !1u16
        } else {
            v | 1u16
        };
        match self.dev.write_register(P1MBCR, nv) {
            Result::Ok(()) => {
                proof {
                    lemma_extends_push(pre, pre.push(read_xfer(P1MBCR, v)), 1, write_xfer(
                        P1MBCR,
                        nv,
                    ));
                }
                Result::Ok(())
            },
            Result::Err(e) => Result::Err(e),
        }
    }

    /// Set the MAC address used by the chip: three register writes, the
    /// address bytes packed big-end first into the high/middle/low MAC
    /// address registers.
    pub fn set_mac(&mut self, mac_addr: [u8; 6]) -> (r: Result<(), Error>)
        ensures
            final(self).frame_id() == old(self).frame_id(),
            final(self).slept() == old(self).slept(),
            match r {
                Result::Ok(()) => final(self).bus_log() == old(self).bus_log() + set_mac_xfers(
                    mac_addr@,
                ),
                Result::Err(e) => (e matches Error::SpiError(_)) && exists|i: int|
                    0 <= i < 3 && final(self).bus_log() == old(self).bus_log() + set_mac_xfers(
                        mac_addr@,
                    ).take(i),
            },
    {
        let ghost pre = self.bus_log();
        match self.dev.write_register(MARH, word_from_bytes(mac_addr[1], mac_addr[0])) {
            Result::Ok(()) => (),
            Result::Err(e) => {
                proof {
                    assert(pre == pre + set_mac_xfers(mac_addr@).take(0));
                    assert(pre + set_mac_xfers(mac_addr@).take(0) =~= pre);
                }
                return Result::Err(e);
            },
        };
        match self.dev.write_register(MARM, word_from_bytes(mac_addr[3], mac_addr[2])) {
            Result::Ok(()) => (),
            Result::Err(e) => {
                proof {
                    assert(self.bus_log() =~= pre + set_mac_xfers(mac_addr@).take(1));
                }
                return Result::Err(e);
            },
        };
        match self.dev.write_register(MARL, word_from_bytes(mac_addr[5], mac_addr[4])) {
            Result::Ok(()) => (),
            Result::Err(e) => {
                proof {
                    assert(self.bus_log() =~= pre + set_mac_xfers(mac_addr@).take(2));
                }
                return Result::Err(e);
            },
        };
        proof {
            assert(self.bus_log() =~= pre + set_mac_xfers(mac_addr@));
        }
        Result::Ok(())
    }

    /// Retrieve the MAC address from the chip: three register reads,
    /// unpacked in the same big-end-first order that `set_mac` packs.
    ///
    /// N.B: the chip doesn't come with an address of its own, so before one
    /// is set this returns whatever the registers hold.
    pub fn get_mac(&mut self) -> (r: Result<[u8; 6], Error>)
        ensures
            final(self).frame_id() == old(self).frame_id(),
            final(self).slept() == old(self).slept(),
            match r {
                Result::Ok(mac) => get_mac_ok(old(self).bus_log(), final(self).bus_log(), mac@),
                Result::Err(e) => (e matches Error::SpiError(_)) && get_mac_err(
                    old(self).bus_log(),
                    final(self).bus_log(),
                ),
            },
    {
        let ghost pre = self.bus_log();
        let high = match self.dev.read_register(MARH) {
            Result::Ok(v) => v,
            Result::Err(e) => {
                return Result::Err(e);
            },
        };
        proof {
            lemma_extends_refl(pre);
            lemma_extends_push(pre, pre, 0, read_xfer(MARH, high));
            lemma_read_xfer_word(MARH, high);
        }
        let med = match self.dev.read_register(MARM) {
            Result::Ok(v) => v,
            Result::Err(e) => {
                return Result::Err(e);
            },
        };
        proof {
            lemma_extends_push(pre, pre.push(read_xfer(MARH, high)), 1, read_xfer(MARM, med));
            lemma_read_xfer_word(MARM, med);
        }
        let low = match self.dev.read_register(MARL) {
            Result::Ok(v) => v,
            Result::Err(e) => {
                return Result::Err(e);
            },
        };
        proof {
            lemma_extends_push(
                pre,
                pre.push(read_xfer(MARH, high)).push(read_xfer(MARM, med)),
                2,
                read_xfer(MARL, low),
            );
            lemma_read_xfer_word(MARL, low);
        }
        let mac = [
            word_hi(high),
            word_lo(high),
            word_hi(med),
            word_lo(med),
            word_hi(low),
            word_lo(low),
        ];
        proof {
            assert(mac@ =~= mac_of(high, med, low));
        }
        Result::Ok(mac)
    }

    /// Check if the chip has space in its TX buffer for a packet of
    /// `tx_len` bytes.
    ///
    /// A payload over the chip's capacity is rejected as oversized before
    /// any bus access. Otherwise one read of the TX memory register
    /// decides: if the payload and its 4-byte overhead fit, the answer is
    /// true and nothing else is issued; if not, the requested size is
    /// written to the notify-threshold register and the memory-available
    /// monitor is armed, so the chip will raise its space-available
    /// interrupt, and the answer is false — the caller owns the retry.
    pub fn ready_tx(&mut self, tx_len: usize) -> (r: Result<bool, Error>)
        ensures
            final(self).frame_id() == old(self).frame_id(),
            final(self).slept() == old(self).slept(),
            r == Result::<bool, Error>::Err(
                Error::TxPacketTooBig { size: tx_len, max: MAX_TX_LEN },
            ) <==> tx_len > MAX_TX_LEN,
            match r {
                Result::Ok(fits) => ready_tx_ok(
                    old(self).bus_log(),
                    final(self).bus_log(),
                    tx_len as int,
                    fits,
                ),
                Result::Err(e) => (e matches Error::SpiError(_) || e matches
                Error::TxPacketTooBig { .. }) && ready_tx_err(
                    old(self).bus_log(),
                    final(self).bus_log(),
                    tx_len as int,
                    e,
                ),
            },
    {
        if tx_len > MAX_TX_LEN as usize {
            return Result::Err(Error::TxPacketTooBig { size: tx_len, max: MAX_TX_LEN });
        }
        let ghost pre = self.bus_log();
        let v = match self.dev.read_register(TXMIR) {
            Result::Ok(v) => v,
            Result::Err(e) => {
                return Result::Err(e);
            },
        };
        proof {
            lemma_extends_refl(pre);
            lemma_extends_push(pre, pre, 0, read_xfer(TXMIR, v));
            lemma_read_xfer_word(TXMIR, v);
        }
        let available = v & 0x1FFF;
        if tx_len + 4 > available as usize {
            // No room in the device's buffer currently.
            match self.dev.write_register(TXNTFSR, (tx_len + 4) as u16) {
                Result::Ok(()) => (),
                Result::Err(e) => {
                    return Result::Err(e);
                },
            };
            proof {
                lemma_extends_push(pre, pre.push(read_xfer(TXMIR, v)), 1, write_xfer(
                    TXNTFSR,
                    (tx_len + 4) as u16,
                ));
            }
            match self.dev.write_register(TXQCR, 0x0002) {
                Result::Ok(()) => (),
                Result::Err(e) => {
                    return Result::Err(e);
                },
            };
            proof {
                lemma_extends_push(
                    pre,
                    pre.push(read_xfer(TXMIR, v)).push(write_xfer(TXNTFSR, (tx_len + 4) as u16)),
                    2,
                    write_xfer(TXQCR, 0x0002),
                );
            }
            Result::Ok(false)
        } else {
            Result::Ok(true)
        }
    }

    /// Transmit the given frame immediately. This assumes the caller knows
    /// there is enough space in the chip's TX buffer, by having called
    /// `ready_tx` already (whose precondition also bounds the payload).
    ///
    /// The interrupt mask is saved and cleared around the sequence and
    /// restored verbatim at the end — the driver's critical-section
    /// discipline. The frame goes out as one streaming transaction framed
    /// by `tx_stream_spec`, stamped with the current frame identifier; the
    /// counter advances (wrapping below 32) once the stream has been
    /// accepted. A transport error aborts the sequence where it struck,
    /// which can leave streaming access enabled and the interrupt mask
    /// cleared; recovery is the caller's, as the contract records.
    pub fn tx(&mut self, buf: &[u8]) -> (r: Result<(), Error>)
        requires
            old(self).wf(),
            buf@.len() <= MAX_TX_LEN as int,
        ensures
            final(self).wf(),
            final(self).slept() == old(self).slept(),
            match r {
                Result::Ok(()) => tx_entries(
                    old(self).bus_log(),
                    final(self).bus_log(),
                    buf@,
                    old(self).frame_id(),
                    10,
                ) && final(self).frame_id() == next_fid(old(self).frame_id()),
                Result::Err(e) => (e matches Error::SpiError(_)) && exists|k: int|
                    #[trigger] tx_entries(
                        old(self).bus_log(),
                        final(self).bus_log(),
                        buf@,
                        old(self).frame_id(),
                        k,
                    ) && k < 10 && final(self).frame_id() == (if k > 4 {
                        next_fid(old(self).frame_id())
                    } else {
                        old(self).frame_id()
                    }),
            },
    {
        let ghost pre = self.bus_log();
        let ghost fid0 = self.next_frame_id;
        proof {
            lemma_extends_refl(pre);
        }
        // Disable interrupts.
        let ier = match self.dev.read_register(IER) {
            Result::Ok(v) => v,
            Result::Err(e) => {
                proof {
                    assert(tx_entries(pre, self.bus_log(), buf@, fid0, 0));
                }
                return Result::Err(e);
            },
        };
        proof {
            lemma_extends_push(pre, pre, 0, read_xfer(IER, ier));
            lemma_read_xfer_word(IER, ier);
            assert(tx_entries(pre, self.bus_log(), buf@, fid0, 1));
        }
        let ghost l1 = self.bus_log();
        match self.dev.write_register(IER, 0) {
            Result::Ok(()) => (),
            Result::Err(e) => {
                proof {
                    assert(tx_entries(pre, self.bus_log(), buf@, fid0, 1));
                }
                return Result::Err(e);
            },
        };
        proof {
            lemma_extends_push(pre, l1, 1, write_xfer(IER, 0));
            assert(tx_entries(pre, self.bus_log(), buf@, fid0, 2));
        }
        let ghost l2 = self.bus_log();
        // Enable TXQ write access.
        let q1 = match self.dev.read_register(RXQCR) {
            Result::Ok(v) => v,
            Result::Err(e) => {
                proof {
                    assert(tx_entries(pre, self.bus_log(), buf@, fid0, 2));
                }
                return Result::Err(e);
            },
        };
        proof {
            lemma_extends_push(pre, l2, 2, read_xfer(RXQCR, q1));
            lemma_read_xfer_word(RXQCR, q1);
            assert(tx_entries(pre, self.bus_log(), buf@, fid0, 3));
        }
        let ghost l3 = self.bus_log();
        match self.dev.write_register(RXQCR, q1 | 0x0008) {
            Result::Ok(()) => (),
            Result::Err(e) => {
                proof {
                    assert(tx_entries(pre, self.bus_log(), buf@, fid0, 3));
                }
                return Result::Err(e);
            },
        };
        proof {
            lemma_extends_push(pre, l3, 3, write_xfer(RXQCR, q1 | 0x0008));
            assert(tx_entries(pre, self.bus_log(), buf@, fid0, 4));
        }
        let ghost l4 = self.bus_log();

        // Frame the payload: opcode, control word, little-endian length,
        // payload, zero padding to 4-byte alignment.
        let op = opcode_val(Opcode::TXWrite);
        proof {
            assert(op << 6 == 0xC0) by (bit_vector)
                requires
                    op == 3,
            ;
            lemma_tx_ctrl_bytes(fid0);
        }
        let len16 = buf.len() as u16;
        let mut stream: Vec<u8> = Vec::new();
        stream.push(op << 6);
        stream.push(self.next_frame_id);
        stream.push(0x80);
        stream.push(word_lo(len16));
        stream.push(word_hi(len16));
        let ghost head = seq![
            0xC0u8,
            lo_byte(tx_ctrl_word(fid0)),
            hi_byte(tx_ctrl_word(fid0)),
            lo_byte(buf@.len() as u16),
            hi_byte(buf@.len() as u16),
        ];
        proof {
            assert(stream@ =~= head);
        }
        let mut i: usize = 0;
        while i < buf.len()
            invariant
                i <= buf@.len(),
                stream@ == head + buf@.take(i as int),
            decreases buf@.len() - i,
        {
            stream.push(buf[i]);
            proof {
                assert(head + buf@.take(i as int + 1) =~= (head + buf@.take(i as int)).push(
                    buf@[i as int],
                ));
            }
            i += 1;
        }
        proof {
            assert(buf@.take(buf@.len() as int) =~= buf@);
        }
        let pad = (4 - buf.len() % 4) % 4;
        let mut j: usize = 0;
        while j < pad
            invariant
                j <= pad,
                pad == pad_len(buf@.len() as int),
                stream@ == head + buf@ + zero_seq(j as int),
            decreases pad - j,
        {
            stream.push(0u8);
            proof {
                assert(head + buf@ + zero_seq(j as int + 1) =~= (head + buf@ + zero_seq(
                    j as int,
                )).push(0u8));
            }
            j += 1;
        }
        proof {
            assert(stream@ =~= tx_stream_spec(buf@, fid0));
        }

        // One streaming transaction carries the framed payload.
        match self.dev.bus.transfer(&stream, 0) {
            Result::Ok(d) => {
                proof {
                    assert(d@ =~= Seq::<u8>::empty());
                }
            },
            Result::Err(e) => {
                proof {
                    assert(tx_entries(pre, self.bus_log(), buf@, fid0, 4));
                }
                return Result::Err(Error::SpiError(e));
            },
        };
        proof {
            lemma_extends_push(
                pre,
                l4,
                4,
                (Xfer { sent: tx_stream_spec(buf@, fid0), rcvd: Seq::<u8>::empty() }),
            );
            assert(tx_entries(pre, self.bus_log(), buf@, fid0, 5));
        }
        let ghost l5 = self.bus_log();
        // Advance the frame identifier, wrapping inside its 6-bit field.
        if self.next_frame_id == 0x1f {
            self.next_frame_id = 0;
        } else {
            self.next_frame_id = self.next_frame_id + 1;
        }

        // Disable TXQ write access.
        let q2 = match self.dev.read_register(RXQCR) {
            Result::Ok(v) => v,
            Result::Err(e) => {
                proof {
                    assert(tx_entries(pre, self.bus_log(), buf@, fid0, 5));
                }
                return Result::Err(e);
            },
        };
        proof {
            lemma_extends_push(pre, l5, 5, read_xfer(RXQCR, q2));
            lemma_read_xfer_word(RXQCR, q2);
            assert(tx_entries(pre, self.bus_log(), buf@, fid0, 6));
        }
        let ghost l6 = self.bus_log();
        match self.dev.write_register(RXQCR, q2 & !0x0008u16) {
            Result::Ok(()) => (),
            Result::Err(e) => {
                proof {
                    assert(tx_entries(pre, self.bus_log(), buf@, fid0, 6));
                }
                return Result::Err(e);
            },
        };
        proof {
            lemma_extends_push(pre, l6, 6, write_xfer(RXQCR, q2 & !0x0008u16));
            assert(tx_entries(pre, self.bus_log(), buf@, fid0, 7));
        }
        let ghost l7 = self.bus_log();
        // Manually enqueue the frame; the chip clears the bit itself once
        // transmission completes.
        let t = match self.dev.read_register(TXQCR) {
            Result::Ok(v) => v,
            Result::Err(e) => {
                proof {
                    assert(tx_entries(pre, self.bus_log(), buf@, fid0, 7));
                }
                return Result::Err(e);
            },
        };
        proof {
            lemma_extends_push(pre, l7, 7, read_xfer(TXQCR, t));
            lemma_read_xfer_word(TXQCR, t);
            assert(tx_entries(pre, self.bus_log(), buf@, fid0, 8));
        }
        let ghost l8 = self.bus_log();
        match self.dev.write_register(TXQCR, t | 0x0001) {
            Result::Ok(()) => (),
            Result::Err(e) => {
                proof {
                    assert(tx_entries(pre, self.bus_log(), buf@, fid0, 8));
                }
                return Result::Err(e);
            },
        };
        proof {
            lemma_extends_push(pre, l8, 8, write_xfer(TXQCR, t | 0x0001));
            assert(tx_entries(pre, self.bus_log(), buf@, fid0, 9));
        }
        let ghost l9 = self.bus_log();
        // Reenable interrupts.
        match self.dev.write_register(IER, ier) {
            Result::Ok(()) => (),
            Result::Err(e) => {
                proof {
                    assert(tx_entries(pre, self.bus_log(), buf@, fid0, 9));
                }
                return Result::Err(e);
            },
        };
        proof {
            lemma_extends_push(pre, l9, 9, write_xfer(IER, ier));
            assert(tx_entries(pre, self.bus_log(), buf@, fid0, 10));
        }
        Result::Ok(())
    }

    /// Receive a single frame from the chip into the front of `rx_buf`.
    ///
    /// The caller must have disabled the receive interrupt beforehand (this
    /// engine does not arbitrate concurrent polling) and must bring a
    /// buffer large enough for any byte count the frame header can report;
    /// a smaller buffer would risk silently truncating a frame, which is a
    /// precondition violation, not a returned error.
    ///
    /// With no valid frame pending this fails recoverably. A frame
    /// carrying any error flag is released back to the chip (a busy-wait
    /// until the chip acknowledges) and reported invalid. Otherwise the
    /// frame is streamed in, the header embedded in the stream is checked
    /// against the one read beforehand — a disagreement means the frame
    /// changed under us, so `rx` fails rather than return data — and the
    /// payload lands in `rx_buf[0..bc - 6]`, where `bc` is the reported
    /// byte count; the returned length is `bc - 4`, the byte count less the
    /// 4-byte prefix. A transport error aborts the sequence where it
    /// struck, which can leave streaming access enabled and the interrupt
    /// mask cleared; recovery is the caller's, as the contract records.
    pub fn rx(&mut self, rx_buf: &mut Vec<u8>) -> (r: Result<usize, Error>)
        requires
            old(rx_buf)@.len() >= 4095,
        ensures
            final(self).frame_id() == old(self).frame_id(),
            final(self).slept() == old(self).slept(),
            final(rx_buf)@.len() == old(rx_buf)@.len(),
            match r {
                Result::Ok(n) => {
                    &&& rx_entries(old(self).bus_log(), final(self).bus_log(), 12)
                    &&& n == rx_bc(entry(old(self).bus_log(), final(self).bus_log(), 3)) - 4
                    &&& final(rx_buf)@ == rx_payload(
                        entry(old(self).bus_log(), final(self).bus_log(), 8),
                        rx_bc(entry(old(self).bus_log(), final(self).bus_log(), 3)) as int,
                    ) + old(rx_buf)@.skip(
                        rx_bc(entry(old(self).bus_log(), final(self).bus_log(), 3)) - 6,
                    )
                },
                Result::Err(e) => match e {
                    Error::RxInterruptEnabled => {
                        &&& final(rx_buf)@ == old(rx_buf)@
                        &&& extends(old(self).bus_log(), final(self).bus_log(), 1)
                        &&& is_reg_read(entry(old(self).bus_log(), final(self).bus_log(), 0), IER)
                        &&& ier_rxie(
                            xfer_word(entry(old(self).bus_log(), final(self).bus_log(), 0)),
                        )
                    },
                    Error::RxNoFrameAvailable => {
                        &&& final(rx_buf)@ == old(rx_buf)@
                        &&& rx_entries(old(self).bus_log(), final(self).bus_log(), 4)
                        &&& !rxfhsr_rxfv(
                            xfer_word(entry(old(self).bus_log(), final(self).bus_log(), 2)),
                        )
                    },
                    Error::RxFrameInvalid => {
                        &&& final(rx_buf)@ == old(rx_buf)@
                        &&& ({
                            ||| (rx_entries(old(self).bus_log(), final(self).bus_log(), 4)
                                && rxfhsr_rxfv(
                                xfer_word(entry(old(self).bus_log(), final(self).bus_log(), 2)),
                            ) && !rxfhsr_any_error(
                                xfer_word(entry(old(self).bus_log(), final(self).bus_log(), 2)),
                            ) && rx_bc(entry(old(self).bus_log(), final(self).bus_log(), 3)) < 6)
                            ||| (exists|n: int|
                                #[trigger] rx_discard_entries(
                                    old(self).bus_log(),
                                    final(self).bus_log(),
                                    n,
                                    true,
                                ))
                            ||| rx_discard_entries(
                                old(self).bus_log(),
                                final(self).bus_log(),
                                6 + RELEASE_POLL_LIMIT as int,
                                false,
                            )
                            ||| (rx_entries(old(self).bus_log(), final(self).bus_log(), 9)
                                && !rx_consistent(
                                entry(old(self).bus_log(), final(self).bus_log(), 8),
                                xfer_word(entry(old(self).bus_log(), final(self).bus_log(), 2)),
                                rx_bc(entry(old(self).bus_log(), final(self).bus_log(), 3)),
                            ))
                        })
                    },
                    Error::SpiError(_) => {
                        ||| (exists|k: int|
                            #[trigger] rx_entries(old(self).bus_log(), final(self).bus_log(), k)
                                && k < 12 && (k <= 8 ==> final(rx_buf)@ == old(rx_buf)@) && (k > 8
                                ==> rx_consistent(
                                entry(old(self).bus_log(), final(self).bus_log(), 8),
                                xfer_word(entry(old(self).bus_log(), final(self).bus_log(), 2)),
                                rx_bc(entry(old(self).bus_log(), final(self).bus_log(), 3)),
                            ) && final(rx_buf)@ == rx_payload(
                                entry(old(self).bus_log(), final(self).bus_log(), 8),
                                rx_bc(entry(old(self).bus_log(), final(self).bus_log(), 3)) as int,
                            ) + old(rx_buf)@.skip(
                                rx_bc(entry(old(self).bus_log(), final(self).bus_log(), 3)) - 6,
                            )))
                        ||| (exists|n: int|
                            #[trigger] rx_discard_entries(
                                old(self).bus_log(),
                                final(self).bus_log(),
                                n,
                                false,
                            ) && final(rx_buf)@ == old(rx_buf)@)
                    },
                    _ => false,
                },
            },
    {
        let ghost pre = self.bus_log();
        proof {
            lemma_extends_refl(pre);
        }
        // Save the interrupt mask; the receive interrupt must already be
        // disabled by the caller.
        let ier = match self.dev.read_register(IER) {
            Result::Ok(v) => v,
            Result::Err(e) => {
                proof {
                    assert(rx_entries(pre, self.bus_log(), 0));
                }
                return Result::Err(e);
            },
        };
        proof {
            lemma_extends_push(pre, pre, 0, read_xfer(IER, ier));
            lemma_read_xfer_word(IER, ier);
        }
        if ier & 0x2000 != 0 {
            return Result::Err(Error::RxInterruptEnabled);
        }
        proof {
            assert(rx_entries(pre, self.bus_log(), 1));
        }
        let ghost l = self.bus_log();
        // Disable interrupts.
        match self.dev.write_register(IER, 0) {
            Result::Ok(()) => (),
            Result::Err(e) => {
                proof {
                    assert(rx_entries(pre, self.bus_log(), 1));
                }
                return Result::Err(e);
            },
        };
        proof {
            lemma_extends_push(pre, l, 1, write_xfer(IER, 0));
            assert(rx_entries(pre, self.bus_log(), 2));
        }
        let ghost l = self.bus_log();
        let frame_status = match self.dev.read_register(RXFHSR) {
            Result::Ok(v) => v,
            Result::Err(e) => {
                proof {
                    assert(rx_entries(pre, self.bus_log(), 2));
                }
                return Result::Err(e);
            },
        };
        proof {
            lemma_extends_push(pre, l, 2, read_xfer(RXFHSR, frame_status));
            lemma_read_xfer_word(RXFHSR, frame_status);
            assert(rx_entries(pre, self.bus_log(), 3));
        }
        let ghost l = self.bus_log();
        let bw = match self.dev.read_register(RXFHBCR) {
            Result::Ok(v) => v,
            Result::Err(e) => {
                proof {
                    assert(rx_entries(pre, self.bus_log(), 3));
                }
                return Result::Err(e);
            },
        };
        proof {
            lemma_extends_push(pre, l, 3, read_xfer(RXFHBCR, bw));
            lemma_read_xfer_word(RXFHBCR, bw);
            assert(rx_entries(pre, self.bus_log(), 4));
        }
        let byte_count = bw & 0x0FFF;
        if frame_status & 0x8000 == 0 {
            // Either there is no frame or it's not done receiving.
            return Result::Err(Error::RxNoFrameAvailable);
        }
        if frame_status & 0x3C17 != 0 {
            // Frame error - discard: release the error frame and wait until
            // the chip acknowledges before trying to receive again.
            let ghost l = self.bus_log();
            let q = match self.dev.read_register(RXQCR) {
                Result::Ok(v) => v,
                Result::Err(e) => {
                    proof {
                        assert(rx_entries(pre, self.bus_log(), 4));
                    }
                    return Result::Err(e);
                },
            };
            proof {
                lemma_extends_push(pre, l, 4, read_xfer(RXQCR, q));
                lemma_read_xfer_word(RXQCR, q);
                assert(rx_discard_entries(pre, self.bus_log(), 5, false));
            }
            let ghost l = self.bus_log();
            match self.dev.write_register(RXQCR, q | 0x0001) {
                Result::Ok(()) => (),
                Result::Err(e) => {
                    proof {
                        assert(rx_discard_entries(pre, self.bus_log(), 5, false));
                    }
                    return Result::Err(e);
                },
            };
            proof {
                lemma_extends_push(pre, l, 5, write_xfer(RXQCR, q | 0x0001));
                assert(rx_discard_entries(pre, self.bus_log(), 6, false));
            }
            let mut spins: usize = 0;
            let mut released = false;
            while !released && spins < RELEASE_POLL_LIMIT
                invariant
                    spins <= RELEASE_POLL_LIMIT,
                    pre == old(self).bus_log(),
                    !released ==> rx_discard_entries(pre, self.bus_log(), 6 + spins as int, false),
                    released ==> rx_discard_entries(pre, self.bus_log(), 6 + spins as int, true),
                    self.frame_id() == old(self).frame_id(),
                    self.slept() == old(self).slept(),
                    rx_buf@ == old(rx_buf)@,
                decreases RELEASE_POLL_LIMIT - spins,
            {
                let ghost l = self.bus_log();
                let qq = match self.dev.read_register(RXQCR) {
                    Result::Ok(v) => v,
                    Result::Err(e) => {
                        proof {
                            assert(rx_discard_entries(pre, self.bus_log(), 6 + spins as int, false));
                        }
                        return Result::Err(e);
                    },
                };
                proof {
                    lemma_extends_push(pre, l, 6 + spins as int, read_xfer(RXQCR, qq));
                    lemma_read_xfer_word(RXQCR, qq);
                    assert(forall|i: int|
                        6 <= i < 6 + spins as int ==> entry(pre, self.bus_log(), i) == entry(
                            pre,
                            l,
                            i,
                        ));
                }
                spins = spins + 1;
                proof {
                    let n: int = 6 + spins as int;
                    let post = self.bus_log();
                    assert(extends(pre, post, n));
                    assert(rx_head(pre, post, 4));
                    assert(rxfhsr_rxfv(xfer_word(entry(pre, post, 2))));
                    assert(rxfhsr_any_error(xfer_word(entry(pre, post, 2))));
                    assert(is_reg_read(entry(pre, post, 4), RXQCR));
                    assert(entry(pre, post, 5) == write_xfer(
                        RXQCR,
                        xfer_word(entry(pre, post, 4)) | 0x0001,
                    ));
                    assert forall|i: int| 6 <= i < n implies is_reg_read(
                        #[trigger] entry(pre, post, i),
                        RXQCR,
                    ) by {
                        if i < n - 1 {
                            assert(entry(pre, post, i) == entry(pre, l, i));
                            assert(is_reg_read(entry(pre, l, i), RXQCR));
                        } else {
                            assert(entry(pre, post, i) == read_xfer(RXQCR, qq));
                        }
                    }
                    assert forall|i: int| 6 <= i < n - 1 implies crate::device::rxqcr_rrxef(
                        xfer_word(#[trigger] entry(pre, post, i)),
                    ) by {
                        assert(entry(pre, post, i) == entry(pre, l, i));
                        if i < n - 2 {
                            assert(crate::device::rxqcr_rrxef(xfer_word(entry(pre, l, i))));
                        }
                    }
                }
                if qq & 0x0001 == 0 {
                    released = true;
                    proof {
                        assert(rx_discard_entries(pre, self.bus_log(), 6 + spins as int, true));
                    }
                } else {
                    proof {
                        assert(rx_discard_entries(pre, self.bus_log(), 6 + spins as int, false));
                    }
                }
            }
            return Result::Err(Error::RxFrameInvalid);
        }
        if byte_count < 6 {
            // A valid, error-free frame is never this short: its byte count
            // covers a 4-byte prefix and a 2-byte alignment offset. Treat a
            // header that claims less as an invalid frame.
            return Result::Err(Error::RxFrameInvalid);
        }
        proof {
            assert(byte_count <= 0x0FFF) by (bit_vector)
                requires
                    byte_count == bw & 0x0FFF,
            ;
        }

        // Reset the rx frame pointer to the start of the frame.
        let ghost l = self.bus_log();
        let f = match self.dev.read_register(RXFDPR) {
            Result::Ok(v) => v,
            Result::Err(e) => {
                proof {
                    assert(rx_entries(pre, self.bus_log(), 4));
                }
                return Result::Err(e);
            },
        };
        proof {
            lemma_extends_push(pre, l, 4, read_xfer(RXFDPR, f));
            lemma_read_xfer_word(RXFDPR, f);
            assert(rx_entries(pre, self.bus_log(), 5));
        }
        let ghost l = self.bus_log();
        match self.dev.write_register(RXFDPR, f & !0x07FFu16) {
            Result::Ok(()) => (),
            Result::Err(e) => {
                proof {
                    assert(rx_entries(pre, self.bus_log(), 5));
                }
                return Result::Err(e);
            },
        };
        proof {
            lemma_extends_push(pre, l, 5, write_xfer(RXFDPR, f & !0x07FFu16));
            assert(rx_entries(pre, self.bus_log(), 6));
        }
        // Enable streaming (DMA) access.
        let ghost l = self.bus_log();
        let q1 = match self.dev.read_register(RXQCR) {
            Result::Ok(v) => v,
            Result::Err(e) => {
                proof {
                    assert(rx_entries(pre, self.bus_log(), 6));
                }
                return Result::Err(e);
            },
        };
        proof {
            lemma_extends_push(pre, l, 6, read_xfer(RXQCR, q1));
            lemma_read_xfer_word(RXQCR, q1);
            assert(rx_entries(pre, self.bus_log(), 7));
        }
        let ghost l = self.bus_log();
        match self.dev.write_register(RXQCR, q1 | 0x0008) {
            Result::Ok(()) => (),
            Result::Err(e) => {
                proof {
                    assert(rx_entries(pre, self.bus_log(), 7));
                }
                return Result::Err(e);
            },
        };
        proof {
            lemma_extends_push(pre, l, 7, write_xfer(RXQCR, q1 | 0x0008));
            assert(rx_entries(pre, self.bus_log(), 8));
        }

        // The whole transfer must be a multiple of 4 bytes, so some of the
        // trailing bytes may be alignment discard.
        let pad = ((4 - (byte_count % 4)) % 4) as usize;
        let read_len = byte_count as usize + 8 + pad;
        let op = opcode_val(Opcode::RXRead);
        proof {
            assert(op << 6 == 0x80) by (bit_vector)
                requires
                    op == 2,
            ;
        }
        let mut opb: Vec<u8> = Vec::new();
        opb.push(op << 6);
        proof {
            assert(opb@ =~= seq![0x80u8]);
        }
        let ghost l = self.bus_log();
        let data = match self.dev.bus.transfer(&opb, read_len) {
            Result::Ok(d) => d,
            Result::Err(e) => {
                proof {
                    assert(rx_entries(pre, self.bus_log(), 8));
                }
                return Result::Err(Error::SpiError(e));
            },
        };
        proof {
            lemma_extends_push(pre, l, 8, (Xfer { sent: opb@, rcvd: data@ }));
            assert(is_rx_stream(entry(pre, self.bus_log(), 8), byte_count as int));
            assert(rx_entries(pre, self.bus_log(), 9));
        }

        // The frame must not have changed between the header read and the
        // stream: compare the status and byte count embedded in the stream
        // against the values read through register access.
        let s2 = word_from_bytes(data[4], data[5]);
        let bc2 = word_from_bytes(data[6], data[7]) & 0x0FFF;
        if s2 != frame_status || bc2 != byte_count {
            return Result::Err(Error::RxFrameInvalid);
        }

        // Copy the payload out of the stream: past the 4 dummy bytes, the
        // two header words and the 2-byte alignment offset.
        let payload_len = (byte_count - 6) as usize;
        let mut i: usize = 0;
        while i < payload_len
            invariant
                i <= payload_len,
                payload_len == byte_count - 6,
                byte_count <= 0x0FFF,
                data@.len() == byte_count + 8 + pad_len(byte_count as int),
                rx_buf@.len() == old(rx_buf)@.len(),
                old(rx_buf)@.len() >= 4095,
                forall|j: int| 0 <= j < i ==> rx_buf@[j] == data@[10 + j],
                forall|j: int| i <= j < rx_buf@.len() ==> rx_buf@[j] == old(rx_buf)@[j],
            decreases payload_len - i,
        {
            let b = data[10 + i];
            rx_buf.set(i, b);
            i += 1;
        }
        proof {
            assert(rx_buf@ =~= rx_payload(entry(pre, self.bus_log(), 8), byte_count as int) + old(
                rx_buf,
            )@.skip(byte_count - 6));
        }

        // Disable streaming access.
        let ghost l = self.bus_log();
        let q2 = match self.dev.read_register(RXQCR) {
            Result::Ok(v) => v,
            Result::Err(e) => {
                proof {
                    assert(rx_entries(pre, self.bus_log(), 9));
                }
                return Result::Err(e);
            },
        };
        proof {
            lemma_extends_push(pre, l, 9, read_xfer(RXQCR, q2));
            lemma_read_xfer_word(RXQCR, q2);
            assert(rx_entries(pre, self.bus_log(), 10));
        }
        let ghost l = self.bus_log();
        match self.dev.write_register(RXQCR, q2 & !0x0008u16) {
            Result::Ok(()) => (),
            Result::Err(e) => {
                proof {
                    assert(rx_entries(pre, self.bus_log(), 10));
                }
                return Result::Err(e);
            },
        };
        proof {
            lemma_extends_push(pre, l, 10, write_xfer(RXQCR, q2 & !0x0008u16));
            assert(rx_entries(pre, self.bus_log(), 11));
        }
        // Restore the interrupt mask saved on entry.
        let ghost l = self.bus_log();
        match self.dev.write_register(IER, ier) {
            Result::Ok(()) => (),
            Result::Err(e) => {
                proof {
                    assert(rx_entries(pre, self.bus_log(), 11));
                }
                return Result::Err(e);
            },
        };
        proof {
            lemma_extends_push(pre, l, 11, write_xfer(IER, ier));
            assert(rx_entries(pre, self.bus_log(), 12));
        }
        Result::Ok((byte_count - 4) as usize)
    }

    /// Get the number of RX frames ready to be read from the chip.
    ///
    /// One read of the frame-count register. The chip refreshes the count
    /// only through its interrupt logic, so the value is stale while the RX
    /// interrupt is disabled.
    pub fn rx_frames_available(&mut self) -> (r: Result<u8, Error>)
        ensures
            final(self).frame_id() == old(self).frame_id(),
            final(self).slept() == old(self).slept(),
            match r {
                Result::Ok(n) => extends(old(self).bus_log(), final(self).bus_log(), 1)
                    && is_reg_read(entry(old(self).bus_log(), final(self).bus_log(), 0), RXFCTR)
                    && n == rxfctr_rxfc(
                    xfer_word(entry(old(self).bus_log(), final(self).bus_log(), 0)),
                ),
                Result::Err(e) => (e matches Error::SpiError(_)) && final(self).bus_log() == old(
                    self,
                ).bus_log(),
            },
    {
        let ghost pre = self.bus_log();
        let v = match self.dev.read_register(RXFCTR) {
            Result::Ok(v) => v,
            Result::Err(e) => {
                return Result::Err(e);
            },
        };
        proof {
            lemma_extends_refl(pre);
            lemma_extends_push(pre, pre, 0, read_xfer(RXFCTR, v));
            lemma_read_xfer_word(RXFCTR, v);
        }
        Result::Ok(word_hi(v))
    }
}

} // verus!
