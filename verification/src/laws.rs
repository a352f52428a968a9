//! Laws the driver's encodings obey, stated once and proved for all
//! values. Each is phrased over the same spec functions the driver methods'
//! contracts use, so it composes with any transcript those contracts
//! describe.
use vstd::prelude::*;

use crate::device::{hi_byte, lemma_word_bytes, lo_byte, word_of};
use crate::driver::{
    byte_enable_spec, lemma_tx_ctrl_bytes, mac_of, next_fid, pad_len, reg_cmd_spec, tx_stream_spec,
    Opcode,
};

verus! {

/// For every address satisfying the alignment precondition, the encoded
/// command header carries byte-enable `0011` when the address is congruent
/// to 0 modulo 4 and `1100` when congruent to 2 — recoverable from bits
/// 5..=2 of the first header byte, whatever the opcode.
pub proof fn lemma_byte_enable(o: Opcode, addr: u8)
    requires
        addr % 4 == 0 || addr % 4 == 2,
    ensures
        (reg_cmd_spec(o, addr)[0] >> 2) & 0xF == byte_enable_spec(addr),
        addr % 4 == 0 ==> (reg_cmd_spec(o, addr)[0] >> 2) & 0xF == 0b0011,
        addr % 4 == 2 ==> (reg_cmd_spec(o, addr)[0] >> 2) & 0xF == 0b1100,
{
    let ob = crate::driver::opcode_bits(o);
    let be = byte_enable_spec(addr);
    assert((((ob << 6) | (be << 2) | (addr >> 6)) >> 2) & 0xF == be) by (bit_vector)
        requires
            ob < 4,
            be == 0b0011 || be == 0b1100,
    ;
}

/// Round trip: the three register words `set_mac` writes for a MAC address
/// unpack, in `get_mac`'s order, to the identical six bytes. So reading
/// back through a chip that returns what was written restores the address
/// exactly.
pub proof fn lemma_mac_round_trip(mac: Seq<u8>, h: u16, m: u16, l: u16)
    requires
        mac.len() == 6,
        h == word_of(mac[1], mac[0]),
        m == word_of(mac[3], mac[2]),
        l == word_of(mac[5], mac[4]),
    ensures
        mac_of(h, m, l) == mac,
{
    lemma_word_bytes(mac[1], mac[0]);
    lemma_word_bytes(mac[3], mac[2]);
    lemma_word_bytes(mac[5], mac[4]);
    assert(mac_of(h, m, l) =~= mac);
}

/// Framing: for a payload of length `L`, the emitted stream is exactly
/// `1 (opcode) + 2 (control) + 2 (length) + L (payload)` bytes plus
/// `(4 - L mod 4) mod 4` bytes of padding; it opens with the stream-write
/// opcode byte and the control word; the length field holds `L` in
/// little-endian; the payload rides unchanged after the 5-byte head; and
/// every padding byte is zero.
pub proof fn lemma_tx_stream_framing(payload: Seq<u8>, fid: u8)
    requires
        payload.len() <= 0xFFFF,
    ensures
        tx_stream_spec(payload, fid).len() == 1 + 2 + 2 + payload.len() + pad_len(
            payload.len() as int,
        ),
        tx_stream_spec(payload, fid)[0] == 0xC0,
        word_of(tx_stream_spec(payload, fid)[1], tx_stream_spec(payload, fid)[2])
            == crate::driver::tx_ctrl_word(fid),
        word_of(tx_stream_spec(payload, fid)[3], tx_stream_spec(payload, fid)[4])
            == payload.len() as u16,
        tx_stream_spec(payload, fid).subrange(5, 5 + payload.len() as int) == payload,
        forall|i: int|
            5 + payload.len() <= i < tx_stream_spec(payload, fid).len() ==> tx_stream_spec(
                payload,
                fid,
            )[i] == 0,
{
    crate::device::lemma_bytes_word(payload.len() as u16);
    crate::device::lemma_bytes_word(crate::driver::tx_ctrl_word(fid));
    assert(tx_stream_spec(payload, fid).subrange(5, 5 + payload.len() as int) =~= payload);
}

/// The frame identifier counter wraps from 31 back to 0 and never leaves
/// its 6-bit field; the control word of an emitted stream carries the
/// identifier it was stamped with, so a value of 32 is never emitted.
pub proof fn lemma_frame_id_wraps(fid: u8)
    requires
        fid < 32,
    ensures
        next_fid(fid) < 32,
        next_fid(31) == 0,
        fid < 31 ==> next_fid(fid) == fid + 1,
        crate::driver::tx_ctrl_word(fid) & 0x3F == fid,
        tx_stream_spec(Seq::<u8>::empty(), fid)[1] == fid,
{
    lemma_tx_ctrl_bytes(fid);
}

} // verus!
