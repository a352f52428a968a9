//! Receive-engine tests against a simulated chip, including the header
//! consistency check and the error-frame discard handshake.
use embedded_hal::spi::ErrorKind;
use ksz8851snl::bus::{Bus, Delay};
use ksz8851snl::driver::{Chip, Error};

struct NoWait;

impl Delay for NoWait {
    fn slept(&self) -> ksz8851snl::bus::DelayLog {
        // Ghost transcript: never called at runtime.
        unreachable!()
    }

    fn delay_ms(&mut self, _ms: u32) {}
}

/// A simulated chip for receive tests: a register file, a scripted reply
/// for the stream read, and a release-error-frame bit that stays pending
/// for a configurable number of polls.
struct RxSim {
    regs: [u16; 128],
    stream_reply: Option<Vec<u8>>,
    rrxef_busy_polls: u32,
    xfers: usize,
}

impl RxSim {
    fn new() -> RxSim {
        RxSim { regs: [0u16; 128], stream_reply: None, rrxef_busy_polls: 0, xfers: 0 }
    }

    fn reg(&self, addr: u8) -> u16 {
        self.regs[addr as usize / 2]
    }

    fn set_reg(&mut self, addr: u8, v: u16) {
        self.regs[addr as usize / 2] = v;
    }

    fn cmd_addr(cmd: &[u8]) -> u8 {
        let be = (cmd[0] >> 2) & 0xF;
        ((cmd[0] & 0x3) << 6) | (cmd[1] >> 2) | if be == 0b1100 { 2 } else { 0 }
    }
}

impl Bus for RxSim {
    fn log(&self) -> ksz8851snl::bus::BusLog {
        // Ghost transcript: never called at runtime.
        unreachable!()
    }

    fn transfer(&mut self, data_out: &Vec<u8>, read_len: usize) -> Result<Vec<u8>, ErrorKind> {
        self.xfers += 1;
        match data_out[0] >> 6 {
            0b00 => {
                let addr = Self::cmd_addr(data_out);
                let mut v = self.reg(addr);
                if addr == 0x82 && v & 0x0001 != 0 {
                    if self.rrxef_busy_polls > 0 {
                        self.rrxef_busy_polls -= 1;
                    } else {
                        v &= !0x0001;
                        self.set_reg(addr, v);
                    }
                }
                Ok(v.to_le_bytes().to_vec())
            }
            0b01 => {
                let addr = Self::cmd_addr(data_out);
                self.set_reg(addr, u16::from_le_bytes([data_out[2], data_out[3]]));
                Ok(Vec::new())
            }
            0b10 => {
                let reply = self.stream_reply.clone().expect("no stream reply scripted");
                assert_eq!(reply.len(), read_len, "stream reply length mismatch");
                Ok(reply)
            }
            _ => Ok(Vec::new()),
        }
    }
}

/// The stream the chip returns for a frame: 4 dummy bytes, the status and
/// byte-count words, the 2-byte alignment offset, the payload, a CRC
/// trailer, and alignment discard bytes.
fn stream_reply(status: u16, bc: u16, payload: &[u8]) -> Vec<u8> {
    assert_eq!(payload.len(), bc as usize - 6);
    let mut v = vec![0u8; 4];
    v.extend_from_slice(&status.to_le_bytes());
    v.extend_from_slice(&bc.to_le_bytes());
    v.extend_from_slice(&[0, 0]);
    v.extend_from_slice(payload);
    v.extend_from_slice(&[0x11, 0x22, 0x33, 0x44]);
    let pad = (4 - (bc as usize % 4)) % 4;
    v.extend(std::iter::repeat(0u8).take(pad));
    v
}

fn rx_chip(status: u16, bc: u16, stream: Option<Vec<u8>>) -> Chip<RxSim, NoWait> {
    let mut sim = RxSim::new();
    sim.set_reg(0x7C, status);
    sim.set_reg(0x7E, bc);
    sim.stream_reply = stream;
    Chip::new(sim, NoWait)
}

#[test]
fn rx_reads_valid_frame() {
    let payload: Vec<u8> = (1..=10).collect();
    let bc = 16;
    let mut chip = rx_chip(0x8000, bc, Some(stream_reply(0x8000, bc, &payload)));
    let mut buf = vec![0u8; 4095];
    let n = chip.rx(&mut buf).unwrap();
    // The returned length is the byte count less the 4-byte prefix.
    assert_eq!(n, bc as usize - 4);
    assert_eq!(&buf[..payload.len()], &payload[..]);
    assert_eq!(buf.len(), 4095, "buffer length preserved");
    for b in &buf[payload.len()..] {
        assert_eq!(*b, 0, "rest of the buffer untouched");
    }
}

#[test]
fn rx_restores_interrupt_mask_and_closes_stream() {
    let payload = [7u8; 6];
    let mut chip = rx_chip(0x8000, 12, Some(stream_reply(0x8000, 12, &payload)));
    // A saved mask with the receive interrupt (bit 13) already off.
    chip.dev.bus.set_reg(0x90, 0xC842);
    let mut buf = vec![0u8; 4095];
    chip.rx(&mut buf).unwrap();
    assert_eq!(chip.dev.bus.reg(0x90), 0xC842, "interrupt mask restored verbatim");
    assert_eq!(chip.dev.bus.reg(0x82) & 0x0008, 0, "streaming access closed");
    assert_eq!(chip.dev.bus.reg(0x86), 0, "frame pointer reset");
}

#[test]
fn rx_no_frame_available() {
    let mut chip = rx_chip(0x0000, 0, None);
    let mut buf = vec![0u8; 4095];
    assert_eq!(chip.rx(&mut buf), Err(Error::RxNoFrameAvailable));
    assert_eq!(chip.dev.bus.xfers, 4, "gave up after the header reads");
}

#[test]
fn rx_requires_receive_interrupt_disabled() {
    let mut chip = rx_chip(0x8000, 12, None);
    chip.dev.bus.set_reg(0x90, 0x2000);
    let mut buf = vec![0u8; 4095];
    assert_eq!(chip.rx(&mut buf), Err(Error::RxInterruptEnabled));
    assert_eq!(chip.dev.bus.xfers, 1, "nothing issued past the mask read");
}

#[test]
fn rx_discards_error_frame() {
    // Frame valid but CRC error flagged.
    let mut chip = rx_chip(0x8001, 70, None);
    chip.dev.bus.rrxef_busy_polls = 3;
    let mut buf = vec![0u8; 4095];
    assert_eq!(chip.rx(&mut buf), Err(Error::RxFrameInvalid));
    // The release bit was set and the chip has since cleared it.
    assert_eq!(chip.dev.bus.reg(0x82) & 0x0001, 0);
    // Head reads, release read-modify-write, and four polls (three still
    // pending, the fourth clear).
    assert_eq!(chip.dev.bus.xfers, 4 + 2 + 4);
}

#[test]
fn rx_rejects_every_error_flag() {
    for flag in [0x0001u16, 0x0002, 0x0004, 0x0010, 0x0400, 0x0800, 0x1000, 0x2000] {
        let mut chip = rx_chip(0x8000 | flag, 70, None);
        let mut buf = vec![0u8; 4095];
        assert_eq!(chip.rx(&mut buf), Err(Error::RxFrameInvalid), "flag {flag:#x}");
    }
}

#[test]
fn rx_fails_on_mismatched_stream_status() {
    // The header embedded in the stream disagrees with the one read
    // before the stream: rx must fail rather than return data.
    let payload = [9u8; 6];
    let mut chip = rx_chip(0x8000, 12, Some(stream_reply(0x8040, 12, &payload)));
    let mut buf = vec![0u8; 4095];
    assert_eq!(chip.rx(&mut buf), Err(Error::RxFrameInvalid));
    assert!(buf.iter().all(|b| *b == 0), "no data handed out");
}

#[test]
fn rx_fails_on_mismatched_stream_byte_count() {
    let payload = [9u8; 6];
    let mut reply = stream_reply(0x8000, 12, &payload);
    // Corrupt the embedded byte count (bytes 6..8, little-endian).
    reply[6] = 13;
    let mut chip = rx_chip(0x8000, 12, Some(reply));
    let mut buf = vec![0u8; 4095];
    assert_eq!(chip.rx(&mut buf), Err(Error::RxFrameInvalid));
    assert!(buf.iter().all(|b| *b == 0), "no data handed out");
}

#[test]
fn rx_rejects_implausibly_short_byte_count() {
    let mut chip = rx_chip(0x8000, 5, None);
    let mut buf = vec![0u8; 4095];
    assert_eq!(chip.rx(&mut buf), Err(Error::RxFrameInvalid));
}

#[test]
fn rx_largest_frame() {
    // The largest byte count the 12-bit field can carry.
    let bc = 0x0FFF;
    let payload = vec![0xA5u8; bc as usize - 6];
    let mut chip = rx_chip(0x8000, bc, Some(stream_reply(0x8000, bc, &payload)));
    let mut buf = vec![0u8; 4095];
    let n = chip.rx(&mut buf).unwrap();
    assert_eq!(n, bc as usize - 4);
    assert_eq!(&buf[..payload.len()], &payload[..]);
}
