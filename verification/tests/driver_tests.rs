//! Driver tests against a simulated chip: a register file behind the same
//! serial protocol the real part speaks.
use embedded_hal::spi::ErrorKind;
use ksz8851snl::bus::{Bus, Delay};
use ksz8851snl::driver::{reg_cmd, Chip, Error, Opcode};

/// A pause source that only records what it was asked to wait.
struct NoWait {
    slept_ms: Vec<u32>,
}

impl Delay for NoWait {
    fn slept(&self) -> ksz8851snl::bus::DelayLog {
        // Ghost transcript: never called at runtime.
        unreachable!()
    }

    fn delay_ms(&mut self, ms: u32) {
        self.slept_ms.push(ms);
    }
}

/// A simulated chip: 16-bit registers at even addresses, reached through
/// the command-header protocol, plus a scripted reply for stream reads and
/// a transcript of every transfer for the tests to inspect.
struct SimChip {
    regs: [u16; 128],
    /// Every transfer made: the bytes sent and the bytes returned.
    xfers: Vec<(Vec<u8>, Vec<u8>)>,
    /// Reply handed out for a stream-read request, if its length fits.
    stream_reply: Option<Vec<u8>>,
    /// Reads of RXQCR that still report release-error-frame as pending.
    rrxef_busy_polls: u32,
    /// Fail every transfer from this count on, if set.
    fail_from: Option<usize>,
}

const CIDER_RESET: u16 = 0x8872;

impl SimChip {
    fn fresh() -> SimChip {
        let mut regs = [0u16; 128];
        regs[0xC0 / 2] = CIDER_RESET;
        SimChip { regs, xfers: Vec::new(), stream_reply: None, rrxef_busy_polls: 0, fail_from: None }
    }

    fn reg(&self, addr: u8) -> u16 {
        self.regs[addr as usize / 2]
    }

    fn set_reg(&mut self, addr: u8, v: u16) {
        self.regs[addr as usize / 2] = v;
    }

    /// Decode the address carried by a 2-byte command header.
    fn cmd_addr(cmd: &[u8]) -> u8 {
        let be = (cmd[0] >> 2) & 0xF;
        assert!(be == 0b0011 || be == 0b1100);
        ((cmd[0] & 0x3) << 6) | (cmd[1] >> 2) | if be == 0b1100 { 2 } else { 0 }
    }

    fn serve(&mut self, data_out: &Vec<u8>, read_len: usize) -> Vec<u8> {
        let op = data_out[0] >> 6;
        match op {
            0b00 => {
                // Register read.
                assert_eq!(data_out.len(), 2);
                assert_eq!(read_len, 2);
                let addr = Self::cmd_addr(data_out);
                let mut v = self.reg(addr);
                if addr == 0x82 && v & 0x0001 != 0 {
                    // Release-error-frame stays pending for a few polls,
                    // then the chip clears it.
                    if self.rrxef_busy_polls > 0 {
                        self.rrxef_busy_polls -= 1;
                    } else {
                        v &= !0x0001;
                        self.set_reg(addr, v);
                    }
                }
                v.to_le_bytes().to_vec()
            }
            0b01 => {
                // Register write.
                assert_eq!(data_out.len(), 4);
                assert_eq!(read_len, 0);
                let addr = Self::cmd_addr(data_out);
                let v = u16::from_le_bytes([data_out[2], data_out[3]]);
                if addr == 0x26 && v & 0x0001 != 0 {
                    // Global soft reset: every register back to defaults.
                    self.regs = [0u16; 128];
                    self.regs[0xC0 / 2] = CIDER_RESET;
                }
                self.set_reg(addr, v);
                Vec::new()
            }
            0b10 => {
                // Stream read out of the RX queue.
                assert_eq!(data_out.len(), 1);
                let reply = self.stream_reply.clone().expect("no stream reply scripted");
                assert_eq!(reply.len(), read_len, "stream reply length mismatch");
                reply
            }
            _ => {
                // Stream write into the TX queue: consume only.
                assert_eq!(read_len, 0);
                Vec::new()
            }
        }
    }
}

impl Bus for SimChip {
    fn log(&self) -> ksz8851snl::bus::BusLog {
        // Ghost transcript: never called at runtime.
        unreachable!()
    }

    fn transfer(&mut self, data_out: &Vec<u8>, read_len: usize) -> Result<Vec<u8>, ErrorKind> {
        if let Some(n) = self.fail_from {
            if self.xfers.len() >= n {
                return Err(ErrorKind::Other);
            }
        }
        let reply = self.serve(data_out, read_len);
        self.xfers.push((data_out.clone(), reply.clone()));
        Ok(reply)
    }
}

fn fresh_chip() -> Chip<SimChip, NoWait> {
    Chip::new(SimChip::fresh(), NoWait { slept_ms: Vec::new() })
}

// --- Command header encoding -------------------------------------------

#[test]
fn reg_cmd_aligned_0() {
    // Address 0x10 is 0 mod 4: byte-enable 0011.
    assert_eq!(reg_cmd(Opcode::RegRead, 0x10, 2), [0x0C, 0x40]);
}

#[test]
fn reg_cmd_aligned_2() {
    // Address 0xE6 is 2 mod 4: byte-enable 1100.
    assert_eq!(reg_cmd(Opcode::RegRead, 0xE6, 2), [0x33, 0x90]);
}

#[test]
fn reg_cmd_write_opcode() {
    assert_eq!(reg_cmd(Opcode::RegWrite, 0x70, 2), [0x4D, 0xC0]);
}

#[test]
fn reg_cmd_byte_enable_field() {
    for addr in [0x00u8, 0x10, 0x90, 0xC0] {
        let h = reg_cmd(Opcode::RegRead, addr, 2);
        assert_eq!((h[0] >> 2) & 0xF, 0b0011, "addr {addr:#x}");
    }
    for addr in [0x02u8, 0x12, 0x7E, 0xE6] {
        let h = reg_cmd(Opcode::TXWrite, addr, 2);
        assert_eq!((h[0] >> 2) & 0xF, 0b1100, "addr {addr:#x}");
    }
}

// --- MAC address round trip ----------------------------------------------

#[test]
fn mac_round_trip_zeros() {
    let mut chip = fresh_chip();
    chip.set_mac([0, 0, 0, 0, 0, 0]).unwrap();
    assert_eq!(chip.get_mac().unwrap(), [0, 0, 0, 0, 0, 0]);
}

#[test]
fn mac_round_trip_all_ones() {
    let mut chip = fresh_chip();
    chip.set_mac([0xFF; 6]).unwrap();
    assert_eq!(chip.get_mac().unwrap(), [0xFF; 6]);
}

#[test]
fn mac_round_trip_mixed() {
    let mut chip = fresh_chip();
    let mac = [0x02, 0x1A, 0x2B, 0x3C, 0x4D, 0x5E];
    chip.set_mac(mac).unwrap();
    assert_eq!(chip.get_mac().unwrap(), mac);
    // The bytes land big-end first in the high/middle/low registers.
    assert_eq!(chip.dev.bus.reg(0x14), 0x021A);
    assert_eq!(chip.dev.bus.reg(0x12), 0x2B3C);
    assert_eq!(chip.dev.bus.reg(0x10), 0x4D5E);
}

// --- Backpressure --------------------------------------------------------

#[test]
fn ready_tx_oversized_makes_no_bus_access() {
    let mut chip = fresh_chip();
    let r = chip.ready_tx(2001);
    assert_eq!(r, Err(Error::TxPacketTooBig { size: 2001, max: 2000 }));
    assert_eq!(chip.dev.bus.xfers.len(), 0, "transport spy saw a transfer");
}

#[test]
fn ready_tx_fits() {
    let mut chip = fresh_chip();
    chip.dev.bus.set_reg(0x78, 2048);
    assert_eq!(chip.ready_tx(2000), Ok(true));
    assert_eq!(chip.dev.bus.xfers.len(), 1);
}

#[test]
fn ready_tx_arms_notification_when_full() {
    let mut chip = fresh_chip();
    chip.dev.bus.set_reg(0x78, 100);
    assert_eq!(chip.ready_tx(100), Ok(false));
    // The requested total (payload + 4) went to the notify threshold and
    // the memory-available monitor was armed.
    assert_eq!(chip.dev.bus.reg(0x9E), 104);
    assert_eq!(chip.dev.bus.reg(0x80), 0x0002);
    assert_eq!(chip.dev.bus.xfers.len(), 3);
}

#[test]
fn ready_tx_boundary_exact_fit() {
    let mut chip = fresh_chip();
    chip.dev.bus.set_reg(0x78, 104);
    assert_eq!(chip.ready_tx(100), Ok(true));
}

// --- Transmit framing ----------------------------------------------------

fn tx_streams(chip: &Chip<SimChip, NoWait>) -> Vec<Vec<u8>> {
    chip.dev.bus.xfers.iter().filter(|(s, _)| s[0] == 0xC0).map(|(s, _)| s.clone()).collect()
}

#[test]
fn tx_frame_layout() {
    let mut chip = fresh_chip();
    chip.tx(&[0xAA, 0xBB, 0xCC]).unwrap();
    let streams = tx_streams(&chip);
    assert_eq!(streams.len(), 1);
    let s = &streams[0];
    // 1 opcode + 2 control + 2 length + 3 payload + 1 padding.
    assert_eq!(s.len(), 9);
    assert_eq!(s[0], 0xC0);
    assert_eq!(s[1], 0, "first frame id");
    assert_eq!(s[2], 0x80, "interrupt-on-completion");
    assert_eq!(&s[3..5], &[3, 0], "little-endian length");
    assert_eq!(&s[5..8], &[0xAA, 0xBB, 0xCC]);
    assert_eq!(s[8], 0, "zero padding");
}

#[test]
fn tx_padding_lengths() {
    for (len, pad) in [(1usize, 3usize), (2, 2), (3, 1), (4, 0), (5, 3), (8, 0)] {
        let mut chip = fresh_chip();
        let payload = vec![0x55u8; len];
        chip.tx(&payload).unwrap();
        let s = &tx_streams(&chip)[0];
        assert_eq!(s.len(), 5 + len + pad, "payload length {len}");
        assert_eq!(s[3] as usize + 256 * s[4] as usize, len);
        for b in &s[5 + len..] {
            assert_eq!(*b, 0);
        }
    }
}

#[test]
fn tx_empty_payload() {
    let mut chip = fresh_chip();
    chip.tx(&[]).unwrap();
    let s = &tx_streams(&chip)[0];
    assert_eq!(s.len(), 5);
    assert_eq!(&s[3..5], &[0, 0]);
}

#[test]
fn tx_critical_section_restores_interrupt_mask() {
    let mut chip = fresh_chip();
    chip.dev.bus.set_reg(0x90, 0xE842);
    chip.tx(&[1, 2, 3, 4]).unwrap();
    assert_eq!(chip.dev.bus.reg(0x90), 0xE842, "interrupt mask restored verbatim");
    // Streaming access was closed again and manual enqueue armed.
    assert_eq!(chip.dev.bus.reg(0x82) & 0x0008, 0);
    assert_eq!(chip.dev.bus.reg(0x80) & 0x0001, 0x0001);
}

#[test]
fn frame_id_wraps_after_32_frames() {
    let mut chip = fresh_chip();
    for _ in 0..33 {
        chip.tx(&[0u8; 4]).unwrap();
    }
    let ids: Vec<u8> = tx_streams(&chip).iter().map(|s| s[1]).collect();
    assert_eq!(ids.len(), 33);
    for (i, id) in ids.iter().enumerate() {
        assert_eq!(*id as usize, i % 32, "frame {i}");
        assert!(*id < 32, "frame id never reaches 32");
    }
    assert_eq!(ids[31], 31);
    assert_eq!(ids[32], 0, "wraps from 31 back to 0");
}

// --- Initialization ------------------------------------------------------

#[test]
fn init_configures_fresh_chip() {
    let mut chip = fresh_chip();
    assert_eq!(chip.init(), Ok(()));
    let b = &chip.dev.bus;
    assert_eq!(b.reg(0x26), 0, "reset released");
    assert_eq!(b.reg(0x84), 0x4000, "tx pointer auto-increment");
    assert_eq!(b.reg(0x70), 0x0007, "tx: padding, crc, enabled");
    assert_eq!(b.reg(0x86), 0x4000, "rx pointer auto-increment");
    assert_eq!(b.reg(0x9C), 0x0001, "rx frame-count threshold");
    assert_eq!(b.reg(0x82), 0x0230, "rxq command configuration");
    assert_eq!(b.reg(0x74), 0x04A1, "rx: filters and enabled");
    assert_eq!(b.reg(0x76), 0x009E, "rx control 2 configuration");
    assert_eq!(b.reg(0x90), 0xE842, "interrupt sources");
    assert_eq!(b.reg(0x80), 0, "auto-enqueue off");
}

#[test]
fn init_twice_succeeds_and_leaves_identical_configuration() {
    let mut chip = fresh_chip();
    assert_eq!(chip.init(), Ok(()));
    let first = chip.dev.bus.regs;
    assert_eq!(chip.init(), Ok(()));
    assert_eq!(chip.dev.bus.regs[..], first[..], "second init leaves the same register file");
}

#[test]
fn init_waits_for_reset_settle() {
    let slept = std::rc::Rc::new(std::cell::RefCell::new(Vec::new()));
    let mut chip = Chip::new(SimChip::fresh(), SharedWait { slept_ms: slept.clone() });
    chip.init().unwrap();
    // One settle pause after the reset pulse, one after its release.
    assert_eq!(*slept.borrow(), vec![10, 10]);
}

/// A pause source whose transcript the test can still see after handing it
/// to the driver.
struct SharedWait {
    slept_ms: std::rc::Rc<std::cell::RefCell<Vec<u32>>>,
}

impl Delay for SharedWait {
    fn slept(&self) -> ksz8851snl::bus::DelayLog {
        // Ghost transcript: never called at runtime.
        unreachable!()
    }

    fn delay_ms(&mut self, ms: u32) {
        self.slept_ms.borrow_mut().push(ms);
    }
}

/// A simulated part of another family: same protocol, different identity.
struct ForeignSim(SimChip);

impl Bus for ForeignSim {
    fn log(&self) -> ksz8851snl::bus::BusLog {
        // Ghost transcript: never called at runtime.
        unreachable!()
    }

    fn transfer(&mut self, data_out: &Vec<u8>, read_len: usize) -> Result<Vec<u8>, ErrorKind> {
        let r = self.0.transfer(data_out, read_len);
        self.0.regs[0xC0 / 2] = 0x1234;
        r
    }
}

#[test]
fn init_fails_on_foreign_identity() {
    let mut chip = Chip::new(ForeignSim(SimChip::fresh()), NoWait { slept_ms: Vec::new() });
    assert_eq!(
        chip.init(),
        Err(Error::BadChipId {
            expected_family: 0x88,
            actual_family: 0x12,
            expected_chip: 0x7,
            actual_chip: 0x3,
        })
    );
}

/// A simulated part whose memory self-test reports a TX-side failure.
struct FailedBistSim(SimChip);

impl Bus for FailedBistSim {
    fn log(&self) -> ksz8851snl::bus::BusLog {
        // Ghost transcript: never called at runtime.
        unreachable!()
    }

    fn transfer(&mut self, data_out: &Vec<u8>, read_len: usize) -> Result<Vec<u8>, ErrorKind> {
        let r = self.0.transfer(data_out, read_len);
        self.0.regs[0x24 / 2] = 0x0800;
        r
    }
}

#[test]
fn init_fails_on_failed_self_test() {
    let mut chip = Chip::new(FailedBistSim(SimChip::fresh()), NoWait { slept_ms: Vec::new() });
    assert_eq!(
        chip.init(),
        Err(Error::FailedBuiltInSelfTest { rx_bist_failed: false, tx_bist_failed: true })
    );
}

// --- Status accessors ----------------------------------------------------

#[test]
fn link_good_reads_link_status_bit() {
    let mut chip = fresh_chip();
    assert_eq!(chip.link_good(), Ok(false));
    chip.dev.bus.set_reg(0xE6, 0x0004);
    assert_eq!(chip.link_good(), Ok(true));
    chip.dev.bus.set_reg(0xE6, 0xFFFB);
    assert_eq!(chip.link_good(), Ok(false));
}

#[test]
fn rx_frames_available_reads_high_byte() {
    let mut chip = fresh_chip();
    chip.dev.bus.set_reg(0x9C, 0x0301);
    assert_eq!(chip.rx_frames_available(), Ok(3));
}

#[test]
fn set_leds_drives_disable_bit() {
    let mut chip = fresh_chip();
    chip.dev.bus.set_reg(0xE4, 0x2100);
    chip.set_leds(false).unwrap();
    assert_eq!(chip.dev.bus.reg(0xE4), 0x2101, "leds off sets disable-led");
    chip.set_leds(true).unwrap();
    assert_eq!(chip.dev.bus.reg(0xE4), 0x2100, "leds on clears disable-led");
}

// --- Transport errors ----------------------------------------------------

#[test]
fn transport_error_propagates() {
    let mut chip = fresh_chip();
    chip.dev.bus.fail_from = Some(0);
    assert_eq!(chip.link_good(), Err(Error::SpiError(ErrorKind::Other)));
    assert_eq!(chip.get_mac(), Err(Error::SpiError(ErrorKind::Other)));
    assert_eq!(chip.init(), Err(Error::SpiError(ErrorKind::Other)));
}

#[test]
fn set_mac_stops_at_the_failing_write() {
    let mut chip = fresh_chip();
    chip.dev.bus.fail_from = Some(2);
    let r = chip.set_mac([0x10, 0x20, 0x30, 0x40, 0x50, 0x60]);
    assert_eq!(r, Err(Error::SpiError(ErrorKind::Other)));
    // The high and middle registers were written before the failure; the
    // low one was not.
    assert_eq!(chip.dev.bus.reg(0x14), 0x1020);
    assert_eq!(chip.dev.bus.reg(0x12), 0x3040);
    assert_eq!(chip.dev.bus.reg(0x10), 0);
}

#[test]
fn tx_issues_ten_transactions() {
    let mut chip = fresh_chip();
    chip.tx(&[1, 2, 3]).unwrap();
    // Save + clear interrupt mask, open streaming access (read-modify-
    // write), the stream, close streaming access, arm manual enqueue,
    // restore the mask.
    assert_eq!(chip.dev.bus.xfers.len(), 10);
    assert_eq!(chip.dev.bus.xfers[4].0[0], 0xC0, "the stream sits between the bracketing");
}

#[test]
fn tx_aborts_midway_on_transport_error() {
    let mut chip = fresh_chip();
    // Let the critical-section entry and the stream through, then fail.
    chip.dev.bus.fail_from = Some(5);
    assert_eq!(chip.tx(&[1, 2, 3, 4]), Err(Error::SpiError(ErrorKind::Other)));
    assert_eq!(chip.dev.bus.xfers.len(), 5, "aborted where the transport failed");
}
