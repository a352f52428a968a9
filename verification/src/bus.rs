//! The transport port.
//!
//! The chip is reached over a full-duplex serial link that the embedding
//! program owns. The driver sees it through the [`Bus`] trait: one method
//! that performs a single transaction (write some bytes, then read some
//! bytes) and a ghost transcript of every transaction performed. All driver
//! contracts are stated over that transcript. A timing source is the second
//! port, [`Delay`], with a transcript of the pauses taken.
use vstd::prelude::*;

verus! {

/// Declares embedded-hal's SPI error classification so that it can be held
/// in this crate's error type. The driver never inspects such a value: it is
/// carried from the transport to the caller unchanged.
#[verifier::external_type_specification]
#[verifier::external_body]
pub struct ExErrorKind(embedded_hal::spi::ErrorKind);

/// One completed bus transaction: the bytes shifted out, then the bytes
/// shifted in.
pub struct Xfer {
    /// Every byte written in this transaction, in order.
    pub sent: Seq<u8>,
    /// Every byte read in this transaction, in order.
    pub rcvd: Seq<u8>,
}

/// The transcript a bus carries: what [`Bus::log`] returns. An implementor
/// outside this crate names the type through this alias; the transcript is
/// ghost state, so its accessor is never called at runtime.
pub type BusLog = Seq<Xfer>;

/// The transcript a timing source carries: what [`Delay::slept`] returns.
pub type DelayLog = Seq<u32>;

/// The serial transport. The embedding program implements this for its SPI
/// device; the chip must be the only slave behind it.
///
/// A transaction is modelled as all-or-nothing: a failed call reports the
/// transport's own error and leaves the transcript unchanged. A transport
/// that can fail part-way through a transaction leaves the chip in an
/// unknown state; that gap is the transport's to report, not this model's
/// to describe.
pub trait Bus: Sized {
    /// Ghost transcript of every transaction performed so far.
    spec fn log(&self) -> Seq<Xfer>;

    /// Perform one transaction: write all of `data_out`, then read exactly
    /// `read_len` bytes.
    fn transfer(&mut self, data_out: &Vec<u8>, read_len: usize) -> (r: Result<
        Vec<u8>,
        embedded_hal::spi::ErrorKind,
    >)
        ensures
            match r {
                Result::Ok(rcvd) => rcvd@.len() == read_len && final(self).log() == old(self).log()
                    .push((Xfer { sent: data_out@, rcvd: rcvd@ })),
                Result::Err(_) => final(self).log() == old(self).log(),
            },
    ;
}

/// The timing source: a blocking millisecond pause.
pub trait Delay: Sized {
    /// Ghost transcript of every pause taken, in milliseconds.
    spec fn slept(&self) -> Seq<u32>;

    /// Pause for `ms` milliseconds.
    fn delay_ms(&mut self, ms: u32)
        ensures
            final(self).slept() == old(self).slept().push(ms),
    ;
}

} // verus!
