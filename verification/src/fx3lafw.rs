//! Protocol of the capture firmware: command encoding, firmware-version
//! decoding, and the discovery/session bring-up state machine.
//!
//! The firmware understands a small set of vendor control requests: a
//! version query returning two bytes, and a start-acquisition command
//! whose payload is one flag byte (sample-rate selector and width bits)
//! plus two reserved delay bytes.  Discovery selects the device by its
//! fixed vendor/product pair, programs the capture firmware into it when
//! the resident firmware does not identify itself correctly, and
//! validates the running firmware's version.  The state machine here
//! makes every decision of that bring-up; the caller performs the USB
//! work each emitted action asks for and feeds the outcome back in as
//! the next event.

use vstd::prelude::*;

verus! {

/// Why bring-up or a protocol exchange failed.
#[derive(Debug, Clone, Copy, PartialEq, Eq, Structural)]
pub enum Error {
    /// A control transfer moved fewer bytes than the fixed size of its
    /// payload or response.
    InvalidResponse,
    /// No attached device carries the expected vendor/product pair.
    NoFx3Device,
    /// The firmware image was rejected or its load failed.
    Fx3ProgrammerError(crate::fx3_programmer::Error),
    /// Opening, resetting or configuring the device failed.
    IoError,
    /// The USB transfer layer reported a failure.
    UsbTransferError,
}

/// Vendor control request codes understood by the capture firmware.
#[derive(Debug, Clone, Copy)]
pub enum Command {
    GetFwVersion,
    Start,
    _GetRevIdVersion,
}

pub open spec fn spec_request_code(c: Command) -> u8 {
    match c {
        Command::GetFwVersion => 0xb0,
        Command::Start => 0xb1,
        Command::_GetRevIdVersion => 0xb2,
    }
}

impl Command {
    /// The request byte of the vendor control transfer.
    pub fn request_code(&self) -> (r: u8)
        ensures
            r == spec_request_code(*self),
    {
        match self {
            Command::GetFwVersion => 0xb0,
            Command::Start => 0xb1,
            Command::_GetRevIdVersion => 0xb2,
        }
    }
}

/// The running firmware's version, as reported by the version query.
#[derive(Debug, Clone, Copy, PartialEq, Eq, Structural)]
pub struct VersionInfo {
    pub major: u8,
    pub minor: u8,
}

/// The version query's response is this many bytes.
pub const VERSION_RESPONSE_LEN: usize = 2;

/// Decodes the response of the firmware-version query: byte 0 is the
/// major, byte 1 the minor version.  A response shorter than the fixed
/// two bytes is an invalid response.
pub fn parse_version_response(buffer: &[u8], bytes_read: usize) -> (r: Result<VersionInfo, Error>)
    requires
        buffer@.len() == VERSION_RESPONSE_LEN,
    ensures
        match r {
            Ok(v) => bytes_read == VERSION_RESPONSE_LEN && v.major == buffer@[0] && v.minor
                == buffer@[1],
            Err(e) => bytes_read != VERSION_RESPONSE_LEN && e == Error::InvalidResponse,
        },
{
    if bytes_read != VERSION_RESPONSE_LEN {
        return Err(Error::InvalidResponse);
    }
    Ok(VersionInfo { major: buffer[0], minor: buffer[1] })
}

/// The flag byte of the start-acquisition command.
///
/// Bits 6 and 7 select the sample rate (0 for the lowest supported
/// rate, 1 for the middle, 2 for the highest), bit 5 is set for the
/// 16- and 32-bit sample widths, and bit 3 for the 24- and 32-bit
/// widths.
pub open spec fn spec_encode_start_flags(sample_rate_mhz: usize, sample_size: usize) -> u8 {
    let rate_bits: u8 = if sample_rate_mhz == 30 {
        0x00
    } else if sample_rate_mhz == 48 {
        0x40
    } else {
        0x80
    };
    let wide_bit: u8 = if sample_size == 16 || sample_size == 32 {
        0x20
    } else {
        0x00
    };
    let superwide_bit: u8 = if sample_size == 24 || sample_size == 32 {
        0x08
    } else {
        0x00
    };
    (rate_bits + wide_bit + superwide_bit) as u8
}

/// Encodes sample rate and width into the start command's flag byte.
///
/// The supported value sets are fixed by the firmware; anything else is
/// a caller error, excluded by contract rather than reported.
pub fn encode_start_flags(sample_rate_mhz: usize, sample_size: usize) -> (r: u8)
    requires
        sample_rate_mhz == 30 || sample_rate_mhz == 48 || sample_rate_mhz == 192,
        sample_size == 8 || sample_size == 16 || sample_size == 24 || sample_size == 32,
    ensures
        r == spec_encode_start_flags(sample_rate_mhz, sample_size),
{
    let rate_bits: u8 = if sample_rate_mhz == 30 {
        0x00
    } else if sample_rate_mhz == 48 {
        0x40
    } else {
        0x80
    };
    let wide_bit: u8 = if sample_size == 16 || sample_size == 32 {
        0x20
    } else {
        0x00
    };
    let superwide_bit: u8 = if sample_size == 24 || sample_size == 32 {
        0x08
    } else {
        0x00
    };
    rate_bits + wide_bit + superwide_bit
}

/// The start-acquisition flag byte is a function of rate and width
/// alone: any two encodings of the same parameters are the same byte.
pub proof fn lemma_encode_start_flags_pure(r1: u8, r2: u8, sample_rate_mhz: usize, sample_size: usize)
    requires
        r1 == spec_encode_start_flags(sample_rate_mhz, sample_size),
        r2 == spec_encode_start_flags(sample_rate_mhz, sample_size),
    ensures
        r1 == r2,
{
}

/// The start-acquisition command: the flag byte followed by two
/// reserved sample-delay bytes, sent as a three-byte control payload.
#[derive(Debug, Clone, Copy, PartialEq, Eq, Structural)]
pub struct CmdStartAcquisition {
    pub flags: u8,
    pub sample_delay_h: u8,
    pub sample_delay_l: u8,
}

/// The start command's payload is this many bytes.
pub const START_COMMAND_LEN: usize = 3;

impl CmdStartAcquisition {
    /// Builds the start command for the given rate and width; both
    /// reserved delay bytes are fixed to zero.
    pub fn new(sample_rate_mhz: usize, sample_size: usize) -> (r: CmdStartAcquisition)
        requires
            sample_rate_mhz == 30 || sample_rate_mhz == 48 || sample_rate_mhz == 192,
            sample_size == 8 || sample_size == 16 || sample_size == 24 || sample_size == 32,
        ensures
            r.flags == spec_encode_start_flags(sample_rate_mhz, sample_size),
            r.sample_delay_h == 0,
            r.sample_delay_l == 0,
    {
        CmdStartAcquisition {
            flags: encode_start_flags(sample_rate_mhz, sample_size),
            sample_delay_h: 0,
            sample_delay_l: 0,
        }
    }

    /// The wire form of the command: flags, then the high and low delay
    /// bytes, in that order.
    pub fn to_bytes(&self) -> (r: Vec<u8>)
        ensures
            r@ == seq![self.flags, self.sample_delay_h, self.sample_delay_l],
            r@.len() == START_COMMAND_LEN,
    {
        let mut out: Vec<u8> = Vec::new();
        out.push(self.flags);
        out.push(self.sample_delay_h);
        out.push(self.sample_delay_l);
        proof {
            assert(out@ =~= seq![self.flags, self.sample_delay_h, self.sample_delay_l]);
        }
        out
    }
}

/// Checks the byte count a start-command control transfer reported:
/// anything but the full three-byte payload is an invalid response.
pub fn check_start_response(bytes_written: usize) -> (r: Result<(), Error>)
    ensures
        match r {
            Ok(u) => bytes_written == START_COMMAND_LEN,
            Err(e) => bytes_written != START_COMMAND_LEN && e == Error::InvalidResponse,
        },
{
    if bytes_written != START_COMMAND_LEN {
        return Err(Error::InvalidResponse);
    }
    Ok(())
}

/// The fixed vendor identifier of the target device.
pub const FX3_VENDOR_ID: u16 = 0x04b4;

/// The fixed product identifier of the target device.
pub const FX3_PRODUCT_ID: u16 = 0x00f3;

/// Whether an enumerated device carries the fixed vendor/product pair
/// this bridge targets.
pub fn device_matches(vendor_id: u16, product_id: u16) -> (r: bool)
    ensures
        r == (vendor_id == FX3_VENDOR_ID && product_id == FX3_PRODUCT_ID),
{
    vendor_id == FX3_VENDOR_ID && product_id == FX3_PRODUCT_ID
}

/// The product string a device running the capture firmware reports.
pub open spec fn spec_expected_product() -> Seq<char> {
    "fx3lafw"@
}

/// Whether a device's product string identifies the running capture
/// firmware; a device whose string differs is unprogrammed and gets the
/// firmware loaded first.
pub fn is_expected_product(product: &String) -> (r: bool)
    ensures
        r == (product@ == spec_expected_product()),
{
    let expected: String = "fx3lafw".to_string();
    *product == expected
}

/// A state of device discovery and session bring-up.
#[derive(Debug, Clone, Copy, PartialEq, Eq, Structural)]
pub enum DiscoveryState {
    /// Looking for a device with the fixed vendor/product pair.
    NotFound,
    /// A matching device is present but its product string does not
    /// identify the running capture firmware: it must be programmed.
    FoundUnprogrammed,
    /// The firmware load is in progress on the opened device.
    Programming,
    /// The device has been told to reset; waiting for it to settle and
    /// re-enumerate.
    Resetting,
    /// A device believed to run the capture firmware is present; it is
    /// being opened and its version queried.
    FoundProgrammed,
    /// Terminal success: the firmware's version was read and the device
    /// handle is ready for acquisition.
    VersionChecked,
    /// Terminal failure.
    Failed(Error),
}

/// The outcome of the USB work the caller performed for the last
/// emitted action.
#[derive(Debug, Clone, Copy)]
pub enum DiscoveryEvent {
    /// Enumeration finished: was a device with the fixed vendor/product
    /// pair found, and does its product string identify the running
    /// capture firmware?
    Enumerated { found: bool, product_matches: bool },
    /// Opening the selected device finished.
    Opened { ok: bool },
    /// The firmware load finished.
    Programmed { result: Result<(), crate::fx3_programmer::Error> },
    /// The device reset and the settle delay finished.
    ResetDone { ok: bool },
    /// The version query finished, moving this many response bytes.
    VersionRead { bytes_read: usize },
}

/// The USB work the caller must perform next.
#[derive(Debug, Clone, Copy, PartialEq, Eq, Structural)]
pub enum DiscoveryAction {
    /// Enumerate attached devices and report `Enumerated`.
    Enumerate,
    /// Open the selected device and report `Opened`.
    Open,
    /// Load the capture firmware into the open device and report
    /// `Programmed`.
    Program,
    /// Reset the device, wait the settle delay, and report `ResetDone`.
    ResetAndSettle,
    /// Query the firmware version and report `VersionRead`.
    QueryVersion,
    /// Terminal: stop driving the machine.
    Stop,
}

/// One transition of the bring-up machine: the state reached and the
/// action the caller must perform next.
///
/// Programming is skipped whenever the resident firmware already
/// identifies itself correctly, and is only reached through
/// `FoundUnprogrammed` after an enumeration reported a mismatching
/// product string.  After programming, the device is reset and
/// enumeration is repeated; failing to find the device again is
/// terminal.  An event that does not belong to the current state leaves
/// the state unchanged and stops the run.
pub open spec fn spec_discovery_step(state: DiscoveryState, event: DiscoveryEvent) -> (
    DiscoveryState,
    DiscoveryAction,
) {
    match (state, event) {
        (DiscoveryState::NotFound, DiscoveryEvent::Enumerated { found, product_matches }) => {
            if !found {
                (DiscoveryState::Failed(Error::NoFx3Device), DiscoveryAction::Stop)
            } else if product_matches {
                (DiscoveryState::FoundProgrammed, DiscoveryAction::Open)
            } else {
                (DiscoveryState::FoundUnprogrammed, DiscoveryAction::Open)
            }
        },
        (DiscoveryState::FoundUnprogrammed, DiscoveryEvent::Opened { ok }) => {
            if ok {
                (DiscoveryState::Programming, DiscoveryAction::Program)
            } else {
                (DiscoveryState::Failed(Error::IoError), DiscoveryAction::Stop)
            }
        },
        (DiscoveryState::Programming, DiscoveryEvent::Programmed { result }) => {
            match result {
                Ok(u) => (DiscoveryState::Resetting, DiscoveryAction::ResetAndSettle),
                Err(e) => (
                    DiscoveryState::Failed(Error::Fx3ProgrammerError(e)),
                    DiscoveryAction::Stop,
                ),
            }
        },
        (DiscoveryState::Resetting, DiscoveryEvent::ResetDone { ok }) => {
            if ok {
                (DiscoveryState::Resetting, DiscoveryAction::Enumerate)
            } else {
                (DiscoveryState::Failed(Error::IoError), DiscoveryAction::Stop)
            }
        },
        (DiscoveryState::Resetting, DiscoveryEvent::Enumerated { found, product_matches }) => {
            if found {
                (DiscoveryState::FoundProgrammed, DiscoveryAction::Open)
            } else {
                (DiscoveryState::Failed(Error::NoFx3Device), DiscoveryAction::Stop)
            }
        },
        (DiscoveryState::FoundProgrammed, DiscoveryEvent::Opened { ok }) => {
            if ok {
                (DiscoveryState::FoundProgrammed, DiscoveryAction::QueryVersion)
            } else {
                (DiscoveryState::Failed(Error::IoError), DiscoveryAction::Stop)
            }
        },
        (DiscoveryState::FoundProgrammed, DiscoveryEvent::VersionRead { bytes_read }) => {
            if bytes_read == VERSION_RESPONSE_LEN {
                (DiscoveryState::VersionChecked, DiscoveryAction::Stop)
            } else {
                (DiscoveryState::Failed(Error::InvalidResponse), DiscoveryAction::Stop)
            }
        },
        (s, _) => (s, DiscoveryAction::Stop),
    }
}

/// The initial state of a bring-up run and its first action.
pub fn discovery_start() -> (r: (DiscoveryState, DiscoveryAction))
    ensures
        r.0 == DiscoveryState::NotFound,
        r.1 == DiscoveryAction::Enumerate,
{
    (DiscoveryState::NotFound, DiscoveryAction::Enumerate)
}

/// Performs one transition of the bring-up machine.
pub fn discovery_step(state: DiscoveryState, event: DiscoveryEvent) -> (r: (
    DiscoveryState,
    DiscoveryAction,
))
    ensures
        r == spec_discovery_step(state, event),
{
    match (state, event) {
        (DiscoveryState::NotFound, DiscoveryEvent::Enumerated { found, product_matches }) => {
            if !found {
                (DiscoveryState::Failed(Error::NoFx3Device), DiscoveryAction::Stop)
            } else if product_matches {
                (DiscoveryState::FoundProgrammed, DiscoveryAction::Open)
            } else {
                (DiscoveryState::FoundUnprogrammed, DiscoveryAction::Open)
            }
        },
        (DiscoveryState::FoundUnprogrammed, DiscoveryEvent::Opened { ok }) => {
            if ok {
                (DiscoveryState::Programming, DiscoveryAction::Program)
            } else {
                (DiscoveryState::Failed(Error::IoError), DiscoveryAction::Stop)
            }
        },
        (DiscoveryState::Programming, DiscoveryEvent::Programmed { result }) => {
            match result {
                Ok(u) => (DiscoveryState::Resetting, DiscoveryAction::ResetAndSettle),
                Err(e) => (
                    DiscoveryState::Failed(Error::Fx3ProgrammerError(e)),
                    DiscoveryAction::Stop,
                ),
            }
        },
        (DiscoveryState::Resetting, DiscoveryEvent::ResetDone { ok }) => {
            if ok {
                (DiscoveryState::Resetting, DiscoveryAction::Enumerate)
            } else {
                (DiscoveryState::Failed(Error::IoError), DiscoveryAction::Stop)
            }
        },
        (DiscoveryState::Resetting, DiscoveryEvent::Enumerated { found, product_matches: _ }) => {
            if found {
                (DiscoveryState::FoundProgrammed, DiscoveryAction::Open)
            } else {
                (DiscoveryState::Failed(Error::NoFx3Device), DiscoveryAction::Stop)
            }
        },
        (DiscoveryState::FoundProgrammed, DiscoveryEvent::Opened { ok }) => {
            if ok {
                (DiscoveryState::FoundProgrammed, DiscoveryAction::QueryVersion)
            } else {
                (DiscoveryState::Failed(Error::IoError), DiscoveryAction::Stop)
            }
        },
        (DiscoveryState::FoundProgrammed, DiscoveryEvent::VersionRead { bytes_read }) => {
            if bytes_read == VERSION_RESPONSE_LEN {
                (DiscoveryState::VersionChecked, DiscoveryAction::Stop)
            } else {
                (DiscoveryState::Failed(Error::InvalidResponse), DiscoveryAction::Stop)
            }
        },
        (s, _) => (s, DiscoveryAction::Stop),
    }
}

/// The actions a bring-up run emits from `state` under `events`, in
/// order.
pub open spec fn spec_discovery_run(state: DiscoveryState, events: Seq<DiscoveryEvent>) -> Seq<
    DiscoveryAction,
>
    decreases events.len(),
{
    if events.len() == 0 {
        Seq::empty()
    } else {
        let sa = spec_discovery_step(state, events[0]);
        seq![sa.1] + spec_discovery_run(sa.0, events.skip(1))
    }
}

/// Bring-up is idempotent with respect to programming: when the
/// resident firmware already identifies itself correctly — every
/// enumeration reports a matching product string — a run started
/// anywhere outside `FoundUnprogrammed` never emits a `Program` action,
/// so a second discovery performs zero programming transfers.
pub proof fn lemma_discovery_skips_programming(state: DiscoveryState, events: Seq<DiscoveryEvent>)
    requires
        state != DiscoveryState::FoundUnprogrammed,
        forall|i: int|
            0 <= i < events.len() ==> ((#[trigger] events[i]) matches DiscoveryEvent::Enumerated {
                found,
                product_matches,
            } ==> product_matches),
    ensures
        forall|j: int|
            0 <= j < spec_discovery_run(state, events).len() ==> (#[trigger] spec_discovery_run(
                state,
                events,
            )[j]) != DiscoveryAction::Program,
    decreases events.len(),
{
    if events.len() == 0 {
    } else {
        let sa = spec_discovery_step(state, events[0]);
        assert(events[0] matches DiscoveryEvent::Enumerated { found, product_matches }
            ==> product_matches);
        assert(sa.0 != DiscoveryState::FoundUnprogrammed);
        assert(sa.1 != DiscoveryAction::Program);
        assert(forall|i: int|
            0 <= i < events.skip(1).len() ==> ((#[trigger] events.skip(1)[i])
                matches DiscoveryEvent::Enumerated { found, product_matches }
                ==> product_matches));
        lemma_discovery_skips_programming(sa.0, events.skip(1));
        let run = spec_discovery_run(state, events);
        let rest = spec_discovery_run(sa.0, events.skip(1));
        assert forall|j: int| 0 <= j < run.len() implies (#[trigger] run[j])
            != DiscoveryAction::Program by {
            if j > 0 {
                assert(run[j] == rest[j - 1]);
            }
        }
    }
}

/// This many bulk read requests are kept in flight.
pub const TRANSFER_COUNT: usize = 16;

/// Each bulk read request asks for this many bytes.
pub const TRANSFER_SIZE: usize = 1024 * 1024;

#[verifier::external_type_specification]
#[verifier::external_body]
#[verifier::reject_recursive_types(T)]
pub struct ExReceiver<T>(std::sync::mpsc::Receiver<T>);

/// Relies on `std::sync::mpsc::Receiver::recv`: blocks until the
/// producer thread sends the next raw buffer, and returns nothing once
/// the channel is empty and every sending side has been dropped.
/// Nothing is assumed of the value received.
#[verifier::external_body]
fn recv_chunk(rx: &std::sync::mpsc::Receiver<Vec<u8>>) -> (r: Option<Vec<u8>>) {
    rx.recv().ok()
}

/// The producer loop's decision for one completed transfer.
#[derive(Debug, Clone, Copy, PartialEq, Eq, Structural)]
pub enum ProducerAction {
    /// Exit the loop; submit no further request.
    Exit,
    /// Resubmit one request of the same size, add `samples` to the
    /// recorded counter, and hand the completed buffer to the consumer.
    Deliver { samples: u64 },
}

/// The producer's decision: exit as soon as the stop flag was observed
/// set or the completion reported an error (end of stream, not
/// retried); otherwise keep the queue depth constant and count
/// `transfer_size / sample_bytes` newly recorded samples.
pub open spec fn spec_producer_step(
    stop_requested: bool,
    completion_ok: bool,
    transfer_size: usize,
    sample_bytes: usize,
) -> ProducerAction {
    if stop_requested || !completion_ok {
        ProducerAction::Exit
    } else {
        ProducerAction::Deliver { samples: (transfer_size / sample_bytes) as u64 }
    }
}

/// Decides one iteration of the producer loop.
pub fn producer_step(
    stop_requested: bool,
    completion_ok: bool,
    transfer_size: usize,
    sample_bytes: usize,
) -> (r: ProducerAction)
    requires
        1 <= sample_bytes,
    ensures
        r == spec_producer_step(stop_requested, completion_ok, transfer_size, sample_bytes),
{
    if stop_requested || !completion_ok {
        ProducerAction::Exit
    } else {
        ProducerAction::Deliver { samples: (transfer_size / sample_bytes) as u64 }
    }
}

/// Cooperative stop: once the stop flag is observed set, the producer's
/// decision is to exit, whatever the last completion reported, so no
/// further transfer is submitted after that observation; the loop
/// checks the flag once per iteration, so at most the one cycle already
/// under way completes after the flag is set.
pub proof fn lemma_stop_halts_producer(
    completion_ok: bool,
    transfer_size: usize,
    sample_bytes: usize,
)
    ensures
        spec_producer_step(true, completion_ok, transfer_size, sample_bytes)
            == ProducerAction::Exit,
{
}

/// The actions of a whole producer run, one iteration per observation
/// of the stop flag and the awaited completion's status, ending with
/// the first `Exit`.
pub open spec fn spec_producer_run(
    obs: Seq<(bool, bool)>,
    transfer_size: usize,
    sample_bytes: usize,
) -> Seq<ProducerAction>
    decreases obs.len(),
{
    if obs.len() == 0 {
        Seq::empty()
    } else {
        let a = spec_producer_step(obs[0].0, obs[0].1, transfer_size, sample_bytes);
        if a is Exit {
            seq![a]
        } else {
            seq![a] + spec_producer_run(obs.skip(1), transfer_size, sample_bytes)
        }
    }
}

/// Cooperative stop over a whole run: the flag is checked once per
/// iteration, so when it is observed set at iteration `i`, the producer
/// performs at most `i` more delivery cycles in total — after the
/// observation it submits nothing further.
pub proof fn lemma_stop_bounds_deliveries(
    obs: Seq<(bool, bool)>,
    transfer_size: usize,
    sample_bytes: usize,
    i: int,
)
    requires
        0 <= i < obs.len(),
        obs[i].0,
    ensures
        spec_producer_run(obs, transfer_size, sample_bytes).len() <= i + 1,
    decreases i,
{
    let a = spec_producer_step(obs[0].0, obs[0].1, transfer_size, sample_bytes);
    if !(a is Exit) {
        assert(!obs[0].0);
        assert(i > 0);
        assert(obs.skip(1)[i - 1].0);
        lemma_stop_bounds_deliveries(obs.skip(1), transfer_size, sample_bytes, i - 1);
    }
}

/// The consumer half of one running capture: raw buffers arrive in
/// submission order over `read_channel`, and are decoded into sample
/// words of `sample_bytes` bytes each, little-endian, through a cursor
/// over the most recently received buffer.
///
/// `stop` asks the producer to stop after its current cycle; `recorded`
/// counts the samples of every completed transfer, updated only by the
/// producer.
pub struct AcquisitionHandle {
    pub read_channel: std::sync::mpsc::Receiver<Vec<u8>>,
    pub stop: std::sync::Arc<std::sync::atomic::AtomicBool>,
    pub sample_bytes: usize,
    pub current_chunk: Vec<u8>,
    pub current_chunk_index: usize,
    pub recorded: std::sync::Arc<std::sync::atomic::AtomicU64>,
}

impl AcquisitionHandle {
    /// The decode cursor stays inside the current buffer and the sample
    /// width is one of the supported byte widths.
    pub open spec fn wf(&self) -> bool {
        &&& 1 <= self.sample_bytes <= 4
        &&& self.current_chunk_index <= self.current_chunk@.len()
    }

    /// Builds the handle around the receiving end of the producer's
    /// channel, with an empty decode cursor.
    pub fn new(
        read_channel: std::sync::mpsc::Receiver<Vec<u8>>,
        stop: std::sync::Arc<std::sync::atomic::AtomicBool>,
        recorded: std::sync::Arc<std::sync::atomic::AtomicU64>,
        sample_bytes: usize,
    ) -> (r: AcquisitionHandle)
        requires
            1 <= sample_bytes <= 4,
        ensures
            r.wf(),
            r.sample_bytes == sample_bytes,
            r.current_chunk@.len() == 0,
            r.current_chunk_index == 0,
            r.stop == stop,
            r.recorded == recorded,
    {
        AcquisitionHandle {
            read_channel,
            stop,
            sample_bytes,
            current_chunk: Vec::new(),
            current_chunk_index: 0,
            recorded,
        }
    }

    /// Asks the producer to stop: it observes the flag once per loop
    /// iteration and then submits no further transfer.
    pub fn request_stop(&self) {
        self.stop.store(true, std::sync::atomic::Ordering::Relaxed);
    }

    /// Samples recorded so far, as counted by the producer over
    /// completed transfers.
    pub fn recorded_samples(&self) -> u64 {
        self.recorded.load(std::sync::atomic::Ordering::Relaxed)
    }

    /// The next sample word, or nothing once the stream has ended.
    ///
    /// While the current buffer still holds a whole word, that word is
    /// decoded and the cursor advances — that path is exact below.
    /// Otherwise any trailing run shorter than one word is discarded
    /// and one receive is attempted: end of stream is reported when the
    /// channel is closed and drained, or if a received buffer is
    /// shorter than a single word.
    pub fn next(&mut self) -> (r: Option<u32>)
        requires
            old(self).wf(),
        ensures
            final(self).wf(),
            final(self).sample_bytes == old(self).sample_bytes,
            final(self).stop == old(self).stop,
            final(self).recorded == old(self).recorded,
            final(self).read_channel == old(self).read_channel,
            old(self).current_chunk_index + old(self).sample_bytes
                <= old(self).current_chunk@.len() ==> ({
                let start = old(self).current_chunk_index as int;
                let width = old(self).sample_bytes as int;
                &&& final(self).current_chunk@ == old(self).current_chunk@
                &&& final(self).current_chunk_index == start + width
                &&& r == Some(
                    (crate::words::le_value(
                        old(self).current_chunk@.subrange(start, start + width),
                    ) as u32),
                )
            }),
            r matches Some(w) ==> ({
                let stop_at = final(self).current_chunk_index as int;
                let width = final(self).sample_bytes as int;
                &&& width <= stop_at <= final(self).current_chunk@.len()
                &&& w == crate::words::le_value(
                    final(self).current_chunk@.subrange(stop_at - width, stop_at),
                ) as u32
            }),
            r is None ==> final(self).current_chunk@.len() - final(self).current_chunk_index
                < final(self).sample_bytes,
    {
        let sb = self.sample_bytes;
        if self.current_chunk.len() - self.current_chunk_index < sb {
            match recv_chunk(&self.read_channel) {
                None => {
                    return None;
                },
                Some(chunk) => {
                    self.current_chunk = chunk;
                    self.current_chunk_index = 0;
                },
            }
            if self.current_chunk.len() < sb {
                return None;
            }
        }
        let w = crate::words::decode_word(self.current_chunk.as_slice(), self.current_chunk_index, sb);
        self.current_chunk_index = self.current_chunk_index + sb;
        proof {
            crate::words::lemma_le_value_bound(
                self.current_chunk@.subrange(
                    self.current_chunk_index - sb,
                    self.current_chunk_index as int,
                ),
            );
            crate::words::lemma_pow256_values();
        }
        Some(w)
    }
}

} // verus!
