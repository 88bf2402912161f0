//! Decisions taken by the firmware's endpoint handlers around the hardware
//! accesses: request validation, error mapping, the I2C scan, and the
//! validation and buffer layout of batched bus operations.
use vstd::prelude::*;

use crate::wire::MAX_TRANSFER_SIZE;

verus! {

/// Number of GPIO pins under host control.
pub const NUM_GPIOS: usize = 4;

/// Number of ADC channels on GPIO pins.
pub const NUM_ADC_GPIO_CHANNELS: usize = 4;

/// First standard (non-reserved) 7-bit I2C address.
pub const I2C_ADDR_FIRST: u8 = 0x08;

/// Last standard (non-reserved) 7-bit I2C address.
pub const I2C_ADDR_LAST: u8 = 0x77;

/// I2C errors reported to the host.
#[derive(Debug, Clone, Copy, PartialEq, Eq, Structural)]
pub enum I2cError {
    NoAcknowledge,
    ArbitrationLoss,
    Overrun,
    Bus,
    BufferTooLong,
    AddressOutOfRange,
    Other,
}

/// SPI errors reported to the host.
#[derive(Debug, Clone, Copy, PartialEq, Eq, Structural)]
pub enum SpiError {
    BufferTooLong,
    Other,
}

/// UART errors reported to the host.
#[derive(Debug, Clone, Copy, PartialEq, Eq, Structural)]
pub enum UartError {
    BufferTooLong,
    InvalidBaudRate,
    Other,
    Unsupported,
}

/// 1-Wire errors reported to the host.
#[derive(Debug, Clone, Copy, PartialEq, Eq, Structural)]
pub enum OneWireError {
    BufferTooLong,
    Unsupported,
}

/// Why the I2C controller aborted a transfer.
#[derive(Debug, Clone, Copy, PartialEq, Eq, Structural)]
pub enum I2cAbortReason {
    /// The addressed device did not acknowledge.
    NoAcknowledge,
    /// Another controller won the bus.
    ArbitrationLoss,
    /// Transmit data was left over (with the remaining count).
    TxNotEmpty(u16),
    /// Any other abort source (with the raw abort register).
    Other(u32),
}

/// Failure of an I2C transfer, as the controller driver reports it.
#[derive(Debug, Clone, Copy, PartialEq, Eq, Structural)]
pub enum I2cBusFault {
    Abort(I2cAbortReason),
    InvalidReadBufferLength,
    InvalidWriteBufferLength,
    AddressOutOfRange(u16),
    AddressReserved(u16),
}

/// The wire error for a driver failure.
pub open spec fn i2c_error_of(e: I2cBusFault) -> I2cError {
    match e {
        I2cBusFault::Abort(I2cAbortReason::NoAcknowledge) => I2cError::NoAcknowledge,
        I2cBusFault::Abort(I2cAbortReason::ArbitrationLoss) => I2cError::ArbitrationLoss,
        I2cBusFault::Abort(I2cAbortReason::TxNotEmpty(_)) => I2cError::Overrun,
        I2cBusFault::Abort(I2cAbortReason::Other(_)) => I2cError::Bus,
        I2cBusFault::InvalidReadBufferLength => I2cError::BufferTooLong,
        I2cBusFault::InvalidWriteBufferLength => I2cError::BufferTooLong,
        I2cBusFault::AddressOutOfRange(_) => I2cError::AddressOutOfRange,
        I2cBusFault::AddressReserved(_) => I2cError::AddressOutOfRange,
    }
}

/// Maps an I2C driver failure to the wire protocol error type.
pub fn map_i2c_error(e: I2cBusFault) -> (r: I2cError)
    ensures
        r == i2c_error_of(e),
{
    match e {
        I2cBusFault::Abort(I2cAbortReason::NoAcknowledge) => I2cError::NoAcknowledge,
        I2cBusFault::Abort(I2cAbortReason::ArbitrationLoss) => I2cError::ArbitrationLoss,
        I2cBusFault::Abort(I2cAbortReason::TxNotEmpty(_)) => I2cError::Overrun,
        I2cBusFault::Abort(I2cAbortReason::Other(_)) => I2cError::Bus,
        I2cBusFault::InvalidReadBufferLength => I2cError::BufferTooLong,
        I2cBusFault::InvalidWriteBufferLength => I2cError::BufferTooLong,
        I2cBusFault::AddressOutOfRange(_) => I2cError::AddressOutOfRange,
        I2cBusFault::AddressReserved(_) => I2cError::AddressOutOfRange,
    }
}

/// ADC channels on GPIO pins.
#[derive(Debug, Clone, Copy, PartialEq, Eq, Structural)]
pub enum AdcChannel {
    Adc0,
    Adc1,
    Adc2,
    Adc3,
}

/// Map an [`AdcChannel`] variant to the index of its converter input.
pub fn adc_channel_index(channel: AdcChannel) -> (i: usize)
    ensures
        i == match channel {
            AdcChannel::Adc0 => 0usize,
            AdcChannel::Adc1 => 1usize,
            AdcChannel::Adc2 => 2usize,
            AdcChannel::Adc3 => 3usize,
        },
        i < NUM_ADC_GPIO_CHANNELS,
{
    match channel {
        AdcChannel::Adc0 => 0,
        AdcChannel::Adc1 => 1,
        AdcChannel::Adc2 => 2,
        AdcChannel::Adc3 => 3,
    }
}

/// The number of bytes a read or transfer of `count` bytes uses in the
/// shared transfer buffer, or `None` when it does not fit.
pub fn transfer_len(count: usize) -> (r: Option<usize>)
    ensures
        r == if count <= MAX_TRANSFER_SIZE {
            Some(count)
        } else {
            None::<usize>
        },
{
    if count > MAX_TRANSFER_SIZE {
        None
    } else {
        Some(count)
    }
}

/// The number of bytes a UART read of up to `count` bytes asks for: at most
/// the transfer buffer.
pub fn uart_read_len(count: u16) -> (n: usize)
    ensures
        n == if (count as usize) <= MAX_TRANSFER_SIZE {
            count as usize
        } else {
            MAX_TRANSFER_SIZE
        },
{
    let c = count as usize;
    if c <= MAX_TRANSFER_SIZE {
        c
    } else {
        MAX_TRANSFER_SIZE
    }
}

/// Highest SPI clock the peripheral can produce: half the 150 MHz
/// peripheral clock.
pub const SPI_MAX_FREQUENCY_HZ: u32 = 75_000_000;

/// Validation of `spi/set-config`: the peripheral needs a non-zero frequency
/// no greater than [`SPI_MAX_FREQUENCY_HZ`].
pub fn check_spi_frequency(frequency: u32) -> (r: Result<(), SpiError>)
    ensures
        r == if frequency == 0 || frequency > SPI_MAX_FREQUENCY_HZ {
            Err::<(), SpiError>(SpiError::Other)
        } else {
            Ok::<(), SpiError>(())
        },
{
    if frequency == 0 || frequency > SPI_MAX_FREQUENCY_HZ {
        Err(SpiError::Other)
    } else {
        Ok(())
    }
}

/// Validation of `uart/set-config`: the baud rate must be non-zero.
pub fn check_uart_baud_rate(baud_rate: u32) -> (r: Result<(), UartError>)
    ensures
        r == if baud_rate == 0 {
            Err::<(), UartError>(UartError::InvalidBaudRate)
        } else {
            Ok::<(), UartError>(())
        },
{
    if baud_rate == 0 {
        Err(UartError::InvalidBaudRate)
    } else {
        Ok(())
    }
}

/// The inclusive address range an I2C scan probes: all 7-bit addresses, or
/// only the non-reserved ones.
pub fn i2c_scan_range(include_reserved: bool) -> (r: (u8, u8))
    ensures
        r == if include_reserved {
            (0x00u8, 0x7Fu8)
        } else {
            (I2C_ADDR_FIRST, I2C_ADDR_LAST)
        },
{
    if include_reserved {
        (0x00u8, 0x7Fu8)
    } else {
        (I2C_ADDR_FIRST, I2C_ADDR_LAST)
    }
}

/// The addresses that acknowledged during an I2C scan.
pub struct I2cScan {
    found: Vec<u8>,
}

impl I2cScan {
    /// The addresses recorded so far, in probing order.
    pub closed spec fn found(self) -> Seq<u8> {
        self.found@
    }

    /// A scan that has found nothing yet.
    pub fn new() -> (s: Self)
        ensures
            s.found() == Seq::<u8>::empty(),
    {
        I2cScan { found: Vec::new() }
    }

    /// Record the outcome of probing `addr`. Returns `false` when the scan
    /// has to stop because the response buffer is full.
    pub fn record(&mut self, addr: u8, acked: bool) -> (go_on: bool)
        ensures
            !acked ==> go_on && final(self).found() == old(self).found(),
            acked && old(self).found().len() >= MAX_TRANSFER_SIZE ==> !go_on && final(self).found()
                == old(self).found(),
            acked && old(self).found().len() < MAX_TRANSFER_SIZE ==> go_on && final(self).found()
                == old(self).found().push(addr),
    {
        if !acked {
            return true;
        }
        if self.found.len() >= MAX_TRANSFER_SIZE {
            return false;
        }
        self.found.push(addr);
        true
    }

    /// The addresses recorded, in probing order.
    pub fn addresses(&self) -> (v: &Vec<u8>)
        ensures
            v@ == self.found(),
    {
        &self.found
    }
}

// ---------------------------------------------------------------------------
// Batched bus operations
// ---------------------------------------------------------------------------

/// One operation of an I2C or SPI batch, as far as validation needs it.
#[derive(Debug, Clone, Copy, PartialEq, Eq, Structural)]
pub enum BatchOp {
    /// Read `len` bytes into the response buffer.
    Read { len: usize },
    /// Write `len` bytes.
    Write { len: usize },
    /// Full-duplex transfer of `len` bytes (SPI only).
    Transfer { len: usize },
    /// Wait `ns` nanoseconds (SPI only).
    DelayNs { ns: u32 },
}

/// Why a batch request was refused before any bus activity.
#[derive(Debug, Clone, Copy, PartialEq, Eq, Structural)]
pub enum BatchRejection {
    /// More operations announced than a batch may hold.
    TooManyOps,
    /// The operation at index `at` could not be decoded.
    Malformed { at: u16 },
    /// The number of decoded operations differs from the announced count.
    CountMismatch,
    /// The operations read more than the response buffer holds.
    TooMuchData,
}

/// An I2C batch error: the index of the failed operation and the error.
#[derive(Debug, Clone, Copy, PartialEq, Eq, Structural)]
pub struct I2cBatchError {
    pub failed_op: u16,
    pub kind: I2cError,
}

/// An SPI batch error: the index of the failed operation and the error.
#[derive(Debug, Clone, Copy, PartialEq, Eq, Structural)]
pub struct SpiBatchError {
    pub failed_op: u16,
    pub kind: SpiError,
}

/// The number of response bytes an operation produces.
pub open spec fn read_len(op: BatchOp) -> nat {
    match op {
        BatchOp::Read { len } => len as nat,
        BatchOp::Transfer { len } => len as nat,
        _ => 0,
    }
}

/// The number of response bytes a sequence of operations produces.
pub open spec fn total_read(ops: Seq<BatchOp>) -> nat
    decreases ops.len(),
{
    if ops.len() == 0 {
        0
    } else {
        total_read(ops.drop_last()) + read_len(ops.last())
    }
}

/// The verdict on a batch: `count` operations announced, at most `max_ops`
/// allowed, `ops` decoded from the payload, and `malformed` when decoding
/// stopped at an operation that could not be decoded (the one after the
/// last of `ops`). On success, the number of response bytes.
pub open spec fn batch_verdict(count: u16, max_ops: usize, ops: Seq<BatchOp>, malformed: bool) -> Result<nat, BatchRejection> {
    if count as usize > max_ops {
        Err(BatchRejection::TooManyOps)
    } else if malformed {
        Err(BatchRejection::Malformed { at: ops.len() as u16 })
    } else if ops.len() != count as nat {
        Err(BatchRejection::CountMismatch)
    } else if total_read(ops) > MAX_TRANSFER_SIZE {
        Err(BatchRejection::TooMuchData)
    } else {
        Ok(total_read(ops))
    }
}

proof fn lemma_total_read_monotone(ops: Seq<BatchOp>, i: int)
    requires
        0 <= i <= ops.len(),
    ensures
        total_read(ops.take(i)) <= total_read(ops),
    decreases ops.len() - i,
{
    if i < ops.len() {
        lemma_total_read_monotone(ops, i + 1);
        assert(ops.take(i + 1).drop_last() =~= ops.take(i));
    } else {
        assert(ops.take(i) =~= ops);
    }
}

/// Pre-validate a batch before touching the bus: the operation count, the
/// decoding of the operations, and the size of the response.
pub fn validate_batch(count: u16, max_ops: usize, ops: &Vec<BatchOp>, malformed: bool) -> (r: Result<usize, BatchRejection>)
    ensures
        match batch_verdict(count, max_ops, ops@, malformed) {
            Ok(n) => r == Ok::<usize, BatchRejection>(n as usize),
            Err(e) => r == Err::<usize, BatchRejection>(e),
        },
{
    if count as usize > max_ops {
        return Err(BatchRejection::TooManyOps);
    }
    if malformed {
        return Err(BatchRejection::Malformed { at: (#[verifier::truncate] (ops.len() as u16)) });
    }
    if ops.len() != count as usize {
        return Err(BatchRejection::CountMismatch);
    }
    // Sum the response bytes, stopping as soon as the buffer would overflow.
    let mut total: usize = 0;
    let mut i: usize = 0;
    while i < ops.len()
        invariant
            0 <= i <= ops@.len(),
            total == total_read(ops@.take(i as int)),
            total <= MAX_TRANSFER_SIZE,
            !malformed,
            ops@.len() == count as nat,
            count as usize <= max_ops,
        decreases ops@.len() - i,
    {
        proof {
            assert(ops@.take(i + 1).drop_last() =~= ops@.take(i as int));
        }
        let n = match ops[i] {
            BatchOp::Read { len } => len,
            BatchOp::Transfer { len } => len,
            _ => 0,
        };
        proof {
            assert(ops@.take(i + 1).last() == ops@[i as int]);
            assert(n == read_len(ops@[i as int]));
            assert(total_read(ops@.take(i + 1)) == total + n);
        }
        if n > MAX_TRANSFER_SIZE - total {
            proof {
                lemma_total_read_monotone(ops@, i + 1);
                assert(total_read(ops@) > MAX_TRANSFER_SIZE);
                assert(!malformed);
                assert(ops@.len() == count as nat);
                assert(count as usize <= max_ops);
            }
            return Err(BatchRejection::TooMuchData);
        }
        total = total + n;
        i += 1;
    }
    proof {
        assert(ops@.take(i as int) =~= ops@);
    }
    Ok(total)
}

impl BatchRejection {
    /// The error an I2C batch answers with.
    pub fn to_i2c_error(self) -> (e: I2cBatchError)
        ensures
            e == match self {
                BatchRejection::TooManyOps => I2cBatchError { failed_op: 0, kind: I2cError::BufferTooLong },
                BatchRejection::Malformed { at } => I2cBatchError { failed_op: at, kind: I2cError::Other },
                BatchRejection::CountMismatch => I2cBatchError { failed_op: 0, kind: I2cError::Other },
                BatchRejection::TooMuchData => I2cBatchError { failed_op: 0, kind: I2cError::BufferTooLong },
            },
    {
        match self {
            BatchRejection::TooManyOps => I2cBatchError { failed_op: 0, kind: I2cError::BufferTooLong },
            BatchRejection::Malformed { at } => I2cBatchError { failed_op: at, kind: I2cError::Other },
            BatchRejection::CountMismatch => I2cBatchError { failed_op: 0, kind: I2cError::Other },
            BatchRejection::TooMuchData => I2cBatchError { failed_op: 0, kind: I2cError::BufferTooLong },
        }
    }

    /// The error an SPI batch answers with.
    pub fn to_spi_error(self) -> (e: SpiBatchError)
        ensures
            e == match self {
                BatchRejection::TooManyOps => SpiBatchError { failed_op: 0, kind: SpiError::BufferTooLong },
                BatchRejection::Malformed { at } => SpiBatchError { failed_op: at, kind: SpiError::Other },
                BatchRejection::CountMismatch => SpiBatchError { failed_op: 0, kind: SpiError::Other },
                BatchRejection::TooMuchData => SpiBatchError { failed_op: 0, kind: SpiError::BufferTooLong },
            },
    {
        match self {
            BatchRejection::TooManyOps => SpiBatchError { failed_op: 0, kind: SpiError::BufferTooLong },
            BatchRejection::Malformed { at } => SpiBatchError { failed_op: at, kind: SpiError::Other },
            BatchRejection::CountMismatch => SpiBatchError { failed_op: 0, kind: SpiError::Other },
            BatchRejection::TooMuchData => SpiBatchError { failed_op: 0, kind: SpiError::BufferTooLong },
        }
    }
}

/// Where each operation of an accepted batch puts its response bytes: the
/// offset into the response buffer at which operation `i` starts, which is
/// the number of bytes the operations before it produce.
pub fn response_offsets(ops: &Vec<BatchOp>) -> (offsets: Vec<usize>)
    requires
        total_read(ops@) <= MAX_TRANSFER_SIZE,
    ensures
        offsets@.len() == ops@.len(),
        forall|i: int| 0 <= i < ops@.len() ==> #[trigger] offsets@[i] == total_read(ops@.take(i)),
        forall|i: int| 0 <= i < ops@.len() ==> offsets@[i] + read_len(#[trigger] ops@[i]) <= MAX_TRANSFER_SIZE,
{
    let mut offsets: Vec<usize> = Vec::new();
    let mut off: usize = 0;
    let mut i: usize = 0;
    while i < ops.len()
        invariant
            0 <= i <= ops@.len(),
            total_read(ops@) <= MAX_TRANSFER_SIZE,
            offsets@.len() == i,
            off == total_read(ops@.take(i as int)),
            forall|j: int| 0 <= j < i ==> #[trigger] offsets@[j] == total_read(ops@.take(j)),
            forall|j: int| 0 <= j < i ==> offsets@[j] + read_len(#[trigger] ops@[j]) <= MAX_TRANSFER_SIZE,
        decreases ops@.len() - i,
    {
        proof {
            assert(ops@.take(i + 1).drop_last() =~= ops@.take(i as int));
            lemma_total_read_monotone(ops@, i + 1);
        }
        offsets.push(off);
        let n = match ops[i] {
            BatchOp::Read { len } => len,
            BatchOp::Transfer { len } => len,
            _ => 0,
        };
        off = off + n;
        i += 1;
    }
    offsets
}

/// The response bytes of the operations of a batch lie back to back in
/// operation order: each operation's bytes start where those of the
/// operation before it end.
pub proof fn lemma_response_spans_contiguous(ops: Seq<BatchOp>, i: int)
    requires
        0 <= i < ops.len(),
    ensures
        total_read(ops.take(i + 1)) == total_read(ops.take(i)) + read_len(ops[i]),
        total_read(ops.take(0)) == 0,
{
    assert(ops.take(i + 1).drop_last() =~= ops.take(i));
    assert(ops.take(i + 1).last() == ops[i]);
    assert(ops.take(0) =~= Seq::<BatchOp>::empty());
}

// ---------------------------------------------------------------------------
// Executing a batch
// ---------------------------------------------------------------------------

/// The SPI chip-select line of a batch: the index of GPIO `cs_pin`, when that
/// pin exists and is available; otherwise the batch fails before any bus
/// activity, blaming its first operation.
pub fn cs_pin_index(cs_pin: u8, available: &Vec<bool>) -> (r: Result<usize, SpiBatchError>)
    ensures
        r == if (cs_pin as nat) < available@.len() && available@[cs_pin as int] {
            Ok::<usize, SpiBatchError>(cs_pin as usize)
        } else {
            Err::<usize, SpiBatchError>(SpiBatchError { failed_op: 0, kind: SpiError::Other })
        },
{
    let idx = cs_pin as usize;
    if idx < available.len() && available[idx] {
        Ok(idx)
    } else {
        Err(SpiBatchError { failed_op: 0, kind: SpiError::Other })
    }
}

/// Where an I2C batch stands after operation `op_index` ran with `outcome`:
/// the index of the next operation, or the error naming the failed one.
pub open spec fn i2c_batch_after(op_index: u16, outcome: Result<(), I2cBusFault>) -> Result<u16, I2cBatchError> {
    match outcome {
        Ok(_) => Ok((op_index + 1) as u16),
        Err(e) => Err(I2cBatchError { failed_op: op_index, kind: i2c_error_of(e) }),
    }
}

/// One step of an I2C batch (see [`i2c_batch_after`]).
pub fn i2c_batch_step(op_index: u16, outcome: Result<(), I2cBusFault>) -> (r: Result<u16, I2cBatchError>)
    requires
        op_index < u16::MAX,
    ensures
        r == i2c_batch_after(op_index, outcome),
{
    match outcome {
        Ok(()) => Ok(op_index + 1),
        Err(e) => Err(I2cBatchError { failed_op: op_index, kind: map_i2c_error(e) }),
    }
}

/// Where an SPI batch stands after operation `op_index` ran, successfully
/// when `ok`: the index of the next operation, or the error naming the
/// failed one.
pub open spec fn spi_batch_after(op_index: u16, ok: bool) -> Result<u16, SpiBatchError> {
    if ok {
        Ok((op_index + 1) as u16)
    } else {
        Err(SpiBatchError { failed_op: op_index, kind: SpiError::Other })
    }
}

/// One step of an SPI batch (see [`spi_batch_after`]).
pub fn spi_batch_step(op_index: u16, ok: bool) -> (r: Result<u16, SpiBatchError>)
    requires
        op_index < u16::MAX,
    ensures
        r == spi_batch_after(op_index, ok),
{
    if ok {
        Ok(op_index + 1)
    } else {
        Err(SpiBatchError { failed_op: op_index, kind: SpiError::Other })
    }
}

/// An I2C batch run step by step on the bus outcomes of its operations: an
/// operation runs only while every one before it succeeded.
pub open spec fn i2c_batch_run(outcomes: Seq<Result<(), I2cBusFault>>) -> Result<u16, I2cBatchError>
    decreases outcomes.len(),
{
    if outcomes.len() == 0 {
        Ok(0)
    } else {
        match i2c_batch_run(outcomes.drop_last()) {
            Ok(i) => i2c_batch_after(i, outcomes.last()),
            Err(e) => Err(e),
        }
    }
}

/// An SPI batch run step by step on the outcomes of its operations.
pub open spec fn spi_batch_run(oks: Seq<bool>) -> Result<u16, SpiBatchError>
    decreases oks.len(),
{
    if oks.len() == 0 {
        Ok(0)
    } else {
        match spi_batch_run(oks.drop_last()) {
            Ok(i) => spi_batch_after(i, oks.last()),
            Err(e) => Err(e),
        }
    }
}

proof fn lemma_i2c_run_ok_prefix(o: Seq<Result<(), I2cBusFault>>, k: int)
    requires
        0 <= k <= o.len(),
        o.len() < u16::MAX,
        forall|j: int| 0 <= j < k ==> #[trigger] o[j] is Ok,
    ensures
        i2c_batch_run(o.take(k)) == Ok::<u16, I2cBatchError>(k as u16),
    decreases k,
{
    if k > 0 {
        lemma_i2c_run_ok_prefix(o, k - 1);
        assert(o.take(k).drop_last() =~= o.take(k - 1));
        assert(o.take(k).last() == o[k - 1]);
    }
}

proof fn lemma_i2c_run_err_stays(o: Seq<Result<(), I2cBusFault>>, k: int, n: int)
    requires
        0 <= k <= n <= o.len(),
        i2c_batch_run(o.take(k)) is Err,
    ensures
        i2c_batch_run(o.take(n)) == i2c_batch_run(o.take(k)),
    decreases n - k,
{
    if n > k {
        lemma_i2c_run_err_stays(o, k, n - 1);
        assert(o.take(n).drop_last() =~= o.take(n - 1));
    }
}

/// An I2C batch stops at its first failed operation: the operations after it
/// are skipped and the error names it, with its bus error mapped to the wire
/// error; when every operation succeeds, the batch ran them all.
pub proof fn lemma_i2c_batch_stops_at_first_failure(outcomes: Seq<Result<(), I2cBusFault>>, k: int)
    requires
        outcomes.len() < u16::MAX,
        0 <= k <= outcomes.len(),
        forall|j: int| 0 <= j < k ==> #[trigger] outcomes[j] is Ok,
    ensures
        k == outcomes.len() ==> i2c_batch_run(outcomes) == Ok::<u16, I2cBatchError>(k as u16),
        k < outcomes.len() ==> (outcomes[k] matches Err(e) ==> i2c_batch_run(outcomes) == Err::<u16, I2cBatchError>(
            I2cBatchError { failed_op: k as u16, kind: i2c_error_of(e) },
        )),
{
    lemma_i2c_run_ok_prefix(outcomes, k);
    assert(outcomes.take(outcomes.len() as int) =~= outcomes);
    if k < outcomes.len() && outcomes[k] is Err {
        assert(outcomes.take(k + 1).drop_last() =~= outcomes.take(k));
        assert(outcomes.take(k + 1).last() == outcomes[k]);
        lemma_i2c_run_err_stays(outcomes, k + 1, outcomes.len() as int);
    }
}

proof fn lemma_spi_run_ok_prefix(o: Seq<bool>, k: int)
    requires
        0 <= k <= o.len(),
        o.len() < u16::MAX,
        forall|j: int| 0 <= j < k ==> #[trigger] o[j],
    ensures
        spi_batch_run(o.take(k)) == Ok::<u16, SpiBatchError>(k as u16),
    decreases k,
{
    if k > 0 {
        lemma_spi_run_ok_prefix(o, k - 1);
        assert(o.take(k).drop_last() =~= o.take(k - 1));
        assert(o.take(k).last() == o[k - 1]);
    }
}

proof fn lemma_spi_run_err_stays(o: Seq<bool>, k: int, n: int)
    requires
        0 <= k <= n <= o.len(),
        spi_batch_run(o.take(k)) is Err,
    ensures
        spi_batch_run(o.take(n)) == spi_batch_run(o.take(k)),
    decreases n - k,
{
    if n > k {
        lemma_spi_run_err_stays(o, k, n - 1);
        assert(o.take(n).drop_last() =~= o.take(n - 1));
    }
}

/// An SPI batch stops at its first failed operation: the operations after it
/// are skipped and the error names it; when every operation succeeds, the
/// batch ran them all.
pub proof fn lemma_spi_batch_stops_at_first_failure(oks: Seq<bool>, k: int)
    requires
        oks.len() < u16::MAX,
        0 <= k <= oks.len(),
        forall|j: int| 0 <= j < k ==> #[trigger] oks[j],
    ensures
        k == oks.len() ==> spi_batch_run(oks) == Ok::<u16, SpiBatchError>(k as u16),
        k < oks.len() && !oks[k] ==> spi_batch_run(oks) == Err::<u16, SpiBatchError>(
            SpiBatchError { failed_op: k as u16, kind: SpiError::Other },
        ),
{
    lemma_spi_run_ok_prefix(oks, k);
    assert(oks.take(oks.len() as int) =~= oks);
    if k < oks.len() && !oks[k] {
        assert(oks.take(k + 1).drop_last() =~= oks.take(k));
        assert(oks.take(k + 1).last() == oks[k]);
        lemma_spi_run_err_stays(oks, k + 1, oks.len() as int);
    }
}

} // verus!
