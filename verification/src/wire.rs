//! Wire-protocol types shared by the firmware and the host.
//!
//! The encoded form of these types is produced by the serializer in `app/`;
//! enum variants are encoded by index, so their order is part of the protocol.
use vstd::prelude::*;

use crate::cli::{digits_value, lemma_decimal_reads_back};
use crate::text::{decimal, push_decimal};

verus! {

/// USB Vendor ID (Microsoft Corporation).
pub const MICROSOFT_VID: u16 = 0x045e;

/// USB Product ID assigned to Pico de Gallo.
pub const PICO_DE_GALLO_PID: u16 = 0x067d;

/// Maximum number of bytes the firmware can handle in a single I2C or SPI
/// transaction. Requests exceeding this limit are rejected by the firmware
/// with an error.
pub const MAX_TRANSFER_SIZE: usize = 4096;

// --- I2C

/// Request to write bytes to an I2C device, then read back.
///
/// The firmware performs a write followed by a repeated-start read in a
/// single I2C transaction, which is the standard pattern for reading
/// registers from most I2C devices.
#[derive(Debug, PartialEq)]
pub struct I2cWriteReadRequest<'a> {
    /// 7-bit I2C slave address.
    pub address: u8,
    /// Bytes to write (typically a register address).
    pub contents: &'a [u8],
    /// Number of bytes to read back (max [`MAX_TRANSFER_SIZE`]).
    pub count: u16,
}

/// Error returned when an I2C write-read operation fails.
#[derive(Debug, Clone, Copy, PartialEq, Eq)]
pub struct I2cWriteReadFail;

/// Request to read bytes from an I2C device.
#[derive(Debug, PartialEq)]
pub struct I2cReadRequest {
    /// 7-bit I2C slave address.
    pub address: u8,
    /// Number of bytes to read (max [`MAX_TRANSFER_SIZE`]).
    pub count: u16,
}

/// Error returned when an I2C read operation fails.
#[derive(Debug, Clone, Copy, PartialEq, Eq)]
pub struct I2cReadFail;

/// Request to write bytes to an I2C device.
#[derive(Debug, PartialEq)]
pub struct I2cWriteRequest<'a> {
    /// 7-bit I2C slave address.
    pub address: u8,
    /// Bytes to write.
    pub contents: &'a [u8],
}

/// Error returned when an I2C write operation fails.
#[derive(Debug, Clone, Copy, PartialEq, Eq)]
pub struct I2cWriteFail;

// --- SPI

/// Request to read bytes from the SPI bus.
#[derive(Debug, PartialEq)]
pub struct SpiReadRequest {
    /// Number of bytes to read (max [`MAX_TRANSFER_SIZE`]).
    pub count: u16,
}

/// Error returned when an SPI read operation fails.
#[derive(Debug, Clone, Copy, PartialEq, Eq)]
pub struct SpiReadFail;

/// Request to write bytes to the SPI bus.
#[derive(Debug, PartialEq)]
pub struct SpiWriteRequest<'a> {
    /// Bytes to write.
    pub contents: &'a [u8],
}

/// Error returned when an SPI write operation fails.
#[derive(Debug, Clone, Copy, PartialEq, Eq)]
pub struct SpiWriteFail;

/// Error returned when an SPI flush operation fails.
#[derive(Debug, Clone, Copy, PartialEq, Eq)]
pub struct SpiFlushFail;

/// Request for a full-duplex SPI transfer.
///
/// The firmware simultaneously transmits `contents` and receives the same
/// number of bytes.
#[derive(Debug, PartialEq)]
pub struct SpiTransferRequest<'a> {
    /// Bytes to transmit. The response will contain the same number of received bytes.
    pub contents: &'a [u8],
}

/// Error returned when an SPI transfer operation fails.
#[derive(Debug, Clone, Copy, PartialEq, Eq)]
pub struct SpiTransferFail;

// --- GPIO

/// Request to read the current level of a GPIO pin.
#[derive(Debug, PartialEq)]
pub struct GpioGetRequest {
    /// GPIO pin index.
    pub pin: u8,
}

/// Error returned when a GPIO read fails (e.g., invalid pin index).
#[derive(Debug, Clone, Copy, PartialEq, Eq)]
pub struct GpioGetFail;

/// Request to set a GPIO pin to a specific level.
#[derive(Debug, PartialEq)]
pub struct GpioPutRequest {
    /// GPIO pin index.
    pub pin: u8,
    /// Desired output level.
    pub state: GpioState,
}

/// Error returned when a GPIO write fails (e.g., invalid pin index).
#[derive(Debug, Clone, Copy, PartialEq, Eq)]
pub struct GpioPutFail;

/// Logic level of a GPIO pin.
//
// The variant order is part of the wire format.
#[derive(Debug, Clone, Copy, PartialEq, Eq, Hash, Structural)]
pub enum GpioState {
    /// Logic low (0V).
    Low,
    /// Logic high (3.3V on RP2350).
    High,
}

/// The level that `value` stands for: `true` is high.
pub open spec fn gpio_state_of(value: bool) -> GpioState {
    if value {
        GpioState::High
    } else {
        GpioState::Low
    }
}

/// Whether `state` is the high level.
pub open spec fn is_high(state: GpioState) -> bool {
    state == GpioState::High
}

impl From<bool> for GpioState {
    fn from(value: bool) -> (s: Self) {
        if value {
            GpioState::High
        } else {
            GpioState::Low
        }
    }
}

impl vstd::std_specs::convert::FromSpecImpl<bool> for GpioState {
    open spec fn obeys_from_spec() -> bool {
        true
    }

    open spec fn from_spec(value: bool) -> GpioState {
        gpio_state_of(value)
    }
}

impl From<GpioState> for bool {
    fn from(state: GpioState) -> (b: Self) {
        match state {
            GpioState::High => true,
            GpioState::Low => false,
        }
    }
}

impl vstd::std_specs::convert::FromSpecImpl<GpioState> for bool {
    open spec fn obeys_from_spec() -> bool {
        true
    }

    open spec fn from_spec(state: GpioState) -> bool {
        is_high(state)
    }
}

/// Converting a level to a boolean and back gives the level again, and the
/// reverse.
pub proof fn lemma_gpio_state_bool_round_trip(state: GpioState, value: bool)
    ensures
        gpio_state_of(is_high(state)) == state,
        is_high(gpio_state_of(value)) == value,
{
}

/// Request to wait for a GPIO pin to reach a specific state or edge.
#[derive(Debug, PartialEq)]
pub struct GpioWaitRequest {
    /// GPIO pin index.
    pub pin: u8,
}

/// Error returned when a GPIO wait fails (e.g., invalid pin index).
#[derive(Debug, Clone, Copy, PartialEq, Eq)]
pub struct GpioWaitFail;

// --- Set config

/// Request to reconfigure I2C bus parameters.
///
/// Takes effect immediately. The firmware applies the new frequency before
/// processing the next I2C operation.
#[derive(Debug, PartialEq)]
pub struct I2cSetConfigurationRequest {
    /// I2C bus clock frequency.
    pub frequency: I2cFrequency,
}

/// I2C bus clock frequency.
///
/// The RP2350 supports Standard (100 kHz), Fast (400 kHz), and Fast+ (1 MHz)
/// modes. The variant order is part of the wire format.
#[derive(Debug, Clone, Copy, PartialEq, Eq, Structural)]
pub enum I2cFrequency {
    /// Standard mode — 100 kHz.
    Standard,
    /// Fast mode — 400 kHz.
    Fast,
    /// Fast+ mode — 1 MHz.
    FastPlus,
}

impl I2cFrequency {
    /// The bus clock frequency in Hz.
    pub open spec fn spec_hz(self) -> u32 {
        match self {
            I2cFrequency::Standard => 100_000,
            I2cFrequency::Fast => 400_000,
            I2cFrequency::FastPlus => 1_000_000,
        }
    }

    /// The bus clock frequency in Hz.
    pub fn hz(self) -> (f: u32)
        ensures
            f == self.spec_hz(),
    {
        match self {
            I2cFrequency::Standard => 100_000,
            I2cFrequency::Fast => 400_000,
            I2cFrequency::FastPlus => 1_000_000,
        }
    }
}

/// Error returned when I2C configuration fails.
#[derive(Debug, Clone, Copy, PartialEq, Eq)]
pub struct I2cSetConfigurationFail;

/// Request to reconfigure SPI bus parameters.
///
/// Takes effect immediately. The firmware applies the new settings before
/// processing the next SPI operation.
#[derive(Debug, PartialEq)]
pub struct SpiSetConfigurationRequest {
    /// SPI bus clock frequency in Hz.
    pub spi_frequency: u32,
    /// SPI clock phase.
    pub spi_phase: SpiPhase,
    /// SPI clock polarity.
    pub spi_polarity: SpiPolarity,
}

/// SPI clock phase setting. The variant order is part of the wire format.
#[derive(Debug, Clone, Copy, PartialEq, Eq, Hash, Structural)]
pub enum SpiPhase {
    /// Data captured on the leading (first) clock edge.
    CaptureOnFirstTransition,
    /// Data captured on the trailing (second) clock edge.
    CaptureOnSecondTransition,
}

/// SPI clock polarity setting. The variant order is part of the wire format.
#[derive(Debug, Clone, Copy, PartialEq, Eq, Hash, Structural)]
pub enum SpiPolarity {
    /// Clock idles at logic low (CPOL=0).
    IdleLow,
    /// Clock idles at logic high (CPOL=1).
    IdleHigh,
}

/// Error returned when SPI configuration fails.
#[derive(Debug, Clone, Copy, PartialEq, Eq)]
pub struct SpiSetConfigurationFail;

// --- Version

/// Firmware version information.
#[derive(Debug, PartialEq)]
pub struct VersionInfo {
    /// Major version number.
    pub major: u16,
    /// Minor version number.
    pub minor: u16,
    /// Patch version number.
    pub patch: u32,
}

impl VersionInfo {
    /// The text the tool prints for a firmware version.
    pub open spec fn text(self) -> Seq<char> {
        "Pico de Gallo FW v"@ + decimal(self.major as nat) + seq!['.'] + decimal(self.minor as nat) + seq!['.']
            + decimal(self.patch as nat)
    }

    /// The text the tool prints for a firmware version:
    /// `Pico de Gallo FW v<major>.<minor>.<patch>`.
    pub fn to_text(&self) -> (s: String)
        ensures
            s@ == self.text(),
    {
        proof {
            reveal_strlit(".");
        }
        let mut s = String::from_str("Pico de Gallo FW v");
        push_decimal(&mut s, self.major as u64);
        s.append(".");
        push_decimal(&mut s, self.minor as u64);
        s.append(".");
        push_decimal(&mut s, self.patch as u64);
        s
    }
}

/// The version text is the prefix `Pico de Gallo FW v` and three
/// dot-separated decimal numbers: the major, the minor and the patch
/// version, in that order (each field is digits only, so the dots split the
/// text in exactly one way).
pub proof fn lemma_version_text_fields(v: VersionInfo)
    ensures
        exists|a: Seq<char>, b: Seq<char>, c: Seq<char>|
            #![trigger digits_value(a, 10), digits_value(b, 10), digits_value(c, 10)]
            {
                &&& v.text() == "Pico de Gallo FW v"@ + a + seq!['.'] + b + seq!['.'] + c
                &&& digits_value(a, 10) == Some(v.major as nat)
                &&& digits_value(b, 10) == Some(v.minor as nat)
                &&& digits_value(c, 10) == Some(v.patch as nat)
            },
{
    let a = decimal(v.major as nat);
    let b = decimal(v.minor as nat);
    let c = decimal(v.patch as nat);
    lemma_decimal_reads_back(v.major as nat);
    lemma_decimal_reads_back(v.minor as nat);
    lemma_decimal_reads_back(v.patch as nat);
    assert(v.text() == "Pico de Gallo FW v"@ + a + seq!['.'] + b + seq!['.'] + c);
}

} // verus!
