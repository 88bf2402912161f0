//! Logic of the command-line tool: parsing byte arguments, the text of the
//! I2C bus scan table and of hex dumps, and the SPI mode flags.
use vstd::prelude::*;
use vstd::arithmetic::div_mod::{lemma_fundamental_div_mod, lemma_fundamental_div_mod_converse};

use crate::text::{hex2, push_hex2};
use crate::wire::{SpiPhase, SpiPolarity};

verus! {

/// The type that `u8::from_str_radix` reports failures with.
#[verifier::external_type_specification]
#[verifier::external_body]
pub struct ExParseIntError(std::num::ParseIntError);

/// The value of digit character `c` (0-9, then a-z or A-Z for 10-35).
pub open spec fn digit_value(c: char) -> Option<nat> {
    let x = c as int;
    if '0' as int <= x <= '9' as int {
        Some((x - '0' as int) as nat)
    } else if 'a' as int <= x <= 'z' as int {
        Some((x - 'a' as int + 10) as nat)
    } else if 'A' as int <= x <= 'Z' as int {
        Some((x - 'A' as int + 10) as nat)
    } else {
        None
    }
}

/// The number that the digits `s` denote in base `radix`, if all of them are
/// digits of that base.
pub open spec fn digits_value(s: Seq<char>, radix: nat) -> Option<nat>
    decreases s.len(),
{
    if s.len() == 0 {
        Some(0)
    } else {
        match (digits_value(s.drop_last(), radix), digit_value(s.last())) {
            (Some(v), Some(d)) => if d < radix {
                Some(v * radix + d)
            } else {
                None
            },
            _ => None,
        }
    }
}

proof fn lemma_digit_char_value(d: nat)
    requires
        d < 10,
    ensures
        digit_value(crate::text::digit_char(d, true)) == Some(d),
{
    let c = crate::text::digit_char(d, true);
    assert(c as int == 48 + d);
}

/// A number's decimal text reads back as that number.
pub proof fn lemma_decimal_reads_back(n: nat)
    ensures
        digits_value(crate::text::decimal(n), 10) == Some(n),
    decreases n,
{
    let t = crate::text::decimal(n);
    if n < 10 {
        lemma_digit_char_value(n);
        assert(t.drop_last() =~= Seq::<char>::empty());
        assert(digits_value(Seq::<char>::empty(), 10) == Some(0nat));
        assert(t.last() == crate::text::digit_char(n, true));
        assert(digits_value(t, 10) == Some(0 * 10 + n));
    } else {
        lemma_decimal_reads_back(n / 10);
        lemma_digit_char_value(n % 10);
        assert(t.drop_last() =~= crate::text::decimal(n / 10));
        assert(t.last() == crate::text::digit_char(n % 10, true));
        assert(digits_value(t, 10) == Some((n / 10) * 10 + n % 10));
        assert((n / 10) * 10 + n % 10 == n);
    }
}

/// What `u8::from_str_radix` accepts: an optional `+` followed by one or
/// more digits of the base, denoting a value up to 255.
pub open spec fn parse_u8_radix(s: Seq<char>, radix: nat) -> Option<u8> {
    let body = if s.len() > 0 && s[0] == '+' {
        s.drop_first()
    } else {
        s
    };
    if body.len() == 0 {
        None
    } else {
        match digits_value(body, radix) {
            Some(v) => if v <= 255 {
                Some(v as u8)
            } else {
                None
            },
            None => None,
        }
    }
}

/// Trusted: calls std's `u8::from_str_radix`. Its documentation: the string
/// is an optional `+` sign followed by only digits (0-9, a-z, A-Z, as far as
/// the base allows); anything else, an empty string, or a value that does
/// not fit in `u8` is an error; the function panics unless `radix` is from 2
/// to 36. The contract states exactly that; it says nothing of which kind of
/// error comes back.
#[verifier::external_body]
fn u8_from_str_radix(src: &str, radix: u32) -> (r: Result<u8, std::num::ParseIntError>)
    requires
        2 <= radix <= 36,
    ensures
        match parse_u8_radix(src@, radix as nat) {
            Some(v) => r == Ok::<u8, std::num::ParseIntError>(v),
            None => r is Err,
        },
{
    u8::from_str_radix(src, radix)
}

/// The value of a byte argument: `0x` followed by hexadecimal digits, `0b`
/// followed by binary digits, or decimal digits.
pub open spec fn byte_argument(s: Seq<char>) -> Option<u8> {
    if s.len() >= 2 && s[0] == '0' && s[1] == 'x' {
        parse_u8_radix(s.skip(2), 16)
    } else if s.len() >= 2 && s[0] == '0' && s[1] == 'b' {
        parse_u8_radix(s.skip(2), 2)
    } else {
        parse_u8_radix(s, 10)
    }
}

/// Parse a byte argument: `0x..` hexadecimal, `0b..` binary, or decimal.
pub fn parse_byte(s: &str) -> (r: Result<u8, std::num::ParseIntError>)
    ensures
        match byte_argument(s@) {
            Some(v) => r == Ok::<u8, std::num::ParseIntError>(v),
            None => r is Err,
        },
{
    let n = s.unicode_len();
    if n >= 2 && s.get_char(0) == '0' && s.get_char(1) == 'x' {
        let rest = s.substring_char(2, n);
        proof {
            assert(rest@ =~= s@.skip(2));
        }
        u8_from_str_radix(rest, 16)
    } else if n >= 2 && s.get_char(0) == '0' && s.get_char(1) == 'b' {
        let rest = s.substring_char(2, n);
        proof {
            assert(rest@ =~= s@.skip(2));
        }
        u8_from_str_radix(rest, 2)
    } else {
        u8_from_str_radix(s, 10)
    }
}

// ---------------------------------------------------------------------------
// I2C scan table
// ---------------------------------------------------------------------------

/// Addresses reserved by the I2C specification: 0x00–0x07 and 0x78–0x7F.
pub open spec fn is_reserved_address(address: u8) -> bool {
    address <= 0x07 || (0x78 <= address <= 0x7f)
}

/// Whether the scan probes `address`: every non-reserved address, and the
/// reserved ones only when asked to.
pub fn scan_should_probe(address: u8, reserved: bool) -> (probe: bool)
    ensures
        probe == (reserved || !is_reserved_address(address)),
{
    let is_reserved = address <= 0x07 || (0x78 <= address && address <= 0x7f);
    reserved || !is_reserved
}

/// The text of a scan table cell: the address in two lower-case hex digits
/// when the device answered, `--` when it did not, `RR` when the address is
/// reserved and was not probed.
pub open spec fn scan_cell_text(address: u8, reserved: bool, answered: bool) -> Seq<char> {
    if !reserved && is_reserved_address(address) {
        seq!['R', 'R']
    } else if answered {
        hex2(address, false)
    } else {
        seq!['-', '-']
    }
}

/// The text of the scan table cell of `address` (see [`scan_cell_text`]);
/// `answered` is the outcome of the probe and is ignored for addresses that
/// are not probed.
pub fn scan_cell(address: u8, reserved: bool, answered: bool) -> (s: String)
    ensures
        s@ == scan_cell_text(address, reserved, answered),
{
    proof {
        reveal_strlit("RR");
        reveal_strlit("--");
    }
    if !scan_should_probe(address, reserved) {
        String::from_str("RR")
    } else if answered {
        let mut s = String::new();
        push_hex2(&mut s, address, false);
        s
    } else {
        String::from_str("--")
    }
}

/// The header row of the scan table: an empty corner cell, then the low
/// address nibbles `0` to `f`.
pub fn scan_header() -> (row: Vec<String>)
    ensures
        row@.len() == 17,
        row@[0]@ == Seq::<char>::empty(),
        forall|i: int| 1 <= i < 17 ==> #[trigger] row@[i]@ == seq![crate::text::digit_char((i - 1) as nat, false)],
{
    let mut row: Vec<String> = Vec::new();
    row.push(String::new());
    let mut i: u8 = 1;
    while i <= 16
        invariant
            1 <= i <= 17,
            row@.len() == i,
            row@[0]@ == Seq::<char>::empty(),
            forall|j: int| 1 <= j < i ==> #[trigger] row@[j]@ == seq![crate::text::digit_char((j - 1) as nat, false)],
        decreases 17 - i,
    {
        let mut s = String::new();
        s.append(crate::text::digit_str(i - 1, false));
        row.push(s);
        i += 1;
    }
    row
}

/// The label of scan table row `hi` (the high address nibble): the nibble in
/// hex followed by a space.
pub fn scan_row_label(hi: u8) -> (s: String)
    requires
        hi < 16,
    ensures
        s@ == seq![crate::text::digit_char(hi as nat, false), ' '],
{
    proof {
        reveal_strlit(" ");
    }
    let mut s = String::new();
    s.append(crate::text::digit_str(hi, false));
    s.append(" ");
    s
}

// ---------------------------------------------------------------------------
// Hex dump
// ---------------------------------------------------------------------------

/// The dump of `bytes`: each byte as two lower-case hex digits and a space,
/// sixteen bytes per line, and a final line break.
pub open spec fn hex_dump_text(bytes: Seq<u8>) -> Seq<char> {
    hex_dump_body(bytes) + seq!['\n']
}

/// The dump lines of `bytes`, without the final line break.
pub open spec fn hex_dump_body(bytes: Seq<u8>) -> Seq<char>
    decreases bytes.len(),
{
    if bytes.len() == 0 {
        Seq::empty()
    } else {
        let i = bytes.len() - 1;
        hex_dump_body(bytes.drop_last()) + (if i > 0 && i % 16 == 0 {
            seq!['\n']
        } else {
            Seq::empty()
        }) + hex2(bytes.last(), false) + seq![' ']
    }
}

/// The text of one dump line: each byte as two lower-case hex digits and a
/// space, with no line break.
pub open spec fn hex_line(bytes: Seq<u8>) -> Seq<char>
    decreases bytes.len(),
{
    if bytes.len() == 0 {
        Seq::empty()
    } else {
        hex_line(bytes.drop_last()) + hex2(bytes.last(), false) + seq![' ']
    }
}

/// Up to sixteen bytes make one dump line with no line break: each byte in
/// order as two lower-case hexadecimal digits that read back as the byte,
/// then a space.
pub proof fn lemma_hex_dump_short_line(bytes: Seq<u8>)
    requires
        bytes.len() <= 16,
    ensures
        hex_dump_body(bytes) == hex_line(bytes),
        hex_dump_body(bytes).len() == 3 * bytes.len(),
        forall|i: int|
            0 <= i < bytes.len() ==> {
                &&& #[trigger] hex_dump_body(bytes)[3 * i + 2] == ' '
                &&& digits_value(hex_dump_body(bytes).subrange(3 * i, 3 * i + 2), 16) == Some(bytes[i] as nat)
                &&& !('A' <= hex_dump_body(bytes)[3 * i] <= 'Z')
                &&& !('A' <= hex_dump_body(bytes)[3 * i + 1] <= 'Z')
            },
    decreases bytes.len(),
{
    if bytes.len() > 0 {
        lemma_hex_dump_short_line(bytes.drop_last());
    }
    lemma_hex_line_bytes(bytes);
}

proof fn lemma_hex_digit_value(d: nat)
    requires
        d < 16,
    ensures
        digit_value(crate::text::digit_char(d, false)) == Some(d),
        !('A' <= crate::text::digit_char(d, false) <= 'Z'),
{
    let c = crate::text::digit_char(d, false);
    if d < 10 {
        assert(c as int == 48 + d);
    } else {
        assert(c as int == 97 + d - 10);
    }
}

proof fn lemma_hex2_reads_back(v: u8)
    ensures
        digits_value(hex2(v, false), 16) == Some(v as nat),
        !('A' <= hex2(v, false)[0] <= 'Z'),
        !('A' <= hex2(v, false)[1] <= 'Z'),
{
    let t = hex2(v, false);
    let hi = (v / 16) as nat;
    let lo = (v % 16) as nat;
    lemma_hex_digit_value(hi);
    lemma_hex_digit_value(lo);
    assert(t.drop_last() =~= seq![t[0]]);
    assert(seq![t[0]].drop_last() =~= Seq::<char>::empty());
    assert(digits_value(Seq::<char>::empty(), 16) == Some(0nat));
    assert(digits_value(seq![t[0]], 16) == Some(0 * 16 + hi));
    assert(digits_value(t, 16) == Some(hi * 16 + lo));
}

/// A line of the dump shows each of its bytes, in order, as two lower-case
/// hexadecimal digits that read back as the byte, followed by a space.
pub proof fn lemma_hex_line_bytes(bytes: Seq<u8>)
    ensures
        hex_line(bytes).len() == 3 * bytes.len(),
        forall|i: int|
            0 <= i < bytes.len() ==> {
                &&& #[trigger] hex_line(bytes)[3 * i + 2] == ' '
                &&& digits_value(hex_line(bytes).subrange(3 * i, 3 * i + 2), 16) == Some(bytes[i] as nat)
                &&& !('A' <= hex_line(bytes)[3 * i] <= 'Z')
                &&& !('A' <= hex_line(bytes)[3 * i + 1] <= 'Z')
            },
    decreases bytes.len(),
{
    if bytes.len() > 0 {
        let init = bytes.drop_last();
        lemma_hex_line_bytes(init);
        lemma_hex2_reads_back(bytes.last());
        let l = hex_line(bytes);
        let l0 = hex_line(init);
        let n = init.len() as int;
        assert(l == l0 + hex2(bytes.last(), false) + seq![' ']);
        assert forall|i: int| 0 <= i < bytes.len() implies {
            &&& #[trigger] l[3 * i + 2] == ' '
            &&& digits_value(l.subrange(3 * i, 3 * i + 2), 16) == Some(bytes[i] as nat)
            &&& !('A' <= l[3 * i] <= 'Z')
            &&& !('A' <= l[3 * i + 1] <= 'Z')
        } by {
            if i < n {
                assert(init[i] == bytes[i]);
                assert(l0[3 * i + 2] == ' ');
                assert(l.subrange(3 * i, 3 * i + 2) =~= l0.subrange(3 * i, 3 * i + 2));
            } else {
                assert(l.subrange(3 * i, 3 * i + 2) =~= hex2(bytes.last(), false));
            }
        }
    }
}

/// A dump breaks the line before every sixteenth byte: after a whole number
/// of full lines `a`, the bytes `b` that follow start on a new line and are
/// laid out as if they were dumped on their own.
pub proof fn lemma_hex_dump_lines(a: Seq<u8>, b: Seq<u8>)
    requires
        a.len() > 0,
        a.len() % 16 == 0,
        b.len() > 0,
    ensures
        hex_dump_body(a + b) == hex_dump_body(a) + seq!['\n'] + hex_dump_body(b),
    decreases b.len(),
{
    let ab = a + b;
    assert(ab.drop_last() =~= a + b.drop_last());
    assert(ab.last() == b.last());
    let j = b.len() - 1;
    if j == 0 {
        assert(b.drop_last() =~= Seq::<u8>::empty());
        assert(a + b.drop_last() =~= a);
        assert(hex_dump_body(b.drop_last()) =~= Seq::<char>::empty());
        assert(hex_dump_body(b) =~= hex2(b.last(), false) + seq![' ']);
        assert(hex_dump_body(a + b) =~= hex_dump_body(a) + seq!['\n'] + hex_dump_body(b));
    } else {
        lemma_hex_dump_lines(a, b.drop_last());
        let n = a.len() as int;
        assert((n + j) % 16 == j % 16) by {
            lemma_fundamental_div_mod(n, 16);
            lemma_fundamental_div_mod(j, 16);
            lemma_fundamental_div_mod_converse(n + j, 16, n / 16 + j / 16, j % 16);
        }
        assert(hex_dump_body(a + b) =~= hex_dump_body(a) + seq!['\n'] + hex_dump_body(b));
    }
}

/// The text printed for bytes read from a device (see [`hex_dump_text`]).
pub fn hex_dump(bytes: &[u8]) -> (s: String)
    ensures
        s@ == hex_dump_text(bytes@),
{
    proof {
        reveal_strlit("\n");
        reveal_strlit(" ");
    }
    let mut s = String::new();
    let mut i: usize = 0;
    while i < bytes.len()
        invariant
            0 <= i <= bytes@.len(),
            s@ == hex_dump_body(bytes@.take(i as int)),
        decreases bytes@.len() - i,
    {
        proof {
            assert(bytes@.take(i + 1).drop_last() =~= bytes@.take(i as int));
            assert(bytes@.take(i + 1).last() == bytes@[i as int]);
        }
        let ghost s0 = s@;
        let ghost i0 = i;
        proof {
            reveal_strlit("\n");
            reveal_strlit(" ");
        }
        if i > 0 && i % 16 == 0 {
            s.append("\n");
        }
        let ghost nl: Seq<char> = if i0 > 0 && i0 % 16 == 0 {
            seq!['\n']
        } else {
            Seq::<char>::empty()
        };
        assert(s@ =~= s0 + nl);
        push_hex2(&mut s, bytes[i], false);
        s.append(" ");
        assert(s@ =~= s0 + nl + hex2(bytes@[i0 as int], false) + seq![' ']);
        i += 1;
        proof {
            let t = bytes@.take(i as int);
            assert(t.len() - 1 == i0);
            assert(t.drop_last() =~= bytes@.take(i0 as int));
            assert(t.last() == bytes@[i0 as int]);
            assert(hex_dump_body(t) == hex_dump_body(t.drop_last()) + (if i0 > 0 && i0 % 16 == 0 {
                seq!['\n']
            } else {
                Seq::<char>::empty()
            }) + hex2(t.last(), false) + seq![' ']);
            assert(s@ =~= hex_dump_body(bytes@.take(i as int)));
        }
    }
    s.append("\n");
    proof {
        assert(bytes@.take(i as int) =~= bytes@);
    }
    s
}

// ---------------------------------------------------------------------------
// SPI mode flags
// ---------------------------------------------------------------------------

/// The clock polarity selected by the `--spi-idle-low` flag.
pub fn spi_polarity_from_flag(idle_low: bool) -> (p: SpiPolarity)
    ensures
        p == if idle_low {
            SpiPolarity::IdleLow
        } else {
            SpiPolarity::IdleHigh
        },
{
    if idle_low {
        SpiPolarity::IdleLow
    } else {
        SpiPolarity::IdleHigh
    }
}

/// The clock phase selected by the `--spi-first-transition` flag.
pub fn spi_phase_from_flag(first_transition: bool) -> (p: SpiPhase)
    ensures
        p == if first_transition {
            SpiPhase::CaptureOnFirstTransition
        } else {
            SpiPhase::CaptureOnSecondTransition
        },
{
    if first_transition {
        SpiPhase::CaptureOnFirstTransition
    } else {
        SpiPhase::CaptureOnSecondTransition
    }
}

// ---------------------------------------------------------------------------
// Commands
// ---------------------------------------------------------------------------

/// A top-level command of the tool.
#[allow(inconsistent_fields)]
pub enum Commands {
    /// Get firmware version
    Version,
    /// I2C access methods
    I2c { command: Option<I2cCommands> },
    /// SPI access methods
    Spi { command: Option<SpiCommands> },
    /// Set bus parameters for I2C and SPI
    SetConfig { i2c_frequency: u32, spi_frequency: u32, spi_first_transition: bool, spi_idle_low: bool },
}

/// The I2C commands.
pub enum I2cCommands {
    /// Scan I2C bus for existing devices (`reserved`: probe reserved addresses too)
    Scan { reserved: bool },
    /// Read bytes through the I2C bus from device at given address
    Read { address: u8, count: usize },
    /// Write bytes through I2C bus to device at given address
    Write { address: u8, bytes: Vec<u8> },
    /// Write bytes followed by read bytes
    WriteRead { address: u8, bytes: Vec<u8>, count: usize },
}

/// The SPI commands.
pub enum SpiCommands {
    /// Read bytes through SPI bus
    Read { count: usize },
    /// Write bytes through SPI bus
    Write { bytes: Vec<u8> },
    /// Write bytes followed by read bytes
    WriteRead { count: usize, bytes: Vec<u8> },
}

/// The parsed command line.
pub struct Cli {
    /// Serial number of the board to talk to (the first one found if absent).
    pub serial_number: Option<String>,
    pub command: Option<Commands>,
}

/// One request to the device that a command performs.
pub enum DeviceOp {
    Version,
    I2cScan { reserved: bool },
    I2cRead { address: u8, count: u16 },
    I2cWrite { address: u8, bytes: Vec<u8> },
    I2cWriteRead { address: u8, bytes: Vec<u8>, count: u16 },
    SpiRead { count: u16 },
    SpiWrite { bytes: Vec<u8> },
    SetConfig { i2c_frequency: u32, spi_frequency: u32, spi_phase: SpiPhase, spi_polarity: SpiPolarity },
}

/// A device request with its bytes as a sequence.
pub enum PlannedOp {
    Version,
    I2cScan { reserved: bool },
    I2cRead { address: u8, count: u16 },
    I2cWrite { address: u8, bytes: Seq<u8> },
    I2cWriteRead { address: u8, bytes: Seq<u8>, count: u16 },
    SpiRead { count: u16 },
    SpiWrite { bytes: Seq<u8> },
    SetConfig { i2c_frequency: u32, spi_frequency: u32, spi_phase: SpiPhase, spi_polarity: SpiPolarity },
}

impl DeviceOp {
    /// The request with its bytes as a sequence.
    pub open spec fn view(self) -> PlannedOp {
        match self {
            DeviceOp::Version => PlannedOp::Version,
            DeviceOp::I2cScan { reserved } => PlannedOp::I2cScan { reserved },
            DeviceOp::I2cRead { address, count } => PlannedOp::I2cRead { address, count },
            DeviceOp::I2cWrite { address, bytes } => PlannedOp::I2cWrite { address, bytes: bytes@ },
            DeviceOp::I2cWriteRead { address, bytes, count } => PlannedOp::I2cWriteRead { address, bytes: bytes@, count },
            DeviceOp::SpiRead { count } => PlannedOp::SpiRead { count },
            DeviceOp::SpiWrite { bytes } => PlannedOp::SpiWrite { bytes: bytes@ },
            DeviceOp::SetConfig { i2c_frequency, spi_frequency, spi_phase, spi_polarity } => PlannedOp::SetConfig {
                i2c_frequency,
                spi_frequency,
                spi_phase,
                spi_polarity,
            },
        }
    }
}

/// The device requests a command makes, in order. Byte counts are truncated
/// to the 16 bits that the requests carry; SPI write-then-read is a write
/// followed by a read; the SPI mode flags select phase and polarity.
pub open spec fn planned_ops(command: Option<Commands>) -> Seq<PlannedOp> {
    match command {
        None => Seq::empty(),
        Some(Commands::Version) => seq![PlannedOp::Version],
        Some(Commands::I2c { command }) => match command {
            None => Seq::empty(),
            Some(I2cCommands::Scan { reserved }) => seq![PlannedOp::I2cScan { reserved }],
            Some(I2cCommands::Read { address, count }) => seq![PlannedOp::I2cRead { address, count: count as u16 }],
            Some(I2cCommands::Write { address, bytes }) => seq![PlannedOp::I2cWrite { address, bytes: bytes@ }],
            Some(I2cCommands::WriteRead { address, bytes, count }) => seq![
                PlannedOp::I2cWriteRead { address, bytes: bytes@, count: count as u16 },
            ],
        },
        Some(Commands::Spi { command }) => match command {
            None => Seq::empty(),
            Some(SpiCommands::Read { count }) => seq![PlannedOp::SpiRead { count: count as u16 }],
            Some(SpiCommands::Write { bytes }) => seq![PlannedOp::SpiWrite { bytes: bytes@ }],
            Some(SpiCommands::WriteRead { count, bytes }) => seq![
                PlannedOp::SpiWrite { bytes: bytes@ },
                PlannedOp::SpiRead { count: count as u16 },
            ],
        },
        Some(Commands::SetConfig { i2c_frequency, spi_frequency, spi_first_transition, spi_idle_low }) => seq![
            PlannedOp::SetConfig {
                i2c_frequency,
                spi_frequency,
                spi_phase: if spi_first_transition {
                    SpiPhase::CaptureOnFirstTransition
                } else {
                    SpiPhase::CaptureOnSecondTransition
                },
                spi_polarity: if spi_idle_low {
                    SpiPolarity::IdleLow
                } else {
                    SpiPolarity::IdleHigh
                },
            },
        ],
    }
}

proof fn lemma_truncate_u16(count: usize)
    ensures
        (count as u16) as int == (count as int) % 65536,
{
    assert(((count as u16) as usize) == count % 65536usize) by (bit_vector);
}

/// Each device request that a command plans carries that command's own
/// arguments: the scan's reserved flag, the address, the bytes to write, the
/// byte count (the 16 low bits of it, as the requests carry), the
/// frequencies; the SPI phase is the first transition exactly when
/// `--spi-first-transition` is given, the polarity idles low exactly when
/// `--spi-idle-low` is given. SPI write-then-read writes, then reads. No
/// subcommand plans nothing.
pub proof fn lemma_plan_keeps_arguments(command: Option<Commands>)
    ensures
        command is None ==> planned_ops(command).len() == 0,
        command matches Some(Commands::Version) ==> planned_ops(command) =~= seq![PlannedOp::Version],
        command matches Some(Commands::I2c { command: None }) ==> planned_ops(command).len() == 0,
        command matches Some(Commands::Spi { command: None }) ==> planned_ops(command).len() == 0,
        command matches Some(Commands::I2c { command: Some(I2cCommands::Scan { reserved }) }) ==> {
            &&& planned_ops(command).len() == 1
            &&& planned_ops(command)[0] matches PlannedOp::I2cScan { reserved: r } && r == reserved
        },
        command matches Some(Commands::I2c { command: Some(I2cCommands::Read { address, count }) }) ==> {
            &&& planned_ops(command).len() == 1
            &&& planned_ops(command)[0] matches PlannedOp::I2cRead { address: a, count: n } && a == address && n
                == count % 65536
        },
        command matches Some(Commands::I2c { command: Some(I2cCommands::Write { address, bytes }) }) ==> {
            &&& planned_ops(command).len() == 1
            &&& planned_ops(command)[0] matches PlannedOp::I2cWrite { address: a, bytes: b } && a == address && b
                == bytes@
        },
        command matches Some(Commands::I2c { command: Some(I2cCommands::WriteRead { address, bytes, count }) }) ==> {
            &&& planned_ops(command).len() == 1
            &&& planned_ops(command)[0] matches PlannedOp::I2cWriteRead { address: a, bytes: b, count: n } && a
                == address && b == bytes@ && n == count % 65536
        },
        command matches Some(Commands::Spi { command: Some(SpiCommands::Read { count }) }) ==> {
            &&& planned_ops(command).len() == 1
            &&& planned_ops(command)[0] matches PlannedOp::SpiRead { count: n } && n == count % 65536
        },
        command matches Some(Commands::Spi { command: Some(SpiCommands::Write { bytes }) }) ==> {
            &&& planned_ops(command).len() == 1
            &&& planned_ops(command)[0] matches PlannedOp::SpiWrite { bytes: b } && b == bytes@
        },
        command matches Some(Commands::Spi { command: Some(SpiCommands::WriteRead { count, bytes }) }) ==> {
            &&& planned_ops(command).len() == 2
            &&& planned_ops(command)[0] matches PlannedOp::SpiWrite { bytes: b } && b == bytes@
            &&& planned_ops(command)[1] matches PlannedOp::SpiRead { count: n } && n == count % 65536
        },
        command matches Some(
            Commands::SetConfig { i2c_frequency, spi_frequency, spi_first_transition, spi_idle_low },
        ) ==> {
            &&& planned_ops(command).len() == 1
            &&& planned_ops(command)[0] matches PlannedOp::SetConfig {
                i2c_frequency: fi,
                spi_frequency: fs,
                spi_phase: ph,
                spi_polarity: po,
            } && fi == i2c_frequency && fs == spi_frequency && (ph == SpiPhase::CaptureOnFirstTransition
                <==> spi_first_transition) && (po == SpiPolarity::IdleLow <==> spi_idle_low)
        },
{
    match command {
        Some(Commands::I2c { command: Some(I2cCommands::Read { count, .. }) }) => lemma_truncate_u16(count),
        Some(Commands::I2c { command: Some(I2cCommands::WriteRead { count, .. }) }) => lemma_truncate_u16(count),
        Some(Commands::Spi { command: Some(SpiCommands::Read { count }) }) => lemma_truncate_u16(count),
        Some(Commands::Spi { command: Some(SpiCommands::WriteRead { count, .. }) }) => lemma_truncate_u16(count),
        _ => {},
    }
}

impl Cli {
    /// The device requests that the command line asks for, in order.
    pub fn plan(self) -> (ops: Vec<DeviceOp>)
        ensures
            ops@.map_values(|op: DeviceOp| op.view()) == planned_ops(self.command),
    {
        let ghost command = self.command;
        let mut ops: Vec<DeviceOp> = Vec::new();
        match self.command {
            None => {},
            Some(Commands::Version) => ops.push(DeviceOp::Version),
            Some(Commands::I2c { command }) => match command {
                None => {},
                Some(I2cCommands::Scan { reserved }) => ops.push(DeviceOp::I2cScan { reserved }),
                Some(I2cCommands::Read { address, count }) => ops.push(
                    DeviceOp::I2cRead { address, count: (#[verifier::truncate] (count as u16)) },
                ),
                Some(I2cCommands::Write { address, bytes }) => ops.push(DeviceOp::I2cWrite { address, bytes }),
                Some(I2cCommands::WriteRead { address, bytes, count }) => ops.push(
                    DeviceOp::I2cWriteRead { address, bytes, count: (#[verifier::truncate] (count as u16)) },
                ),
            },
            Some(Commands::Spi { command }) => match command {
                None => {},
                Some(SpiCommands::Read { count }) => ops.push(
                    DeviceOp::SpiRead { count: (#[verifier::truncate] (count as u16)) },
                ),
                Some(SpiCommands::Write { bytes }) => ops.push(DeviceOp::SpiWrite { bytes }),
                Some(SpiCommands::WriteRead { count, bytes }) => {
                    ops.push(DeviceOp::SpiWrite { bytes });
                    ops.push(DeviceOp::SpiRead { count: (#[verifier::truncate] (count as u16)) });
                },
            },
            Some(Commands::SetConfig { i2c_frequency, spi_frequency, spi_first_transition, spi_idle_low }) => {
                let spi_polarity = spi_polarity_from_flag(spi_idle_low);
                let spi_phase = spi_phase_from_flag(spi_first_transition);
                ops.push(DeviceOp::SetConfig { i2c_frequency, spi_frequency, spi_phase, spi_polarity });
            },
        }
        proof {
            assert(ops@.map_values(|op: DeviceOp| op.view()) =~= planned_ops(command));
        }
        ops
    }
}

} // verus!
