# pico_de_gallo

Host and firmware logic of Pico de Gallo, a USB bridge that gives a computer
I2C, SPI, UART, GPIO, PWM, ADC and 1-Wire access, plus a small logic analyzer.
The library is written in Verus: each function carries a contract and Verus
proves that the code meets it.

Layout:

- `src/decode.rs` — the I2C and UART protocol decoders for captured samples,
  with a model of each decoder as a state machine, and proofs that decoding
  can be split across chunks, what any sample stream decodes to (for UART,
  the bytes its falling edges and bit timing determine; for I2C, each ninth
  bit clocked in since a START ends a byte), how START, repeated START, data
  and STOP follow one another, and that a reset decoder acts as a fresh one.
- `src/analyzer.rs` — the state of the terminal logic analyzer: the sample
  ring buffer, scrolling, zoom, channel selection, key and capture-message
  handling, and the text of the screen's status bar and waveform.
- `src/pwm.rs` — PWM channel addressing, the choice of counter wrap value and
  clock divider for a frequency, and the PWM endpoint handlers.
- `src/firmware.rs` — the other firmware decisions: error mapping, request
  limits, the I2C scan, and the validation and buffer layout of batched bus
  operations, and the stepwise execution of a batch that stops at its first
  failed operation.
- `src/wire.rs` — the wire-protocol types shared by host and firmware.
- `src/cli.rs` — the command-line tool's logic: byte arguments, the I2C scan
  table, hex dumps, and the device requests each command makes.
- `src/text.rs` — decimal and hexadecimal rendering used by the above.
- `app/` — what surrounds the library: the `gallo-analyzer` terminal program,
  the command handling of the `gallo` tool (`app/gallo.rs`), and the
  serializable copies of the wire types (`app/wire.rs`).
- `tests/` — tests of the library on concrete inputs.

Not here: the firmware's endpoint handlers around the decisions of
`src/pwm.rs` and `src/firmware.rs` (the bus calls, the decoding of batch
operations from their wire form, driving the chip-select line, the scan
loop, the UART read) drive the RP2350 hardware through the embassy crates,
which this crate does not build; `app/` holds the host programs only.
