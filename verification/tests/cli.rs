use pico_de_gallo::cli::{
    hex_dump, parse_byte, scan_cell, scan_header, scan_row_label, scan_should_probe, Cli, Commands,
    DeviceOp, I2cCommands, SpiCommands,
};
use pico_de_gallo::wire::{SpiPhase, SpiPolarity};

#[test]
fn byte_arguments() {
    assert_eq!(parse_byte("0x48").unwrap(), 0x48);
    assert_eq!(parse_byte("0xFF").unwrap(), 255);
    assert_eq!(parse_byte("0b1010").unwrap(), 10);
    assert_eq!(parse_byte("42").unwrap(), 42);
    assert_eq!(parse_byte("+7").unwrap(), 7);
    assert_eq!(parse_byte("0x+f").unwrap(), 15);
    assert!(parse_byte("256").is_err());
    assert!(parse_byte("0x100").is_err());
    assert!(parse_byte("0b2").is_err());
    assert!(parse_byte("").is_err());
    assert!(parse_byte("0x").is_err());
    assert!(parse_byte("+").is_err());
    assert!(parse_byte("-1").is_err());
    assert!(parse_byte(" 1").is_err());
}

#[test]
fn scan_table_text() {
    assert!(!scan_should_probe(0x03, false));
    assert!(scan_should_probe(0x03, true));
    assert!(scan_should_probe(0x48, false));
    assert!(!scan_should_probe(0x7a, false));
    assert_eq!(scan_cell(0x03, false, true), "RR");
    assert_eq!(scan_cell(0x03, true, true), "03");
    assert_eq!(scan_cell(0x4a, false, true), "4a");
    assert_eq!(scan_cell(0x4a, false, false), "--");
    let header = scan_header();
    assert_eq!(header.len(), 17);
    assert_eq!(header[0], "");
    assert_eq!(header[1], "0");
    assert_eq!(header[16], "f");
    assert_eq!(scan_row_label(7), "7 ");
}

#[test]
fn dump_text() {
    assert_eq!(hex_dump(&[]), "\n");
    assert_eq!(hex_dump(&[0xde, 0xad, 0x0f]), "de ad 0f \n");
    let bytes: Vec<u8> = (0..17).collect();
    assert_eq!(
        hex_dump(&bytes),
        "00 01 02 03 04 05 06 07 08 09 0a 0b 0c 0d 0e 0f \n10 \n"
    );
}

#[test]
fn command_plans() {
    let cli = Cli {
        serial_number: None,
        command: Some(Commands::Spi {
            command: Some(SpiCommands::WriteRead { count: 70000, bytes: vec![1, 2] }),
        }),
    };
    let ops = cli.plan();
    assert_eq!(ops.len(), 2);
    assert!(matches!(&ops[0], DeviceOp::SpiWrite { bytes } if bytes == &vec![1, 2]));
    assert!(matches!(ops[1], DeviceOp::SpiRead { count: 4464 }));

    let cli = Cli {
        serial_number: Some("ABC".to_string()),
        command: Some(Commands::SetConfig {
            i2c_frequency: 400_000,
            spi_frequency: 1_000_000,
            spi_first_transition: true,
            spi_idle_low: false,
        }),
    };
    let ops = cli.plan();
    assert!(matches!(
        ops[0],
        DeviceOp::SetConfig {
            i2c_frequency: 400_000,
            spi_frequency: 1_000_000,
            spi_phase: SpiPhase::CaptureOnFirstTransition,
            spi_polarity: SpiPolarity::IdleHigh
        }
    ));
    let cli = Cli {
        serial_number: None,
        command: Some(Commands::I2c { command: Some(I2cCommands::Read { address: 0x50, count: 8 }) }),
    };
    assert!(matches!(cli.plan()[0], DeviceOp::I2cRead { address: 0x50, count: 8 }));
    assert!(Cli { serial_number: None, command: None }.plan().is_empty());
}
