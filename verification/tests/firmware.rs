use pico_de_gallo::firmware::{
    adc_channel_index, check_spi_frequency, check_uart_baud_rate, i2c_scan_range, map_i2c_error,
    cs_pin_index, i2c_batch_step, spi_batch_step, response_offsets, transfer_len, uart_read_len, validate_batch, AdcChannel, BatchOp,
    BatchRejection, I2cAbortReason, I2cBatchError, I2cBusFault, I2cError, I2cScan, SpiBatchError,
    SpiError, UartError,
};

#[test]
fn i2c_error_mapping() {
    assert_eq!(map_i2c_error(I2cBusFault::Abort(I2cAbortReason::NoAcknowledge)), I2cError::NoAcknowledge);
    assert_eq!(map_i2c_error(I2cBusFault::Abort(I2cAbortReason::ArbitrationLoss)), I2cError::ArbitrationLoss);
    assert_eq!(map_i2c_error(I2cBusFault::Abort(I2cAbortReason::TxNotEmpty(3))), I2cError::Overrun);
    assert_eq!(map_i2c_error(I2cBusFault::Abort(I2cAbortReason::Other(7))), I2cError::Bus);
    assert_eq!(map_i2c_error(I2cBusFault::InvalidReadBufferLength), I2cError::BufferTooLong);
    assert_eq!(map_i2c_error(I2cBusFault::InvalidWriteBufferLength), I2cError::BufferTooLong);
    assert_eq!(map_i2c_error(I2cBusFault::AddressOutOfRange(0x80)), I2cError::AddressOutOfRange);
    assert_eq!(map_i2c_error(I2cBusFault::AddressReserved(0x01)), I2cError::AddressOutOfRange);
}

#[test]
fn simple_checks() {
    assert_eq!(adc_channel_index(AdcChannel::Adc0), 0);
    assert_eq!(adc_channel_index(AdcChannel::Adc3), 3);
    assert_eq!(transfer_len(4096), Some(4096));
    assert_eq!(transfer_len(4097), None);
    assert_eq!(uart_read_len(10), 10);
    assert_eq!(uart_read_len(u16::MAX), 4096);
    assert_eq!(check_spi_frequency(0), Err(SpiError::Other));
    assert_eq!(check_spi_frequency(1_000_000), Ok(()));
    assert_eq!(check_spi_frequency(75_000_000), Ok(()));
    assert_eq!(check_spi_frequency(75_000_001), Err(SpiError::Other));
    assert_eq!(check_spi_frequency(80_000_000), Err(SpiError::Other));
    assert_eq!(check_spi_frequency(u32::MAX), Err(SpiError::Other));
    assert_eq!(check_uart_baud_rate(0), Err(UartError::InvalidBaudRate));
    assert_eq!(check_uart_baud_rate(115_200), Ok(()));
    assert_eq!(i2c_scan_range(true), (0x00, 0x7F));
    assert_eq!(i2c_scan_range(false), (0x08, 0x77));
}

#[test]
fn scan_collects_acked_addresses() {
    let mut scan = I2cScan::new();
    for addr in 0x08u8..=0x77 {
        assert!(scan.record(addr, addr == 0x48 || addr == 0x50));
    }
    assert_eq!(scan.addresses(), &vec![0x48, 0x50]);
}

#[test]
fn batch_validation() {
    let ops = vec![
        BatchOp::Write { len: 2 },
        BatchOp::Read { len: 4 },
        BatchOp::DelayNs { ns: 100 },
        BatchOp::Transfer { len: 3 },
    ];
    assert_eq!(validate_batch(4, 32, &ops, false), Ok(7));
    assert_eq!(validate_batch(40, 32, &ops, false), Err(BatchRejection::TooManyOps));
    assert_eq!(validate_batch(5, 32, &ops, true), Err(BatchRejection::Malformed { at: 4 }));
    assert_eq!(validate_batch(3, 32, &ops, false), Err(BatchRejection::CountMismatch));
    let big = vec![BatchOp::Read { len: 4000 }, BatchOp::Read { len: 97 }];
    assert_eq!(validate_batch(2, 32, &big, false), Err(BatchRejection::TooMuchData));
    assert_eq!(response_offsets(&ops), vec![0, 0, 4, 4]);
    assert_eq!(
        BatchRejection::Malformed { at: 4 }.to_i2c_error(),
        I2cBatchError { failed_op: 4, kind: I2cError::Other }
    );
    assert_eq!(
        BatchRejection::TooMuchData.to_spi_error(),
        SpiBatchError { failed_op: 0, kind: SpiError::BufferTooLong }
    );
}

#[test]
fn batch_execution_steps() {
    // a batch walks its operations one by one and stops at the first failure
    let outcomes = [
        Ok(()),
        Ok(()),
        Err(I2cBusFault::Abort(I2cAbortReason::NoAcknowledge)),
        Ok(()),
    ];
    let mut state: Result<u16, I2cBatchError> = Ok(0);
    let mut ran = 0;
    for outcome in outcomes {
        match state {
            Ok(i) => {
                ran += 1;
                state = i2c_batch_step(i, outcome);
            }
            Err(_) => break,
        }
    }
    assert_eq!(ran, 3);
    assert_eq!(state, Err(I2cBatchError { failed_op: 2, kind: I2cError::NoAcknowledge }));
    assert_eq!(i2c_batch_step(7, Ok(())), Ok(8));
    assert_eq!(
        i2c_batch_step(0, Err(I2cBusFault::InvalidReadBufferLength)),
        Err(I2cBatchError { failed_op: 0, kind: I2cError::BufferTooLong })
    );
    assert_eq!(spi_batch_step(4, true), Ok(5));
    assert_eq!(
        spi_batch_step(4, false),
        Err(SpiBatchError { failed_op: 4, kind: SpiError::Other })
    );
}

#[test]
fn chip_select_pin() {
    let available = vec![true, false, true, true];
    assert_eq!(cs_pin_index(0, &available), Ok(0));
    assert_eq!(cs_pin_index(3, &available), Ok(3));
    let refused = Err(SpiBatchError { failed_op: 0, kind: SpiError::Other });
    assert_eq!(cs_pin_index(1, &available), refused);
    assert_eq!(cs_pin_index(4, &available), refused);
    assert_eq!(cs_pin_index(255, &available), refused);
}
