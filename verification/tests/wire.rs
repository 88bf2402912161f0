use pico_de_gallo::wire::{GpioState, I2cFrequency, SpiPhase, SpiPolarity, MAX_TRANSFER_SIZE};

#[test]
fn gpio_state_from_bool() {
    assert_eq!(GpioState::from(true), GpioState::High);
    assert_eq!(GpioState::from(false), GpioState::Low);
}

#[test]
fn bool_from_gpio_state() {
    assert_eq!(bool::from(GpioState::High), true);
    assert_eq!(bool::from(GpioState::Low), false);
}

#[test]
fn i2c_frequency_discriminants_are_stable() {
    assert_eq!(I2cFrequency::Standard as u8, 0);
    assert_eq!(I2cFrequency::Fast as u8, 1);
    assert_eq!(I2cFrequency::FastPlus as u8, 2);
}

#[test]
fn gpio_state_bool_round_trip() {
    for state in [GpioState::Low, GpioState::High] {
        assert_eq!(GpioState::from(bool::from(state)), state);
    }
    for b in [false, true] {
        assert_eq!(bool::from(GpioState::from(b)), b);
    }
}

#[test]
fn i2c_frequency_in_hz() {
    assert_eq!(I2cFrequency::Standard.hz(), 100_000);
    assert_eq!(I2cFrequency::Fast.hz(), 400_000);
    assert_eq!(I2cFrequency::FastPlus.hz(), 1_000_000);
}

#[test]
fn spi_mode_variant_order_is_stable() {
    assert_eq!(SpiPhase::CaptureOnFirstTransition as u8, 0);
    assert_eq!(SpiPhase::CaptureOnSecondTransition as u8, 1);
    assert_eq!(SpiPolarity::IdleLow as u8, 0);
    assert_eq!(SpiPolarity::IdleHigh as u8, 1);
    assert_eq!(GpioState::Low as u8, 0);
    assert_eq!(GpioState::High as u8, 1);
    assert_eq!(MAX_TRANSFER_SIZE, 4096);
}
