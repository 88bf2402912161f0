use pico_de_gallo::pwm::{
    compute_pwm_params, pwm_channel_parts, pwm_get_config_handler, pwm_get_duty_cycle_handler,
    pwm_set_config_handler, pwm_set_duty_cycle_handler, pwm_enable_handler, pwm_disable_handler, PwmChannelRequest,
    PwmConfigurationInfo, PwmDutyCycleInfo, PwmError, PwmSetConfigurationRequest,
    PwmSetDutyCycleRequest, PwmSliceConfig, SYS_CLK_HZ,
};

fn slices() -> Vec<PwmSliceConfig> {
    let cfg = PwmSliceConfig {
        top: 999,
        divider_bits: 16,
        compare_a: 0,
        compare_b: 0,
        phase_correct: false,
        enable: false,
    };
    vec![cfg, cfg]
}

#[test]
fn channel_parts() {
    assert_eq!(pwm_channel_parts(0), Ok((0, false)));
    assert_eq!(pwm_channel_parts(1), Ok((0, true)));
    assert_eq!(pwm_channel_parts(2), Ok((1, false)));
    assert_eq!(pwm_channel_parts(3), Ok((1, true)));
    assert_eq!(pwm_channel_parts(4), Err(PwmError::InvalidChannel));
    assert_eq!(pwm_channel_parts(255), Err(PwmError::InvalidChannel));
}

#[test]
fn params_for_frequencies() {
    assert_eq!(compute_pwm_params(0, false), Err(PwmError::InvalidConfiguration));
    // 1 kHz: 150 MHz / 1 kHz = 150000 > 65536 with div 1; div 3 gives 50000 - 1.
    assert_eq!(compute_pwm_params(1000, false), Ok((49999, 3)));
    assert_eq!(compute_pwm_params(1000, true), Ok((37500, 2)));
    // 75 MHz: 150 MHz / 75 MHz = 2 → top 1.
    assert_eq!(compute_pwm_params(75_000_000, false), Ok((1, 1)));
    // too fast: top would be 0
    assert_eq!(compute_pwm_params(100_000_000, false), Err(PwmError::InvalidConfiguration));
    // 1 Hz needs a large divider: 150 MHz / 2289 = 65530.
    assert_eq!(compute_pwm_params(1, false), Ok((65529, 2289)));
    for f in [10u32, 50, 440, 20_000, 1_000_000] {
        let (top, div) = compute_pwm_params(f, false).unwrap();
        let period = div as u64 * (top as u64 + 1);
        assert!(period * f as u64 <= SYS_CLK_HZ as u64);
        assert!((period + div as u64) * f as u64 > SYS_CLK_HZ as u64);
    }
}

#[test]
fn duty_cycle_set_and_get() {
    let mut s = slices();
    assert_eq!(
        pwm_set_duty_cycle_handler(&mut s, PwmSetDutyCycleRequest { channel: 3, duty: 250 }),
        Ok(1)
    );
    assert_eq!(
        pwm_get_duty_cycle_handler(&s, PwmChannelRequest { channel: 3 }),
        Ok(PwmDutyCycleInfo { current_duty: 250, max_duty: 1000 })
    );
    // clamped to top + 1
    pwm_set_duty_cycle_handler(&mut s, PwmSetDutyCycleRequest { channel: 2, duty: 5000 }).unwrap();
    assert_eq!(s[1].compare_a, 1000);
    assert_eq!(s[1].compare_b, 250);
    assert_eq!(
        pwm_set_duty_cycle_handler(&mut s, PwmSetDutyCycleRequest { channel: 9, duty: 1 }),
        Err(PwmError::InvalidChannel)
    );
}

#[test]
fn config_set_scales_duty_and_reports_frequency() {
    let mut s = slices();
    pwm_set_duty_cycle_handler(&mut s, PwmSetDutyCycleRequest { channel: 0, duty: 500 }).unwrap();
    assert_eq!(pwm_enable_handler(&mut s, PwmChannelRequest { channel: 1 }), Ok(0));
    assert_eq!(
        pwm_set_config_handler(
            &mut s,
            PwmSetConfigurationRequest { channel: 0, frequency_hz: 1000, phase_correct: false }
        ),
        Ok(0)
    );
    assert_eq!(s[0].top, 49999);
    assert_eq!(s[0].divider_bits, 3 * 16);
    assert_eq!(s[0].compare_a, (500u32 * 49999 / 999) as u16);
    assert_eq!(
        pwm_get_config_handler(&s, PwmChannelRequest { channel: 1 }),
        Ok(PwmConfigurationInfo { frequency_hz: 1000, phase_correct: false, enabled: true })
    );
    assert_eq!(
        pwm_set_config_handler(
            &mut s,
            PwmSetConfigurationRequest { channel: 2, frequency_hz: 0, phase_correct: true }
        ),
        Err(PwmError::InvalidConfiguration)
    );
    assert_eq!(s[1], slices()[1]);
}

#[test]
fn enable_and_disable_switch_the_slice() {
    let mut s = slices();
    assert_eq!(pwm_enable_handler(&mut s, PwmChannelRequest { channel: 2 }), Ok(1));
    assert!(s[1].enable);
    assert!(!s[0].enable);
    assert_eq!(pwm_disable_handler(&mut s, PwmChannelRequest { channel: 3 }), Ok(1));
    assert!(!s[1].enable);
    assert_eq!(
        pwm_disable_handler(&mut s, PwmChannelRequest { channel: 4 }),
        Err(PwmError::InvalidChannel)
    );
    assert_eq!(s, slices());
}
