//! PWM configuration logic of the firmware: mapping channels onto hardware
//! slices, choosing the counter wrap value and clock divider for a requested
//! frequency, and the duty-cycle and configuration bookkeeping of each slice.
use vstd::prelude::*;

verus! {

/// System clock frequency in Hz.
pub const SYS_CLK_HZ: u32 = 150_000_000;

/// Number of hardware PWM slices driving the PWM outputs.
pub const NUM_PWM_SLICES: usize = 2;

/// Number of PWM output channels (two per slice).
pub const NUM_PWM_CHANNELS: usize = 4;

/// Largest integer clock divider tried when fitting a frequency.
pub const MAX_PWM_DIVIDER: u32 = 4095;

/// Errors of the PWM endpoints.
#[derive(Debug, Clone, Copy, PartialEq, Eq, Structural)]
pub enum PwmError {
    /// The channel number is not one of the PWM outputs.
    InvalidChannel,
    /// The duty cycle is out of range.
    InvalidDutyCycle,
    /// The requested frequency cannot be produced.
    InvalidConfiguration,
}

/// The hardware slice driving `channel`, and whether the channel is the
/// slice's B output.
pub open spec fn channel_slice(channel: u8) -> (usize, bool) {
    ((channel / 2) as usize, channel % 2 == 1)
}

/// Returns the (slice_index, is_channel_b) pair for a PWM channel number.
///
/// Channel 0 → slice 0, channel A;
/// channel 1 → slice 0, channel B;
/// channel 2 → slice 1, channel A;
/// channel 3 → slice 1, channel B.
pub fn pwm_channel_parts(channel: u8) -> (r: Result<(usize, bool), PwmError>)
    ensures
        channel as usize >= NUM_PWM_CHANNELS ==> r == Err::<(usize, bool), PwmError>(PwmError::InvalidChannel),
        (channel as usize) < NUM_PWM_CHANNELS ==> r == Ok::<(usize, bool), PwmError>(channel_slice(channel)),
        r matches Ok((slice, _)) ==> slice < NUM_PWM_SLICES,
{
    if channel as usize >= NUM_PWM_CHANNELS {
        return Err(PwmError::InvalidChannel);
    }
    let slice_idx = (channel as usize) / 2;
    let is_b = !channel.is_multiple_of(2);
    Ok((slice_idx, is_b))
}

/// The counter wrap value (`top`) that divider `div` needs for frequency
/// `freq_hz`, if there is one:
/// `f = sys / (2 * div * top)` in phase-correct mode,
/// `f = sys / (div * (top + 1))` otherwise.
pub open spec fn pwm_top(div: int, freq_hz: int, phase_correct: bool) -> Option<int> {
    let sys = SYS_CLK_HZ as int;
    if phase_correct {
        Some(sys / (2 * div * freq_hz))
    } else if sys / (div * freq_hz) >= 1 {
        Some(sys / (div * freq_hz) - 1)
    } else {
        None
    }
}

/// Divider `div` yields a wrap value that the 16-bit counter can hold.
pub open spec fn divider_fits(div: int, freq_hz: int, phase_correct: bool) -> bool {
    match pwm_top(div, freq_hz, phase_correct) {
        Some(top) => 0 < top <= u16::MAX,
        None => false,
    }
}

/// The smallest divider from `d` to 4095 that fits, if any.
pub open spec fn first_fitting_divider(freq_hz: int, phase_correct: bool, d: int) -> Option<int>
    decreases MAX_PWM_DIVIDER + 1 - d,
{
    if d < 1 || d > MAX_PWM_DIVIDER {
        None
    } else if divider_fits(d, freq_hz, phase_correct) {
        Some(d)
    } else {
        first_fitting_divider(freq_hz, phase_correct, d + 1)
    }
}

/// The wrap value and divider chosen for `freq_hz`: the smallest fitting
/// divider and its wrap value.
pub open spec fn pwm_params(freq_hz: u32, phase_correct: bool) -> Result<(u16, u16), PwmError> {
    if freq_hz == 0 {
        Err(PwmError::InvalidConfiguration)
    } else {
        match first_fitting_divider(freq_hz as int, phase_correct, 1) {
            Some(d) => Ok(
                (pwm_top(d, freq_hz as int, phase_correct).unwrap() as u16, d as u16),
            ),
            None => Err(PwmError::InvalidConfiguration),
        }
    }
}

/// Compute `top` and integer divider from a target frequency: the smallest
/// divider from 1 to 4095 whose wrap value fits the counter, and that wrap
/// value.
///
/// For non-phase-correct:  `f_pwm = f_sys / (divider * (top + 1))`
/// For phase-correct:      `f_pwm = f_sys / (2 * divider * top)`
pub fn compute_pwm_params(freq_hz: u32, phase_correct: bool) -> (r: Result<(u16, u16), PwmError>)
    ensures
        r == pwm_params(freq_hz, phase_correct),
        freq_hz == 0 ==> r == Err::<(u16, u16), PwmError>(PwmError::InvalidConfiguration),
        freq_hz > 0 ==> match r {
            Ok((top, div)) => {
                &&& 1 <= div <= MAX_PWM_DIVIDER
                &&& divider_fits(div as int, freq_hz as int, phase_correct)
                &&& pwm_top(div as int, freq_hz as int, phase_correct) == Some(top as int)
                &&& forall|d: int| 1 <= d < div ==> !divider_fits(d, freq_hz as int, phase_correct)
            },
            Err(e) => {
                &&& e == PwmError::InvalidConfiguration
                &&& forall|d: int| 1 <= d <= MAX_PWM_DIVIDER ==> !divider_fits(d, freq_hz as int, phase_correct)
            },
        },
{
    if freq_hz == 0 {
        return Err(PwmError::InvalidConfiguration);
    }
    let mut div: u32 = 1;
    while div <= MAX_PWM_DIVIDER
        invariant
            1 <= div <= MAX_PWM_DIVIDER + 1,
            freq_hz > 0,
            forall|d: int| 1 <= d < div ==> !divider_fits(d, freq_hz as int, phase_correct),
            first_fitting_divider(freq_hz as int, phase_correct, 1) == first_fitting_divider(
                freq_hz as int,
                phase_correct,
                div as int,
            ),
        decreases MAX_PWM_DIVIDER + 1 - div,
    {
        proof {
            assert(2 * (div as int) * (freq_hz as int) <= 2 * 4095 * 4294967295) by (nonlinear_arith)
                requires
                    div <= 4095,
            ;
            assert((div as int) * (freq_hz as int) <= 4095 * 4294967295) by (nonlinear_arith)
                requires
                    div <= 4095,
            ;
            assert((div as int) * (freq_hz as int) >= 1) by (nonlinear_arith)
                requires
                    div >= 1,
                    freq_hz >= 1,
            ;
            assert(2 * (div as int) * (freq_hz as int) >= 1) by (nonlinear_arith)
                requires
                    div >= 1,
                    freq_hz >= 1,
            ;
        }
        let top: Option<u64> = if phase_correct {
            // f = sys / (2 * div * f), so top = sys / (2 * div * f)
            let denom = 2u64 * (div as u64) * (freq_hz as u64);
            proof {
                assert(denom as int == 2 * (div as int) * (freq_hz as int));
                lemma_div_bounded(SYS_CLK_HZ as int, denom as int);
            }
            (SYS_CLK_HZ as u64).checked_div(denom)
        } else {
            // f = sys / (div * (top + 1)), so top = sys / (div * f) - 1
            let denom = (div as u64) * (freq_hz as u64);
            proof {
                assert(denom as int == (div as int) * (freq_hz as int));
                lemma_div_bounded(SYS_CLK_HZ as int, denom as int);
            }
            match (SYS_CLK_HZ as u64).checked_div(denom) {
                Some(raw) => raw.checked_sub(1),
                None => None,
            }
        };
        proof {
            assert(top == match pwm_top(div as int, freq_hz as int, phase_correct) {
                Some(t) => Some(t as u64),
                None => None::<u64>,
            });
        }
        if let Some(t) = top {
            if t > 0 && t <= u16::MAX as u64 {
                return Ok((t as u16, div as u16));
            }
        }
        proof {
            assert(!divider_fits(div as int, freq_hz as int, phase_correct));
            assert(first_fitting_divider(freq_hz as int, phase_correct, div as int)
                == first_fitting_divider(freq_hz as int, phase_correct, div + 1));
        }
        div += 1;
    }
    Err(PwmError::InvalidConfiguration)
}

proof fn lemma_div_bounded(n: int, d: int)
    requires
        n >= 0,
        d >= 1,
    ensures
        0 <= n / d <= n,
{
    assert(0 <= n / d <= n) by (nonlinear_arith)
        requires
            n >= 0,
            d >= 1,
    ;
}

/// The wrap value chosen for a frequency gives the closest period, in system
/// clock cycles, that is not longer than the requested one: the produced
/// frequency is at least the requested one, and the next longer period
/// would fall below it.
pub proof fn lemma_pwm_params_frequency(freq_hz: u32, phase_correct: bool, top: u16, div: u16)
    requires
        freq_hz > 0,
        div >= 1,
        pwm_top(div as int, freq_hz as int, phase_correct) == Some(top as int),
    ensures
        !phase_correct ==> (div as int) * (top + 1) * freq_hz <= SYS_CLK_HZ < (div as int) * (top
            + 2) * freq_hz,
        phase_correct ==> 2 * (div as int) * top * freq_hz <= SYS_CLK_HZ < 2 * (div as int) * (top
            + 1) * freq_hz,
{
    let sys = SYS_CLK_HZ as int;
    if phase_correct {
        let d = 2 * (div as int) * (freq_hz as int);
        assert(d > 0) by (nonlinear_arith)
            requires
                div >= 1,
                freq_hz >= 1,
                d == 2 * (div as int) * (freq_hz as int),
        ;
        let q = sys / d;
        assert(q * d <= sys < (q + 1) * d) by (nonlinear_arith)
            requires
                d > 0,
                q == sys / d,
        ;
        assert(q * d == 2 * (div as int) * q * freq_hz) by (nonlinear_arith)
            requires
                d == 2 * (div as int) * (freq_hz as int),
        ;
        assert((q + 1) * d == 2 * (div as int) * (q + 1) * freq_hz) by (nonlinear_arith)
            requires
                d == 2 * (div as int) * (freq_hz as int),
        ;
    } else {
        let d = (div as int) * (freq_hz as int);
        assert(d > 0) by (nonlinear_arith)
            requires
                div >= 1,
                freq_hz >= 1,
                d == (div as int) * (freq_hz as int),
        ;
        let q = sys / d;
        assert(q * d <= sys < (q + 1) * d) by (nonlinear_arith)
            requires
                d > 0,
                q == sys / d,
        ;
        assert(q == top + 1);
        assert(q * d == (div as int) * q * freq_hz) by (nonlinear_arith)
            requires
                d == (div as int) * (freq_hz as int),
        ;
        assert((q + 1) * d == (div as int) * (q + 1) * freq_hz) by (nonlinear_arith)
            requires
                d == (div as int) * (freq_hz as int),
        ;
    }
}

/// The divider value `div` in the 12.4 fixed-point format of the PWM clock
/// divider register, as raw bits.
///
/// Trusted: calls `fixed`'s `ToFixed::to_fixed` to convert the integer into
/// `U12F4` and reads the result back with `to_bits`. The contract claims that
/// an integer below 4096 (which fits the 12 integer bits, so that the debug
/// overflow check of `to_fixed` cannot fire) converts exactly, which makes its
/// bits the integer shifted left by the 4 fraction bits.
#[verifier::external_body]
fn divider_bits(div: u16) -> (bits: u16)
    requires
        div < 4096,
    ensures
        bits == div * 16,
{
    let f: fixed::types::U12F4 = fixed::traits::ToFixed::to_fixed(div);
    f.to_bits()
}

/// The configuration of one PWM slice, as the firmware keeps it and hands it
/// to the hardware.
#[derive(Debug, Clone, Copy, PartialEq, Eq, Structural)]
pub struct PwmSliceConfig {
    /// Counter wrap value.
    pub top: u16,
    /// Clock divider, in 12.4 fixed-point bits.
    pub divider_bits: u16,
    /// Compare value of output A.
    pub compare_a: u16,
    /// Compare value of output B.
    pub compare_b: u16,
    /// Phase-correct (up/down) counting.
    pub phase_correct: bool,
    /// Whether the slice runs.
    pub enable: bool,
}

/// Request to set the duty cycle of a PWM channel.
#[derive(Debug, Clone, Copy, PartialEq, Eq)]
pub struct PwmSetDutyCycleRequest {
    pub channel: u8,
    /// Raw compare value.
    pub duty: u16,
}

/// Request naming a PWM channel (get duty cycle, enable, disable, get config).
#[derive(Debug, Clone, Copy, PartialEq, Eq)]
pub struct PwmChannelRequest {
    pub channel: u8,
}

/// Request to configure the frequency of a PWM channel's slice.
#[derive(Debug, Clone, Copy, PartialEq, Eq)]
pub struct PwmSetConfigurationRequest {
    pub channel: u8,
    pub frequency_hz: u32,
    pub phase_correct: bool,
}

/// Duty cycle of a channel.
#[derive(Debug, Clone, Copy, PartialEq, Eq, Structural)]
pub struct PwmDutyCycleInfo {
    /// Current compare value.
    pub current_duty: u16,
    /// Full-scale compare value (`top + 1`, saturating).
    pub max_duty: u16,
}

/// Configuration of a channel's slice.
#[derive(Debug, Clone, Copy, PartialEq, Eq, Structural)]
pub struct PwmConfigurationInfo {
    pub frequency_hz: u32,
    pub phase_correct: bool,
    pub enabled: bool,
}

/// `top + 1`, saturating at the largest 16-bit value.
pub open spec fn full_scale(top: u16) -> u16 {
    if top < u16::MAX {
        (top + 1) as u16
    } else {
        u16::MAX
    }
}

/// A compare value scaled from wrap value `old_top` to wrap value `top`.
pub open spec fn scaled_compare(compare: u16, old_top: u16, top: u16) -> u16 {
    if old_top == 0 {
        0
    } else {
        ((compare as int * top as int) / old_top as int) as u16
    }
}

/// The integer part of a 12.4 fixed-point divider, taking 0 as 1.
pub open spec fn divider_value(divider_bits: u16) -> int {
    if divider_bits / 16 == 0 {
        1
    } else {
        (divider_bits / 16) as int
    }
}

/// The output frequency a slice configuration produces, in Hz (0 when the
/// period is zero cycles).
pub open spec fn produced_frequency(cfg: PwmSliceConfig) -> u32 {
    let sys = SYS_CLK_HZ as int;
    let denom = if cfg.phase_correct {
        2 * divider_value(cfg.divider_bits) * cfg.top
    } else {
        divider_value(cfg.divider_bits) * (cfg.top + 1)
    };
    if denom == 0 {
        0
    } else {
        (sys / denom) as u32
    }
}

impl PwmSliceConfig {
    /// Set the compare value of output A or B, clamped to full scale.
    pub fn set_duty(&mut self, is_b: bool, duty: u16)
        ensures
            ({
                let compare = if duty <= full_scale(old(self).top) {
                    duty
                } else {
                    full_scale(old(self).top)
                };
                *final(self) == if is_b {
                    PwmSliceConfig { compare_b: compare, ..*old(self) }
                } else {
                    PwmSliceConfig { compare_a: compare, ..*old(self) }
                }
            }),
    {
        let max = self.top.saturating_add(1);
        let compare = if duty <= max {
            duty
        } else {
            max
        };
        if is_b {
            self.compare_b = compare;
        } else {
            self.compare_a = compare;
        }
    }

    /// The current duty cycle of output A or B.
    pub fn duty_info(&self, is_b: bool) -> (info: PwmDutyCycleInfo)
        ensures
            info == (PwmDutyCycleInfo {
                current_duty: if is_b { self.compare_b } else { self.compare_a },
                max_duty: full_scale(self.top),
            }),
    {
        let compare = if is_b {
            self.compare_b
        } else {
            self.compare_a
        };
        PwmDutyCycleInfo { current_duty: compare, max_duty: self.top.saturating_add(1) }
    }

    /// Switch the slice on or off.
    pub fn set_enabled(&mut self, enable: bool)
        ensures
            *final(self) == (PwmSliceConfig { enable, ..*old(self) }),
    {
        self.enable = enable;
    }

    /// Retune the slice to `freq_hz`: choose wrap value and divider, and scale
    /// both compare values proportionally to the new wrap value. On error the
    /// configuration is unchanged.
    pub fn apply_frequency(&mut self, freq_hz: u32, phase_correct: bool) -> (r: Result<(), PwmError>)
        ensures
            match pwm_params(freq_hz, phase_correct) {
                Ok((top, div)) => {
                    &&& r is Ok
                    &&& *final(self) == (PwmSliceConfig {
                        top,
                        divider_bits: (div * 16) as u16,
                        compare_a: scaled_compare(old(self).compare_a, old(self).top, top),
                        compare_b: scaled_compare(old(self).compare_b, old(self).top, top),
                        phase_correct,
                        enable: old(self).enable,
                    })
                },
                Err(e) => r == Err::<(), PwmError>(e) && *final(self) == *old(self),
            },
    {
        let (top, div) = match compute_pwm_params(freq_hz, phase_correct) {
            Ok(p) => p,
            Err(e) => return Err(e),
        };
        // Preserve existing compare values (scaled to new top if needed)
        let old_top = self.top;
        proof {
            let (ca, cb) = (self.compare_a, self.compare_b);
            assert((ca as int) * (top as int) <= 65535 * 65535) by (nonlinear_arith)
                requires
                    ca <= 65535,
                    top <= 65535,
            ;
            assert((cb as int) * (top as int) <= 65535 * 65535) by (nonlinear_arith)
                requires
                    cb <= 65535,
                    top <= 65535,
            ;
        }
        let new_a = if old_top == 0 {
            0
        } else {
            (#[verifier::truncate] (((self.compare_a as u32 * top as u32) / old_top as u32) as u16))
        };
        let new_b = if old_top == 0 {
            0
        } else {
            (#[verifier::truncate] (((self.compare_b as u32 * top as u32) / old_top as u32) as u16))
        };
        self.top = top;
        self.divider_bits = divider_bits(div);
        self.phase_correct = phase_correct;
        self.compare_a = new_a;
        self.compare_b = new_b;
        Ok(())
    }

    /// The configuration of the slice as reported to the host: the frequency
    /// it produces, and its mode and state.
    pub fn config_info(&self) -> (info: PwmConfigurationInfo)
        ensures
            info == (PwmConfigurationInfo {
                frequency_hz: produced_frequency(*self),
                phase_correct: self.phase_correct,
                enabled: self.enable,
            }),
    {
        // Reconstruct frequency from top/divider/phase_correct
        let div_int: u32 = (self.divider_bits as u32) >> 4;  // integer part of 12.4 fixed
        let div_val = if div_int == 0 {
            1u32
        } else {
            div_int
        };
        proof {
            let bits = self.divider_bits;
            assert((bits as u32) >> 4 == bits / 16) by (bit_vector);
            assert(div_val <= 4096);
            assert((div_val as int) * (self.top as int) <= 4096 * 65535) by (nonlinear_arith)
                requires
                    div_val <= 4096,
            ;
            assert(2 * (div_val as int) * (self.top as int) <= 2 * 4096 * 65535) by (nonlinear_arith)
                requires
                    div_val <= 4096,
            ;
            assert((div_val as int) * (self.top as int + 1) <= 4096 * 65536) by (nonlinear_arith)
                requires
                    div_val <= 4096,
            ;
        }
        let frequency_hz = if self.phase_correct {
            // f = sys / (2 * div * top)
            let denom = 2u64 * (div_val as u64) * (self.top as u64);
            match (SYS_CLK_HZ as u64).checked_div(denom) {
                Some(q) => q as u32,
                None => 0,
            }
        } else {
            // f = sys / (div * (top + 1))
            let denom = (div_val as u64) * (self.top as u64 + 1);
            match (SYS_CLK_HZ as u64).checked_div(denom) {
                Some(q) => q as u32,
                None => 0,
            }
        };
        PwmConfigurationInfo { frequency_hz, phase_correct: self.phase_correct, enabled: self.enable }
    }
}

/// Handler for `pwm/set-duty-cycle`: sets the (clamped) compare value of a
/// channel and returns the slice whose configuration changed.
pub fn pwm_set_duty_cycle_handler(slices: &mut Vec<PwmSliceConfig>, req: PwmSetDutyCycleRequest) -> (r: Result<usize, PwmError>)
    requires
        old(slices)@.len() == NUM_PWM_SLICES,
    ensures
        final(slices)@.len() == NUM_PWM_SLICES,
        (req.channel as usize) >= NUM_PWM_CHANNELS ==> r == Err::<usize, PwmError>(PwmError::InvalidChannel)
            && final(slices)@ == old(slices)@,
        (req.channel as usize) < NUM_PWM_CHANNELS ==> ({
            let (slice, is_b) = channel_slice(req.channel);
            let cfg = old(slices)@[slice as int];
            let compare = if req.duty <= full_scale(cfg.top) { req.duty } else { full_scale(cfg.top) };
            &&& r == Ok::<usize, PwmError>(slice)
            &&& final(slices)@ == old(slices)@.update(slice as int, if is_b {
                PwmSliceConfig { compare_b: compare, ..cfg }
            } else {
                PwmSliceConfig { compare_a: compare, ..cfg }
            })
        }),
{
    let (slice_idx, is_b) = match pwm_channel_parts(req.channel) {
        Ok(p) => p,
        Err(e) => return Err(e),
    };
    let mut cfg = slices[slice_idx];
    cfg.set_duty(is_b, req.duty);
    slices.set(slice_idx, cfg);
    Ok(slice_idx)
}

/// Handler for `pwm/get-duty-cycle`: the compare value of a channel and its
/// full-scale value.
pub fn pwm_get_duty_cycle_handler(slices: &Vec<PwmSliceConfig>, req: PwmChannelRequest) -> (r: Result<PwmDutyCycleInfo, PwmError>)
    requires
        slices@.len() == NUM_PWM_SLICES,
    ensures
        (req.channel as usize) >= NUM_PWM_CHANNELS ==> r == Err::<PwmDutyCycleInfo, PwmError>(PwmError::InvalidChannel),
        (req.channel as usize) < NUM_PWM_CHANNELS ==> ({
            let (slice, is_b) = channel_slice(req.channel);
            let cfg = slices@[slice as int];
            r == Ok::<PwmDutyCycleInfo, PwmError>(PwmDutyCycleInfo {
                current_duty: if is_b { cfg.compare_b } else { cfg.compare_a },
                max_duty: full_scale(cfg.top),
            })
        }),
{
    let (slice_idx, is_b) = match pwm_channel_parts(req.channel) {
        Ok(p) => p,
        Err(e) => return Err(e),
    };
    Ok(slices[slice_idx].duty_info(is_b))
}

/// Handler for `pwm/enable`: switches the slice of a channel on and
/// returns that slice.
pub fn pwm_enable_handler(slices: &mut Vec<PwmSliceConfig>, req: PwmChannelRequest) -> (r: Result<usize, PwmError>)
    requires
        old(slices)@.len() == NUM_PWM_SLICES,
    ensures
        final(slices)@.len() == NUM_PWM_SLICES,
        (req.channel as usize) >= NUM_PWM_CHANNELS ==> r == Err::<usize, PwmError>(PwmError::InvalidChannel)
            && final(slices)@ == old(slices)@,
        (req.channel as usize) < NUM_PWM_CHANNELS ==> ({
            let slice = channel_slice(req.channel).0;
            &&& r == Ok::<usize, PwmError>(slice)
            &&& final(slices)@ == old(slices)@.update(slice as int, PwmSliceConfig { enable: true, ..old(slices)@[slice as int] })
        }),
{
    let (slice_idx, _) = match pwm_channel_parts(req.channel) {
        Ok(p) => p,
        Err(e) => return Err(e),
    };
    let mut cfg = slices[slice_idx];
    cfg.set_enabled(true);
    slices.set(slice_idx, cfg);
    Ok(slice_idx)
}

/// Handler for `pwm/disable`: switches the slice of a channel off and
/// returns that slice.
pub fn pwm_disable_handler(slices: &mut Vec<PwmSliceConfig>, req: PwmChannelRequest) -> (r: Result<usize, PwmError>)
    requires
        old(slices)@.len() == NUM_PWM_SLICES,
    ensures
        final(slices)@.len() == NUM_PWM_SLICES,
        (req.channel as usize) >= NUM_PWM_CHANNELS ==> r == Err::<usize, PwmError>(PwmError::InvalidChannel)
            && final(slices)@ == old(slices)@,
        (req.channel as usize) < NUM_PWM_CHANNELS ==> ({
            let slice = channel_slice(req.channel).0;
            &&& r == Ok::<usize, PwmError>(slice)
            &&& final(slices)@ == old(slices)@.update(slice as int, PwmSliceConfig { enable: false, ..old(slices)@[slice as int] })
        }),
{
    let (slice_idx, _) = match pwm_channel_parts(req.channel) {
        Ok(p) => p,
        Err(e) => return Err(e),
    };
    let mut cfg = slices[slice_idx];
    cfg.set_enabled(false);
    slices.set(slice_idx, cfg);
    Ok(slice_idx)
}

/// Handler for `pwm/set-config`: retunes the slice of a channel to the
/// requested frequency and mode, and returns that slice.
pub fn pwm_set_config_handler(slices: &mut Vec<PwmSliceConfig>, req: PwmSetConfigurationRequest) -> (r: Result<usize, PwmError>)
    requires
        old(slices)@.len() == NUM_PWM_SLICES,
    ensures
        final(slices)@.len() == NUM_PWM_SLICES,
        (req.channel as usize) >= NUM_PWM_CHANNELS ==> r == Err::<usize, PwmError>(PwmError::InvalidChannel)
            && final(slices)@ == old(slices)@,
        (req.channel as usize) < NUM_PWM_CHANNELS ==> ({
            let slice = channel_slice(req.channel).0;
            let cfg = old(slices)@[slice as int];
            match pwm_params(req.frequency_hz, req.phase_correct) {
                Ok((top, div)) => {
                    &&& r == Ok::<usize, PwmError>(slice)
                    &&& final(slices)@ == old(slices)@.update(slice as int, PwmSliceConfig {
                        top,
                        divider_bits: (div * 16) as u16,
                        compare_a: scaled_compare(cfg.compare_a, cfg.top, top),
                        compare_b: scaled_compare(cfg.compare_b, cfg.top, top),
                        phase_correct: req.phase_correct,
                        enable: cfg.enable,
                    })
                },
                Err(e) => r == Err::<usize, PwmError>(e) && final(slices)@ == old(slices)@,
            }
        }),
{
    let (slice_idx, _) = match pwm_channel_parts(req.channel) {
        Ok(p) => p,
        Err(e) => return Err(e),
    };
    let mut cfg = slices[slice_idx];
    match cfg.apply_frequency(req.frequency_hz, req.phase_correct) {
        Ok(()) => {},
        Err(e) => return Err(e),
    }
    slices.set(slice_idx, cfg);
    Ok(slice_idx)
}

/// Handler for `pwm/get-config`: the frequency, mode, and state of a
/// channel's slice.
pub fn pwm_get_config_handler(slices: &Vec<PwmSliceConfig>, req: PwmChannelRequest) -> (r: Result<PwmConfigurationInfo, PwmError>)
    requires
        slices@.len() == NUM_PWM_SLICES,
    ensures
        (req.channel as usize) >= NUM_PWM_CHANNELS ==> r == Err::<PwmConfigurationInfo, PwmError>(PwmError::InvalidChannel),
        (req.channel as usize) < NUM_PWM_CHANNELS ==> ({
            let cfg = slices@[channel_slice(req.channel).0 as int];
            r == Ok::<PwmConfigurationInfo, PwmError>(PwmConfigurationInfo {
                frequency_hz: produced_frequency(cfg),
                phase_correct: cfg.phase_correct,
                enabled: cfg.enable,
            })
        }),
{
    let (slice_idx, _) = match pwm_channel_parts(req.channel) {
        Ok(p) => p,
        Err(e) => return Err(e),
    };
    Ok(slices[slice_idx].config_info())
}

/// Retuning a slice to a frequency makes it produce at least that frequency,
/// and less than one wrap step more: at most `f * (top + 1) / top` in
/// phase-correct mode, `f * (top + 2) / (top + 1)` otherwise (the produced
/// frequency is what [`PwmSliceConfig::config_info`] reports).
pub proof fn lemma_retuned_frequency(cfg: PwmSliceConfig, freq_hz: u32, phase_correct: bool)
    requires
        pwm_params(freq_hz, phase_correct) is Ok,
    ensures
        ({
            let (top, div) = pwm_params(freq_hz, phase_correct).unwrap();
            let tuned = PwmSliceConfig {
                top,
                divider_bits: (div * 16) as u16,
                compare_a: scaled_compare(cfg.compare_a, cfg.top, top),
                compare_b: scaled_compare(cfg.compare_b, cfg.top, top),
                phase_correct,
                enable: cfg.enable,
            };
            &&& produced_frequency(tuned) >= freq_hz
            &&& phase_correct ==> produced_frequency(tuned) * top < freq_hz * (top + 1)
            &&& !phase_correct ==> produced_frequency(tuned) * (top + 1) < freq_hz * (top + 2)
        }),
{
    let (top, div) = pwm_params(freq_hz, phase_correct).unwrap();
    let d = first_fitting_divider(freq_hz as int, phase_correct, 1).unwrap();
    lemma_first_fitting_divider(freq_hz as int, phase_correct, 1);
    assert(1 <= d <= MAX_PWM_DIVIDER);
    assert(div == d);
    let t = pwm_top(d, freq_hz as int, phase_correct).unwrap();
    assert(0 < t <= u16::MAX);
    assert(top == t);
    lemma_pwm_params_frequency(freq_hz, phase_correct, top, div);
    let bits = (div * 16) as u16;
    assert(bits / 16 == div);
    assert(divider_value(bits) == div);
    let sys = SYS_CLK_HZ as int;
    let denom = if phase_correct {
        2 * (div as int) * top
    } else {
        (div as int) * (top + 1)
    };
    assert(denom * freq_hz <= sys) by (nonlinear_arith)
        requires
            phase_correct ==> denom == 2 * (div as int) * top,
            !phase_correct ==> denom == (div as int) * (top + 1),
            !phase_correct ==> (div as int) * (top + 1) * freq_hz <= sys,
            phase_correct ==> 2 * (div as int) * top * freq_hz <= sys,
    ;
    assert(denom >= 1) by (nonlinear_arith)
        requires
            div >= 1,
            top >= 1,
            phase_correct ==> denom == 2 * (div as int) * top,
            !phase_correct ==> denom == (div as int) * (top + 1),
    ;
    assert(sys / denom >= freq_hz) by (nonlinear_arith)
        requires
            denom >= 1,
            denom * freq_hz <= sys,
    ;
    assert(sys / denom <= sys) by (nonlinear_arith)
        requires
            denom >= 1,
            sys >= 0,
    ;
    let f = freq_hz as int;
    let q = sys / denom;
    assert(q * denom <= sys) by (nonlinear_arith)
        requires
            denom >= 1,
            q == sys / denom,
    ;
    if phase_correct {
        assert(q * top < f * (top + 1)) by (nonlinear_arith)
            requires
                denom == 2 * (div as int) * top,
                div >= 1,
                q * denom <= sys,
                sys < 2 * (div as int) * (top + 1) * f,
        ;
    } else {
        assert(q * (top + 1) < f * (top + 2)) by (nonlinear_arith)
            requires
                denom == (div as int) * (top + 1),
                div >= 1,
                q * denom <= sys,
                sys < (div as int) * (top + 2) * f,
        ;
    }
}

proof fn lemma_first_fitting_divider(freq_hz: int, phase_correct: bool, d: int)
    ensures
        first_fitting_divider(freq_hz, phase_correct, d) matches Some(x) ==> d <= x <= MAX_PWM_DIVIDER
            && 1 <= x && divider_fits(x, freq_hz, phase_correct),
    decreases MAX_PWM_DIVIDER + 1 - d,
{
    if d >= 1 && d <= MAX_PWM_DIVIDER && !divider_fits(d, freq_hz, phase_correct) {
        lemma_first_fitting_divider(freq_hz, phase_correct, d + 1);
    }
}

/// The frequency a slice produces is the number of whole PWM periods per
/// second of the system clock: one period takes `divider * (top + 1)` system
/// clock cycles, or twice `divider * top` in phase-correct mode (counting up
/// and back down).
pub proof fn lemma_produced_frequency_periods(cfg: PwmSliceConfig)
    ensures
        ({
            let period = if cfg.phase_correct {
                2 * divider_value(cfg.divider_bits) * cfg.top
            } else {
                divider_value(cfg.divider_bits) * (cfg.top + 1)
            };
            &&& period == 0 ==> produced_frequency(cfg) == 0
            &&& period > 0 ==> produced_frequency(cfg) * period <= SYS_CLK_HZ
            &&& period > 0 ==> SYS_CLK_HZ < (produced_frequency(cfg) + 1) * period
        }),
{
    let period = if cfg.phase_correct {
        2 * divider_value(cfg.divider_bits) * cfg.top
    } else {
        divider_value(cfg.divider_bits) * (cfg.top + 1)
    };
    assert(divider_value(cfg.divider_bits) >= 1);
    assert(period >= 0) by (nonlinear_arith)
        requires
            divider_value(cfg.divider_bits) >= 1,
            cfg.phase_correct ==> period == 2 * divider_value(cfg.divider_bits) * cfg.top,
            !cfg.phase_correct ==> period == divider_value(cfg.divider_bits) * (cfg.top + 1),
            cfg.top >= 0,
    ;
    if period > 0 {
        let sys = SYS_CLK_HZ as int;
        let q = sys / period;
        lemma_div_bounded(sys, period);
        assert(q * period <= sys < (q + 1) * period) by (nonlinear_arith)
            requires
                period >= 1,
                q == sys / period,
        ;
        assert(produced_frequency(cfg) == q);
    }
}

/// The compare value stored for a channel is what was asked for, clamped to
/// full scale, and it is what the channel reports afterwards; the other
/// output of the slice keeps its value.
pub proof fn lemma_duty_set_then_get(cfg: PwmSliceConfig, is_b: bool, duty: u16)
    ensures
        ({
            let compare = if duty <= full_scale(cfg.top) { duty } else { full_scale(cfg.top) };
            let after = if is_b {
                PwmSliceConfig { compare_b: compare, ..cfg }
            } else {
                PwmSliceConfig { compare_a: compare, ..cfg }
            };
            &&& (if is_b { after.compare_b } else { after.compare_a }) == compare
            &&& compare <= full_scale(after.top)
            &&& (if is_b { after.compare_a } else { after.compare_b }) == (if is_b { cfg.compare_a } else { cfg.compare_b })
            &&& duty <= full_scale(cfg.top) ==> compare == duty
        }),
{
}

} // verus!
