use vstd::prelude::*;

verus! {

/// The duty values that drive the door servo, in steps of the PWM channel:
/// the duty at 0 degrees and the span from there to 180 degrees.
#[derive(Debug, Clone, Copy, PartialEq, Eq, Structural)]
pub struct DutyRange {
    pub min_duty: u32,
    pub duty_gap: u32,
}

/// The servo's pulse runs from 2.5% of the period (0 degrees) to 12.5%
/// (180 degrees) of a channel whose full duty is `max_duty_cycle`.
pub fn duty_range(max_duty_cycle: u16) -> (r: DutyRange)
    ensures
        r.min_duty == 25 * max_duty_cycle as int / 1000,
        r.min_duty + r.duty_gap == 125 * max_duty_cycle as int / 1000,
{
    let max = max_duty_cycle as u32;
    let min_duty = (25 * max) / 1000;
    let max_duty = (125 * max) / 1000;
    assert(25 * max / 1000 <= 125 * max / 1000) by (nonlinear_arith)
        requires
            max <= 65535,
    ;
    DutyRange { min_duty, duty_gap: max_duty - min_duty }
}

/// The duty that turns the servo to `deg` degrees, truncated to the
/// channel's 16-bit duty register.
pub fn duty_from_angle(deg: u32, range: DutyRange) -> (r: u16)
    requires
        deg as int * range.duty_gap as int <= u32::MAX,
        range.min_duty + deg as int * range.duty_gap as int / 180 <= u32::MAX,
    ensures
        r == (range.min_duty + deg as int * range.duty_gap as int / 180) as u16,
{
    let duty = range.min_duty + ((deg * range.duty_gap) / 180);
    duty as u16
}

} // verus!
