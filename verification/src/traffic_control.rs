//! Time-gated right-of-way policy for a movement through an intersection.
//!
//! A control is a pure value queried by simulated seconds of day: always
//! green, a periodic light schedule, or a stop sign.

use vstd::prelude::*;

verus! {

/// What a control shows to an incoming movement at a given second.
#[derive(Copy, Clone, Debug, PartialEq, Eq, Structural)]
pub enum TrafficBehavior {
    RED,
    ORANGE,
    GREEN,
    STOP,
}

impl TrafficBehavior {
    /// Only RED blocks passage for itinerary gating; STOP is handled
    /// by a separate mechanism and is never "passable" here.
    pub fn is_red(self) -> (r: bool)
        ensures
            r <==> self == TrafficBehavior::RED,
    {
        matches!(self, TrafficBehavior::RED)
    }
}

/// A periodic green/orange/red schedule with a phase offset.
#[derive(Copy, Clone, Debug, PartialEq, Eq, Structural)]
pub struct TrafficLightSchedule {
    pub period: usize,
    pub green: usize,
    pub orange: usize,
    pub red: usize,
    pub offset: usize,
}

impl TrafficLightSchedule {
    /// A schedule is coherent when its period is the sum of its phases.
    pub open spec fn wf(self) -> bool {
        self.period == self.green + self.orange + self.red
    }

    pub fn from_basic(green: usize, orange: usize, red: usize, offset: usize) -> (s: Self)
        requires
            green + orange + red <= usize::MAX,
        ensures
            s == (TrafficLightSchedule {
                period: (green + orange + red) as usize,
                green,
                orange,
                red,
                offset,
            }),
            s.wf(),
    {
        Self { period: green + orange + red, green, orange, red, offset }
    }
}

#[derive(Copy, Clone, Debug, PartialEq, Eq, Structural)]
pub enum TrafficControl {
    Always,
    Light(TrafficLightSchedule),
    StopSign,
}

/// What `get_behavior` computes: the phase bucket of
/// `(seconds + offset) % period` for a light, GREEN for an always-green
/// control, STOP for a stop sign.
pub open spec fn spec_behavior(c: TrafficControl, seconds: u32) -> TrafficBehavior {
    match c {
        TrafficControl::Always => TrafficBehavior::GREEN,
        TrafficControl::Light(s) => {
            let rem = (seconds + s.offset) % (s.period as int);
            if rem < s.green {
                TrafficBehavior::GREEN
            } else if rem < s.green + s.orange {
                TrafficBehavior::ORANGE
            } else {
                TrafficBehavior::RED
            }
        },
        TrafficControl::StopSign => TrafficBehavior::STOP,
    }
}

impl TrafficControl {
    /// A control can be evaluated at any time only if a light's period is
    /// positive (an empty schedule has no phase to be in) and its phases fit
    /// comfortably in a day-scale range.
    pub open spec fn wf(self) -> bool {
        match self {
            TrafficControl::Light(s) => s.wf() && s.period > 0 && s.period <= 1_000_000_000
                && s.offset <= 1_000_000_000,
            _ => true,
        }
    }

    pub fn is_always(&self) -> (r: bool)
        ensures
            r <==> self is Always,
    {
        matches!(self, TrafficControl::Always)
    }

    pub fn is_stop_sign(&self) -> (r: bool)
        ensures
            r <==> self is StopSign,
    {
        matches!(self, TrafficControl::StopSign)
    }

    pub fn is_light(&self) -> (r: bool)
        ensures
            r <==> self is Light,
    {
        matches!(self, TrafficControl::Light(_))
    }

    pub fn get_behavior(&self, seconds: u32) -> (r: TrafficBehavior)
        requires
            self.wf(),
        ensures
            r == spec_behavior(*self, seconds),
    {
        match self {
            TrafficControl::Always => TrafficBehavior::GREEN,
            TrafficControl::Light(schedule) => {
                let remainder = ((seconds as u64) + (schedule.offset as u64)) % (
                schedule.period as u64);
                if remainder < schedule.green as u64 {
                    TrafficBehavior::GREEN
                } else if remainder < (schedule.green as u64) + (schedule.orange as u64) {
                    TrafficBehavior::ORANGE
                } else {
                    TrafficBehavior::RED
                }
            },
            TrafficControl::StopSign => TrafficBehavior::STOP,
        }
    }
}

} // verus!
