//! A tracker that warns, through a messenger its user supplies, as a value
//! approaches its quota.
use vstd::prelude::*;

verus! {

/// Where the tracker's warnings go.
pub trait Messenger {
    fn send(&self, msg: &str);
}

/// How much of the quota a value uses.
#[derive(Debug, Clone, Copy, PartialEq, Eq, Structural)]
pub enum QuotaLevel {
    /// Under 75%.
    Normal,
    /// At least 75%.
    Warning,
    /// At least 90%.
    Urgent,
    /// At least 100%.
    Over,
}

/// The level of `value` against `max`: the ratio `value / max` compared
/// with 1, 0.9 and 0.75. A zero quota is exceeded by any positive value and
/// not by zero.
pub open spec fn level_of(value: nat, max: nat) -> QuotaLevel {
    if max == 0 {
        if value > 0 {
            QuotaLevel::Over
        } else {
            QuotaLevel::Normal
        }
    } else if value >= max {
        QuotaLevel::Over
    } else if 10 * value >= 9 * max {
        QuotaLevel::Urgent
    } else if 4 * value >= 3 * max {
        QuotaLevel::Warning
    } else {
        QuotaLevel::Normal
    }
}

/// The level of `value` against the quota `max`.
pub fn quota_level(value: usize, max: usize) -> (r: QuotaLevel)
    ensures
        r == level_of(value as nat, max as nat),
{
    let v = value as u128;
    let m = max as u128;
    if m == 0 {
        if v > 0 {
            QuotaLevel::Over
        } else {
            QuotaLevel::Normal
        }
    } else if v >= m {
        QuotaLevel::Over
    } else if 10 * v >= 9 * m {
        QuotaLevel::Urgent
    } else if 4 * v >= 3 * m {
        QuotaLevel::Warning
    } else {
        QuotaLevel::Normal
    }
}

impl QuotaLevel {
    /// The warning sent for this level, if any.
    pub fn message(&self) -> (r: Option<&'static str>)
        ensures
            r == (match *self {
                QuotaLevel::Normal => None,
                QuotaLevel::Warning => Some("Warning: You've used up over 75% of your quota!"),
                QuotaLevel::Urgent => Some("Urgent warning: You've used up over 90% of your quota!"),
                QuotaLevel::Over => Some("Error: You are over your quota!"),
            }),
    {
        match self {
            QuotaLevel::Normal => None,
            QuotaLevel::Warning => Some("Warning: You've used up over 75% of your quota!"),
            QuotaLevel::Urgent => Some("Urgent warning: You've used up over 90% of your quota!"),
            QuotaLevel::Over => Some("Error: You are over your quota!"),
        }
    }
}

/// Tracks a value against a quota and warns through `messenger`.
pub struct LimitTracker<'a, T: Messenger> {
    messenger: &'a T,
    value: usize,
    max: usize,
}

impl<'a, T: Messenger> LimitTracker<'a, T> {
    pub closed spec fn spec_value(&self) -> usize {
        self.value
    }

    pub closed spec fn spec_max(&self) -> usize {
        self.max
    }

    /// A tracker at zero with quota `max`.
    pub fn new(messenger: &'a T, max: usize) -> (r: LimitTracker<'a, T>)
        ensures
            r.spec_value() == 0,
            r.spec_max() == max,
    {
        LimitTracker { messenger, value: 0, max }
    }

    pub fn value(&self) -> (r: usize)
        ensures
            r == self.spec_value(),
    {
        self.value
    }

    /// Sets the value, and sends the warning of its level (see `quota_level`)
    /// when there is one.
    pub fn set_value(&mut self, value: usize)
        ensures
            final(self).spec_value() == value,
            final(self).spec_max() == old(self).spec_max(),
    {
        self.value = value;
        let level = quota_level(self.value, self.max);
        match level.message() {
            Some(msg) => self.messenger.send(msg),
            None => {},
        }
    }
}

} // verus!
