//! A tracker that watches how close a value is to a maximum and tells a
//! messenger when the value crosses three quota thresholds.

use vstd::prelude::*;

verus! {

/// Something that can be told about the quota; how the message is
/// delivered is up to the implementor.
pub trait Messenger {
    fn send(&self, msg: &str);
}

/// How close a value is to the maximum.
pub enum QuotaLevel {
    /// Below three quarters of the maximum.
    Normal,
    /// At or above three quarters of the maximum.
    Warning,
    /// At or above nine tenths of the maximum.
    Urgent,
    /// At or above the maximum itself.
    Exceeded,
}

/// The quota level of `value` against `max`, by exact comparison of the
/// ratio `value / max` with 1, 9/10 and 3/4. When both are zero the
/// ratio is undefined and the level counts as normal; when only `max`
/// is zero any positive value exceeds it.
pub open spec fn quota_level_spec(value: nat, max: nat) -> QuotaLevel {
    if value == 0 && max == 0 {
        QuotaLevel::Normal
    } else if value >= max {
        QuotaLevel::Exceeded
    } else if 10 * value >= 9 * max {
        QuotaLevel::Urgent
    } else if 4 * value >= 3 * max {
        QuotaLevel::Warning
    } else {
        QuotaLevel::Normal
    }
}

/// Computes the quota level of `value` against `max`.
pub fn quota_level(value: usize, max: usize) -> (r: QuotaLevel)
    ensures
        r == quota_level_spec(value as nat, max as nat),
{
    if value == 0 && max == 0 {
        QuotaLevel::Normal
    } else if value >= max {
        QuotaLevel::Exceeded
    } else if (value as u128) * 10 >= (max as u128) * 9 {
        QuotaLevel::Urgent
    } else if (value as u128) * 4 >= (max as u128) * 3 {
        QuotaLevel::Warning
    } else {
        QuotaLevel::Normal
    }
}

/// Watches a value against a maximum and warns a messenger as the value
/// approaches and passes it.
pub struct LimitTracker<'a, T: Messenger> {
    messenger: &'a T,
    value: usize,
    max: usize,
}

impl<'a, T> LimitTracker<'a, T> where T: Messenger {
    /// The value most recently set.
    pub closed spec fn spec_value(&self) -> usize {
        self.value
    }

    /// The maximum the value is measured against.
    pub closed spec fn spec_max(&self) -> usize {
        self.max
    }

    /// A tracker starting at zero with the given maximum.
    pub fn new(messenger: &T, max: usize) -> (t: LimitTracker<T>)
        ensures
            t.spec_value() == 0,
            t.spec_max() == max,
    {
        LimitTracker { messenger, value: 0, max }
    }

    /// Stores the new value, and sends the messenger one message when
    /// the value is at or above three quarters, nine tenths, or all of
    /// the maximum.
    pub fn set_value(&mut self, value: usize)
        ensures
            final(self).spec_value() == value,
            final(self).spec_max() == old(self).spec_max(),
    {
        self.value = value;

        match quota_level(value, self.max) {
            QuotaLevel::Exceeded => {
                self.messenger.send("Error: You are over your quota!");
            },
            QuotaLevel::Urgent => {
                self.messenger.send("Urgent warning: You've used up over 90% of your quota!");
            },
            QuotaLevel::Warning => {
                self.messenger.send("Warning: You've used up over 75% of your quota!");
            },
            QuotaLevel::Normal => {},
        }
    }
}

} // verus!
