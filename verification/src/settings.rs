//! The limits that the server works with.
use vstd::prelude::*;

use crate::number::{number, parse_number};

verus! {

/// The limits that the server works with.
#[derive(Clone, Copy, Debug, PartialEq, Eq, Structural)]
pub struct Settings {
    /// The part of the single bandwidth above which a connection is slowed down, in hundredths.
    pub downgrade_threshold: usize,
    /// For how long a connection is left alone before it may be slowed down, in milliseconds.
    pub downgrade_start_check: usize,
    /// The speed of a connection that is slowed down, in bits per second.
    pub limit_speed: usize,
    /// The speed of all connections together, in bits per second.
    pub total_bandwidth: usize,
    /// The speed of one connection, in bits per second.
    pub single_bandwidth: usize,
}

/// The limits that are given as numbers with a fraction.
#[derive(Clone, Copy, Debug, PartialEq, Eq, Structural)]
pub enum Setting {
    DowngradeThreshold,
    LimitSpeed,
    TotalBandwidth,
    SingleBandwidth,
}

/// The number of milliseconds does not fit.
#[derive(Clone, Copy, Debug, PartialEq, Eq, Structural)]
pub struct TooLong;

impl Settings {
    /// The limits with one of them changed.
    pub open spec fn with(self, setting: Setting, value: usize) -> Settings {
        match setting {
            Setting::DowngradeThreshold => Settings { downgrade_threshold: value, ..self },
            Setting::LimitSpeed => Settings { limit_speed: value, ..self },
            Setting::TotalBandwidth => Settings { total_bandwidth: value, ..self },
            Setting::SingleBandwidth => Settings { single_bandwidth: value, ..self },
        }
    }

    /// The limits with one of them changed, if there is a new value.
    pub open spec fn with_optional(self, setting: Setting, value: Option<usize>) -> Settings {
        match value {
            Some(v) => self.with(setting, v),
            None => self,
        }
    }

    /// One of the limits.
    pub open spec fn value_of(self, setting: Setting) -> usize {
        match setting {
            Setting::DowngradeThreshold => self.downgrade_threshold,
            Setting::LimitSpeed => self.limit_speed,
            Setting::TotalBandwidth => self.total_bandwidth,
            Setting::SingleBandwidth => self.single_bandwidth,
        }
    }

    /// The limits after a text was given for the seconds of `downgrade_start_check`: only a number
    /// above zero changes anything, and one whose milliseconds do not fit is refused.
    pub open spec fn with_start_check(self, text: Seq<char>) -> Result<Settings, TooLong> {
        match number(text, usize::MAX as nat) {
            Ok(v) => if v == 0 {
                Ok(self)
            } else if v * 1000 <= usize::MAX {
                Ok(Settings { downgrade_start_check: (v * 1000) as usize, ..self })
            } else {
                Err(TooLong)
            },
            Err(_) => Ok(self),
        }
    }

    /// The limits that hold where nothing else is said: 0.66, half an hour, 32, 1024 and 128
    /// megabits per second.
    pub open spec fn initial_settings() -> Settings {
        Settings {
            downgrade_threshold: 66,
            downgrade_start_check: 1_800_000,
            limit_speed: 33_554_432,
            total_bandwidth: 1_073_741_824,
            single_bandwidth: 134_217_728,
        }
    }

    /// The limits that hold where nothing else is said.
    pub fn initial() -> (s: Settings)
        ensures
            s == Settings::initial_settings(),
    {
        Settings {
            downgrade_threshold: 66,
            downgrade_start_check: 1_800_000,
            limit_speed: 32 * 1024 * 1024,
            total_bandwidth: 1024 * 1024 * 1024,
            single_bandwidth: 128 * 1024 * 1024,
        }
    }

    /// Changes one of the limits, if there is a new value. What comes back is the speed that all
    /// connections together have to be given now, where that has changed.
    pub fn assign(&mut self, setting: Setting, value: Option<usize>) -> (speed: Option<usize>)
        ensures
            *final(self) == old(self).with_optional(setting, value),
            value is None ==> *final(self) == *old(self),
            value matches Some(v) ==> *final(self) == (match setting {
                Setting::DowngradeThreshold => Settings { downgrade_threshold: v, ..*old(self) },
                Setting::LimitSpeed => Settings { limit_speed: v, ..*old(self) },
                Setting::TotalBandwidth => Settings { total_bandwidth: v, ..*old(self) },
                Setting::SingleBandwidth => Settings { single_bandwidth: v, ..*old(self) },
            }),
            speed == (if setting == Setting::TotalBandwidth {
                value
            } else {
                None
            }),
    {
        match value {
            Some(v) => match setting {
                Setting::DowngradeThreshold => {
                    self.downgrade_threshold = v;
                    None
                },
                Setting::LimitSpeed => {
                    self.limit_speed = v;
                    None
                },
                Setting::TotalBandwidth => {
                    self.total_bandwidth = v;
                    Some(v)
                },
                Setting::SingleBandwidth => {
                    self.single_bandwidth = v;
                    None
                },
            },
            None => None,
        }
    }

    /// One of the limits.
    pub fn get(&self, setting: Setting) -> (value: usize)
        ensures
            value == self.value_of(setting),
            setting == Setting::DowngradeThreshold ==> value == self.downgrade_threshold,
            setting == Setting::LimitSpeed ==> value == self.limit_speed,
            setting == Setting::TotalBandwidth ==> value == self.total_bandwidth,
            setting == Setting::SingleBandwidth ==> value == self.single_bandwidth,
    {
        match setting {
            Setting::DowngradeThreshold => self.downgrade_threshold,
            Setting::LimitSpeed => self.limit_speed,
            Setting::TotalBandwidth => self.total_bandwidth,
            Setting::SingleBandwidth => self.single_bandwidth,
        }
    }

    /// Reads for how many seconds a connection is left alone.
    pub fn assign_start_check(&mut self, text: &str) -> (r: Result<(), TooLong>)
        ensures
            match old(self).with_start_check(text@) {
                Ok(s) => r is Ok && *final(self) == s,
                Err(_) => r is Err && *final(self) == *old(self),
            },
    {
        match parse_number(text, usize::MAX as u64) {
            Ok(v) => {
                if v == 0 {
                    Ok(())
                } else if v <= usize::MAX as u64 / 1000 {
                    self.downgrade_start_check = (v * 1000) as usize;
                    Ok(())
                } else {
                    Err(TooLong)
                }
            },
            Err(_) => Ok(()),
        }
    }

    /// Takes over what the environment says. The numbers with a fraction come as they are to be
    /// stored, and only where they are above zero; the seconds come as a text. Where their
    /// milliseconds do not fit, only the threshold has been taken over.
    pub fn check_params(
        &mut self,
        threshold: Option<usize>,
        start_check: Option<&str>,
        limit_speed: Option<usize>,
        total_bandwidth: Option<usize>,
        single_bandwidth: Option<usize>,
    ) -> (r: Result<(), TooLong>)
        ensures
            ({
                let first = old(self).with_optional(Setting::DowngradeThreshold, threshold);
                let second = match start_check {
                    Some(text) => first.with_start_check(text@),
                    None => Ok(first),
                };
                match second {
                    Ok(s) => r is Ok && *final(self) == s.with_optional(
                        Setting::LimitSpeed,
                        limit_speed,
                    ).with_optional(Setting::TotalBandwidth, total_bandwidth).with_optional(
                        Setting::SingleBandwidth,
                        single_bandwidth,
                    ),
                    Err(_) => r is Err && *final(self) == first,
                }
            }),
            threshold matches Some(v) ==> final(self).downgrade_threshold == v,
            threshold is None ==> final(self).downgrade_threshold == old(
                self,
            ).downgrade_threshold,
            r is Ok ==> (limit_speed matches Some(v) ==> final(self).limit_speed == v),
            r is Ok ==> (total_bandwidth matches Some(v) ==> final(self).total_bandwidth == v),
            r is Ok ==> (single_bandwidth matches Some(v) ==> final(self).single_bandwidth == v),
            limit_speed is None || r is Err ==> final(self).limit_speed == old(self).limit_speed,
            total_bandwidth is None || r is Err ==> final(self).total_bandwidth == old(
                self,
            ).total_bandwidth,
            single_bandwidth is None || r is Err ==> final(self).single_bandwidth == old(
                self,
            ).single_bandwidth,
            start_check is None ==> r is Ok && final(self).downgrade_start_check == old(
                self,
            ).downgrade_start_check,
    {
        let _ = self.assign(Setting::DowngradeThreshold, threshold);
        if let Some(text) = start_check {
            match self.assign_start_check(text) {
                Ok(()) => {},
                Err(e) => {
                    return Err(e);
                },
            }
        }
        let _ = self.assign(Setting::LimitSpeed, limit_speed);
        let _ = self.assign(Setting::TotalBandwidth, total_bandwidth);
        let _ = self.assign(Setting::SingleBandwidth, single_bandwidth);
        Ok(())
    }
}

/// A limit that was changed is the one that is read back, and no other limit has changed.
pub proof fn assigned_is_read_back(s: Settings, setting: Setting, value: usize, other: Setting)
    ensures
        s.with(setting, value).value_of(setting) == value,
        other != setting ==> s.with(setting, value).value_of(other) == s.value_of(other),
        s.with(setting, value).downgrade_start_check == s.downgrade_start_check,
{
}

/// Whole seconds that were written down are taken over as milliseconds, unless there are none of
/// them or they do not fit.
pub proof fn start_check_is_read_back(s: Settings, seconds: nat)
    requires
        seconds <= usize::MAX,
    ensures
        s.with_start_check(crate::number::decimal(seconds)) == (if seconds == 0 {
            Ok::<Settings, TooLong>(s)
        } else if seconds * 1000 <= usize::MAX {
            Ok(Settings { downgrade_start_check: (seconds * 1000) as usize, ..s })
        } else {
            Err(TooLong)
        }),
{
    crate::number::read_back(seconds, usize::MAX as nat);
}

/// Whatever the limits were, a limit is exactly the value that was assigned to it last, also a
/// larger one than before, and every other limit is what it was. Where there is no value, nothing
/// changes.
pub proof fn a_limit_is_what_was_assigned(s: Settings, v: usize, setting: Setting)
    ensures
        s.with_optional(Setting::DowngradeThreshold, Some(v)) == (Settings {
            downgrade_threshold: v,
            ..s
        }),
        s.with_optional(Setting::LimitSpeed, Some(v)) == (Settings { limit_speed: v, ..s }),
        s.with_optional(Setting::TotalBandwidth, Some(v)) == (Settings { total_bandwidth: v, ..s }),
        s.with_optional(Setting::SingleBandwidth, Some(v)) == (Settings {
            single_bandwidth: v,
            ..s
        }),
        s.with_optional(setting, None) == s,
        s.value_of(Setting::DowngradeThreshold) == s.downgrade_threshold,
        s.value_of(Setting::LimitSpeed) == s.limit_speed,
        s.value_of(Setting::TotalBandwidth) == s.total_bandwidth,
        s.value_of(Setting::SingleBandwidth) == s.single_bandwidth,
{
}

/// The last assignment to a limit counts, and assignments to two limits can be made in either
/// order.
pub proof fn the_last_assignment_counts(
    s: Settings,
    setting: Setting,
    other: Setting,
    first: usize,
    second: usize,
)
    ensures
        s.with_optional(setting, Some(first)).with_optional(setting, Some(second))
            == s.with_optional(setting, Some(second)),
        s.with_optional(setting, Some(first)).with_optional(setting, Some(second)).value_of(setting)
            == second,
        s.with_optional(setting, Some(s.value_of(setting))) == s,
        other != setting ==> s.with_optional(setting, Some(first)).with_optional(
            other,
            Some(second),
        ) == s.with_optional(other, Some(second)).with_optional(setting, Some(first)),
{
}

/// A text that is no number of seconds above zero changes nothing, and no text changes any other
/// limit.
pub proof fn other_texts_change_no_limit(s: Settings, text: Seq<char>)
    ensures
        text.len() == 0 ==> s.with_start_check(text) == Ok::<Settings, TooLong>(s),
        (exists|i: int| 0 <= i < text.len() && !crate::number::is_digit(#[trigger] text[i]) && (i
            > 0 || text[0] != '+')) && s.with_start_check(text) is Ok ==> s.with_start_check(text)
            == Ok::<Settings, TooLong>(s),
        s.with_start_check(text) matches Ok(t) ==> t == (Settings {
            downgrade_start_check: t.downgrade_start_check,
            ..s
        }),
{
    crate::number::a_number_is_its_digits(text, usize::MAX as nat);
    if let Ok(n) = number(text, usize::MAX as nat) {
        let t = crate::number::without_plus(text);
        if exists|i: int| 0 <= i < text.len() && !crate::number::is_digit(#[trigger] text[i]) && (i
            > 0 || text[0] != '+') {
            let i = choose|i: int|
                0 <= i < text.len() && !crate::number::is_digit(#[trigger] text[i]) && (i > 0
                    || text[0] != '+');
            if text[0] == '+' {
                assert(t[i - 1] == text[i]);
            } else {
                assert(t[i] == text[i]);
            }
            assert(false);
        }
    }
}

/// A text of digits, with or without a `+` before it, stands for as many seconds as the digits
/// say: they are taken over, in milliseconds, where there are some of them, and refused where the
/// milliseconds do not fit.
pub proof fn seconds_are_taken_over(s: Settings, text: Seq<char>, seconds: nat)
    requires
        number(text, usize::MAX as nat) == Ok::<nat, crate::number::NumberError>(seconds),
    ensures
        seconds == 0 ==> s.with_start_check(text) == Ok::<Settings, TooLong>(s),
        0 < seconds && seconds * 1000 <= usize::MAX ==> (s.with_start_check(text) matches Ok(t)
            && t.downgrade_start_check == seconds * 1000),
        seconds * 1000 > usize::MAX ==> s.with_start_check(text) is Err,
{
}

/// Where nothing else is said, a connection is slowed down to 32 megabits per second when it has
/// used more than 0.66 of its 128 for longer than half an hour, and all connections together have
/// 1024.
pub proof fn the_first_limits()
    ensures
        ({
            let s = Settings::initial_settings();
            &&& s.downgrade_threshold == 66
            &&& s.downgrade_start_check == 30 * 60 * 1000
            &&& s.limit_speed == 32 * 1024 * 1024
            &&& s.total_bandwidth == 1024 * 1024 * 1024
            &&& s.single_bandwidth == 128 * 1024 * 1024
        }),
{
}

} // verus!
