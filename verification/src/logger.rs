use vstd::prelude::*;

verus! {

/// `log::LevelFilter`, a log level or "off". It is only handed through, so
/// it is declared opaque.
#[verifier::external_type_specification]
#[verifier::external_body]
pub struct ExLevelFilter(log::LevelFilter);

/// `log::max_level`: the level up to which messages are let through now.
/// It is global state that anything may have set, so nothing is claimed.
#[verifier::external_body]
fn current_max_level() -> log::LevelFilter {
    log::max_level()
}

/// `log::set_max_level`: makes `level` the level up to which messages are
/// let through. It returns nothing.
#[verifier::external_body]
fn install_max_level(level: log::LevelFilter) {
    log::set_max_level(level)
}

/// Runs `f` with the maximum log level set to `level`, and puts the level
/// that was in force before back afterwards. The result is that of `f`.
pub fn with_log_level<F, R>(level: log::LevelFilter, f: F) -> (result: R) where F: FnOnce() -> R
    requires
        f.requires(()),
    ensures
        f.ensures((), result),
{
    let prev_level = current_max_level();
    install_max_level(level);
    let result = f();
    install_max_level(prev_level);
    result
}

/// Ten seconds, in nanoseconds: the interval of `IntervalLogger::default`.
pub const DEFAULT_INTERVAL: u128 = 10_000_000_000;

/// Lets a message through only when enough time has passed since the last
/// one that was let through. Times are nanoseconds on the caller's clock.
#[derive(Clone, Copy, Debug)]
pub struct IntervalLogger {
    last: u128,
    interval: u128,
}

impl IntervalLogger {
    /// The time at which a message was last let through.
    pub closed spec fn last(&self) -> u128 {
        self.last
    }

    /// The time that must pass between two messages.
    pub closed spec fn interval(&self) -> u128 {
        self.interval
    }

    /// A logger that lets the next message through once `interval` has
    /// passed since `now`.
    #[inline]
    pub fn new(interval: u128, now: u128) -> (r: Self)
        ensures
            r.last() == now,
            r.interval() == interval,
    {
        Self { last: now, interval }
    }

    /// Whether a message offered at time `now` is let through: it is if at
    /// least the interval has passed since the last one was. A clock that
    /// went backwards counts as no time passed. A message that is let
    /// through restarts the interval.
    #[inline]
    pub fn due(&mut self, now: u128) -> (emit: bool)
        ensures
            emit == (if now >= old(self).last() {
                now - old(self).last() >= old(self).interval()
            } else {
                old(self).interval() == 0
            }),
            final(self).interval() == old(self).interval(),
            final(self).last() == if emit {
                now
            } else {
                old(self).last()
            },
    {
        let passed: u128 = if now >= self.last {
            now - self.last
        } else {
            0
        };
        if passed >= self.interval {
            self.last = now;
            true
        } else {
            false
        }
    }
}

} // verus!
