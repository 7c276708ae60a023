use vstd::prelude::*;

verus! {

/// The longest span of time that `std::time::Duration` can hold, in
/// nanoseconds: `u64::MAX` seconds and 999,999,999 nanoseconds.
pub const MAX_SPAN: u128 = 18_446_744_073_709_551_615_999_999_999;

/// A sum of spans of time and the number of spans that were added, from
/// which their average is taken. Spans are counted in nanoseconds.
#[derive(Clone, Copy, Debug, Default)]
pub struct AverageDuration {
    sum: u128,
    num: usize,
}

impl AverageDuration {
    /// The sum of the spans, in nanoseconds.
    pub closed spec fn total(&self) -> u128 {
        self.sum
    }

    /// The number of spans.
    pub closed spec fn samples(&self) -> usize {
        self.num
    }

    pub fn new() -> (r: Self)
        ensures
            r.total() == 0,
            r.samples() == 0,
    {
        AverageDuration { sum: 0, num: 0 }
    }

    /// The number of spans that were added.
    #[inline]
    pub fn count(&self) -> (r: usize)
        ensures
            r == self.samples(),
    {
        self.num
    }

    /// The sum of the spans that were added, in nanoseconds.
    #[inline]
    pub fn sum(&self) -> (r: u128)
        ensures
            r == self.total(),
    {
        self.sum
    }

    /// Adds one span of `nanos` nanoseconds.
    #[inline]
    pub fn add_span(&mut self, nanos: u128)
        requires
            old(self).total() + nanos <= MAX_SPAN,
            old(self).samples() < usize::MAX,
        ensures
            final(self).total() == old(self).total() + nanos,
            final(self).samples() == old(self).samples() + 1,
    {
        self.sum += nanos;
        self.num += 1;
    }

    /// Adds all the spans of `rhs`.
    #[inline]
    pub fn add_assign(&mut self, rhs: AverageDuration)
        requires
            old(self).total() + rhs.total() <= MAX_SPAN,
            old(self).samples() + rhs.samples() <= usize::MAX,
        ensures
            final(self).total() == old(self).total() + rhs.total(),
            final(self).samples() == old(self).samples() + rhs.samples(),
    {
        self.sum += rhs.sum;
        self.num += rhs.num;
    }

    /// The average span in nanoseconds, rounded down; `None` where no span
    /// was added.
    #[inline]
    pub fn average(&self) -> (r: Option<u128>)
        ensures
            r == if self.samples() == 0 {
                None
            } else {
                Some((self.total() / self.samples() as u128) as u128)
            },
    {
        if self.num == 0 {
            None
        } else {
            Some(self.sum / self.num as u128)
        }
    }
}

/// A sum of spans of time and the number of spans that were added. Spans
/// are counted in nanoseconds.
#[derive(Clone, Copy, Debug, Default)]
pub struct CountedDuration {
    sum: u128,
    num: usize,
}

impl CountedDuration {
    /// The sum of the spans, in nanoseconds.
    pub closed spec fn total(&self) -> u128 {
        self.sum
    }

    /// The number of spans.
    pub closed spec fn samples(&self) -> usize {
        self.num
    }

    pub fn new() -> (r: Self)
        ensures
            r.total() == 0,
            r.samples() == 0,
    {
        CountedDuration { sum: 0, num: 0 }
    }

    /// The number of spans that were added.
    #[inline]
    pub fn count(&self) -> (r: usize)
        ensures
            r == self.samples(),
    {
        self.num
    }

    /// The sum of the spans that were added, in nanoseconds.
    #[inline]
    pub fn sum(&self) -> (r: u128)
        ensures
            r == self.total(),
    {
        self.sum
    }

    /// Adds one span of `nanos` nanoseconds.
    #[inline]
    pub fn add_span(&mut self, nanos: u128)
        requires
            old(self).total() + nanos <= MAX_SPAN,
            old(self).samples() < usize::MAX,
        ensures
            final(self).total() == old(self).total() + nanos,
            final(self).samples() == old(self).samples() + 1,
    {
        self.sum += nanos;
        self.num += 1;
    }

    /// Adds all the spans of `rhs`.
    #[inline]
    pub fn add_assign(&mut self, rhs: CountedDuration)
        requires
            old(self).total() + rhs.total() <= MAX_SPAN,
            old(self).samples() + rhs.samples() <= usize::MAX,
        ensures
            final(self).total() == old(self).total() + rhs.total(),
            final(self).samples() == old(self).samples() + rhs.samples(),
    {
        self.sum += rhs.sum;
        self.num += rhs.num;
    }
}

/// The numbers of attempts that succeeded and that failed.
#[derive(Clone, Copy, Debug, Default)]
pub struct SuccessRate {
    succ: usize,
    fail: usize,
}

impl SuccessRate {
    /// The number of successes.
    pub closed spec fn successes(&self) -> usize {
        self.succ
    }

    /// The number of failures.
    pub closed spec fn failures(&self) -> usize {
        self.fail
    }

    pub fn new() -> (r: Self)
        ensures
            r.successes() == 0,
            r.failures() == 0,
    {
        SuccessRate { succ: 0, fail: 0 }
    }

    /// Counts one success.
    #[inline]
    pub fn success(&mut self)
        requires
            old(self).successes() < usize::MAX,
        ensures
            final(self).successes() == old(self).successes() + 1,
            final(self).failures() == old(self).failures(),
    {
        self.succ += 1;
    }

    /// Counts one failure.
    #[inline]
    pub fn fail(&mut self)
        requires
            old(self).failures() < usize::MAX,
        ensures
            final(self).successes() == old(self).successes(),
            final(self).failures() == old(self).failures() + 1,
    {
        self.fail += 1;
    }

    /// Counts one attempt: a success if `success` is true, else a failure.
    #[inline]
    pub fn statistic(&mut self, success: bool)
        requires
            success ==> old(self).successes() < usize::MAX,
            !success ==> old(self).failures() < usize::MAX,
        ensures
            final(self).successes() == old(self).successes() + if success {
                1int
            } else {
                0int
            },
            final(self).failures() == old(self).failures() + if success {
                0int
            } else {
                1int
            },
    {
        if success {
            self.success()
        } else {
            self.fail()
        }
    }

    /// The counts as plain numbers: successes, then failures.
    #[inline]
    pub fn counts(&self) -> (r: (usize, usize))
        ensures
            r.0 == self.successes(),
            r.1 == self.failures(),
    {
        (self.succ, self.fail)
    }

    /// Adds the counts of `rhs`.
    #[inline]
    pub fn add_assign(&mut self, rhs: SuccessRate)
        requires
            old(self).successes() + rhs.successes() <= usize::MAX,
            old(self).failures() + rhs.failures() <= usize::MAX,
        ensures
            final(self).successes() == old(self).successes() + rhs.successes(),
            final(self).failures() == old(self).failures() + rhs.failures(),
    {
        self.succ += rhs.succ;
        self.fail += rhs.fail;
    }
}

impl vstd::std_specs::ops::AddSpecImpl for SuccessRate {
    open spec fn obeys_add_spec() -> bool {
        false
    }

    open spec fn add_req(self, rhs: SuccessRate) -> bool {
        self.successes() + rhs.successes() <= usize::MAX && self.failures() + rhs.failures()
            <= usize::MAX
    }

    open spec fn add_spec(self, rhs: SuccessRate) -> SuccessRate {
        self
    }
}

impl std::ops::Add for SuccessRate {
    type Output = SuccessRate;

    /// The counts of both, added up.
    #[inline]
    fn add(self, rhs: SuccessRate) -> (r: SuccessRate)
        ensures
            r.successes() == self.successes() + rhs.successes(),
            r.failures() == self.failures() + rhs.failures(),
    {
        SuccessRate { succ: self.succ + rhs.succ, fail: self.fail + rhs.fail }
    }
}

/// The time at which something started, from which the time that has
/// passed since is told. Times are nanoseconds on the caller's clock.
#[derive(Clone, Copy, Debug)]
pub struct RunningTime {
    start: u128,
}

impl RunningTime {
    /// The time of the start.
    pub closed spec fn started(&self) -> u128 {
        self.start
    }

    /// The time that has passed from the start to `now`; none if the clock
    /// went backwards.
    pub open spec fn elapsed(&self, now: u128) -> u128 {
        if now >= self.started() {
            (now - self.started()) as u128
        } else {
            0
        }
    }

    /// A running time that starts at `now`.
    #[inline]
    pub fn new(now: u128) -> (r: Self)
        ensures
            r.started() == now,
    {
        RunningTime { start: now }
    }

    /// The time that has passed from the start to `now`, to be handed to
    /// `from_label` later.
    #[inline]
    pub fn label(&self, now: u128) -> (r: u128)
        ensures
            r == self.elapsed(now),
    {
        if now >= self.start {
            now - self.start
        } else {
            0
        }
    }

    /// The time that has passed from the moment `start` was taken as a
    /// label to `now`.
    #[inline]
    pub fn from_label(&self, now: u128, start: u128) -> (r: u128)
        requires
            start <= self.elapsed(now),
        ensures
            r == self.elapsed(now) - start,
    {
        self.label(now) - start
    }

    /// The time that has passed from the start to `now`.
    #[inline]
    pub fn time(&self, now: u128) -> (r: u128)
        ensures
            r == self.elapsed(now),
    {
        self.label(now)
    }
}

} // verus!
