//! Which time a line is stamped with: the three modes, and the reference
//! point from which elapsed time is counted.

use crate::elapsed::Elapsed;
use vstd::prelude::*;

verus! {

/// The way lines are stamped. It is chosen once, before the first line.
#[derive(Clone, Copy, Debug, PartialEq, Eq, Structural)]
pub enum Mode {
    /// The time of day, formatted by a calendar.
    Absolute,
    /// The time since the start.
    Relative,
    /// The time since the line before, and since the start for the first.
    Incremental,
}

/// The mode that the two switches ask for; none where both are set, since
/// they exclude each other.
pub open spec fn mode_of_flags(relative: bool, incremental: bool) -> Option<Mode> {
    if relative && incremental {
        None
    } else if relative {
        Some(Mode::Relative)
    } else if incremental {
        Some(Mode::Incremental)
    } else {
        Some(Mode::Absolute)
    }
}

/// The time from `earlier` to `later` in nanoseconds, and nothing where
/// `earlier` is the later of the two.
pub open spec fn gap_nanos(later: Elapsed, earlier: Elapsed) -> nat {
    if later.total_nanos() >= earlier.total_nanos() {
        (later.total_nanos() - earlier.total_nanos()) as nat
    } else {
        0
    }
}

impl Mode {
    /// The format that is used where none is given.
    pub open spec fn default_format_text(self) -> Seq<char> {
        match self {
            Mode::Absolute => "%Y-%m-%d %H:%M:%S%.3f"@,
            _ => "%H:%M:%S%.3f"@,
        }
    }

    /// The mode that the two switches ask for; none where both are set.
    pub fn from_flags(relative: bool, incremental: bool) -> (mode: Option<Mode>)
        ensures
            mode == mode_of_flags(relative, incremental),
    {
        if relative && incremental {
            None
        } else if relative {
            Some(Mode::Relative)
        } else if incremental {
            Some(Mode::Incremental)
        } else {
            Some(Mode::Absolute)
        }
    }

    /// Whether lines are stamped with elapsed time, in the grammar of this
    /// library, and not with the time of day.
    pub fn is_elapsed(&self) -> (elapsed: bool)
        ensures
            elapsed == (*self != Mode::Absolute),
    {
        match self {
            Mode::Absolute => false,
            _ => true,
        }
    }

    /// The format that is used where none is given.
    pub fn default_format(&self) -> (format: &'static str)
        ensures
            format@ == self.default_format_text(),
    {
        match self {
            Mode::Absolute => "%Y-%m-%d %H:%M:%S%.3f",
            _ => "%H:%M:%S%.3f",
        }
    }
}

/// The point from which elapsed time is counted. In relative mode it is the
/// start and stays; in incremental mode it moves to each line as the line is
/// stamped.
pub struct Stopwatch {
    restarts: bool,
    reference: Elapsed,
}

impl Stopwatch {
    /// The reading of the clock from which time is counted.
    pub closed spec fn reference(&self) -> Elapsed {
        self.reference
    }

    /// Whether the reference moves to each line.
    pub closed spec fn restarts(&self) -> bool {
        self.restarts
    }

    /// A stopwatch for `mode` that starts at the reading `now`.
    pub fn start(mode: Mode, now: Elapsed) -> (watch: Stopwatch)
        ensures
            watch.reference() == now,
            watch.restarts() == (mode == Mode::Incremental),
    {
        let restarts: bool = match mode {
            Mode::Incremental => true,
            _ => false,
        };
        Stopwatch { restarts, reference: now }
    }

    /// The stamp for a line that arrives at the reading `now`: the time
    /// since the reference, which then moves to `now` in incremental mode
    /// and stays where it is otherwise.
    pub fn stamp(&mut self, now: Elapsed) -> (elapsed: Elapsed)
        ensures
            elapsed.nanos() < 1_000_000_000,
            elapsed.total_nanos() == gap_nanos(now, old(self).reference()),
            final(self).restarts() == old(self).restarts(),
            final(self).reference() == if old(self).restarts() {
                now
            } else {
                old(self).reference()
            },
    {
        let elapsed: Elapsed = now.since(&self.reference);
        if self.restarts {
            self.reference = now;
        }
        elapsed
    }
}

} // verus!
