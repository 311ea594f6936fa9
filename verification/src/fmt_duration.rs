//! Compiled format strings and the durations that are rendered with them.

use crate::elapsed::Elapsed;
use crate::grammar::{chars_of, match_placeholder, parse, parse_from, Template};
use crate::token::{hours_of_day, minutes_of_hour, seconds_of_minute, total_hours, total_minutes};
use crate::token::{Token, HOURS_PER_DAY, SECS_PER_HOUR, SECS_PER_MINUTE};
use vstd::prelude::*;
use vstd::string::StringExecFns;

verus! {

/// A format string, compiled once for many renderings: its literal segments
/// and, between each two neighbours, one placeholder.
pub struct DelayedFormat {
    segments: Vec<String>,
    tokens: Vec<Token>,
}

/// The texts that a list of strings holds.
pub open spec fn texts_of(strings: Seq<String>) -> Seq<Seq<char>> {
    Seq::new(strings.len(), |i: int| strings[i]@)
}

impl View for DelayedFormat {
    type V = Template;

    closed spec fn view(&self) -> Template {
        Template { segments: texts_of(self.segments@), tokens: self.tokens@ }
    }
}

impl DelayedFormat {
    #[verifier::type_invariant]
    spec fn inv(self) -> bool {
        self@.well_formed()
    }

    /// Compiles a format string. Every string is accepted: what is no
    /// placeholder is literal text.
    pub fn new(format_str: String) -> (template: DelayedFormat)
        ensures
            template@ == parse(format_str@),
            template@.well_formed(),
            template@.segments.len() == template@.tokens.len() + 1,
    {
        let text: Vec<char> = chars_of(format_str.as_str());
        let n: usize = text.len();
        let mut segments: Vec<String> = Vec::new();
        let mut tokens: Vec<Token> = Vec::new();
        let mut literal: String = String::new();
        let ghost mut start: int = 0;
        let mut at: usize = 0;
        while at < n
            invariant
                n == text.len(),
                0 <= start <= at <= n,
                literal@ == text@.subrange(start, at as int),
                segments.len() == tokens.len(),
                forall|i: int| 0 <= i < tokens.len() ==> (#[trigger] tokens[i]).valid(),
                parse(text@).segments == texts_of(segments@) + parse_from(
                    text@,
                    start,
                    at as int,
                ).segments,
                parse(text@).tokens == tokens@ + parse_from(text@, start, at as int).tokens,
            decreases n - at,
        {
            match match_placeholder(&text, at) {
                Some((token, len)) => {
                    assert(texts_of(segments@.push(literal)) =~= texts_of(segments@).push(
                        literal@,
                    ));
                    segments.push(literal);
                    tokens.push(token);
                    literal = String::new();
                    proof {
                        start = at + len;
                    }
                    at = at + len;
                    assert(literal@ =~= text@.subrange(start, at as int));
                },
                None => {
                    literal.push(text[at]);
                    assert(literal@ =~= text@.subrange(start, at + 1));
                    at = at + 1;
                },
            }
        }
        assert(texts_of(segments@.push(literal)) =~= texts_of(segments@).push(literal@));
        segments.push(literal);
        let template = DelayedFormat { segments, tokens };
        assert(template@.segments == parse(text@).segments);
        template
    }

    /// The number of placeholders.
    pub fn len(&self) -> (count: usize)
        ensures
            count == self@.tokens.len(),
            count + 1 == self@.segments.len(),
    {
        proof {
            use_type_invariant(self);
        }
        self.tokens.len()
    }

    /// The placeholder at `index`, counted from 0, if there is one.
    pub fn token(&self, index: usize) -> (token: Option<Token>)
        ensures
            token == if index < self@.tokens.len() {
                Some(self@.tokens[index as int])
            } else {
                None
            },
    {
        if index < self.tokens.len() {
            Some(self.tokens[index])
        } else {
            None
        }
    }

    /// The literal segment at `index`, counted from 0, if there is one.
    pub fn segment(&self, index: usize) -> (segment: Option<&str>)
        ensures
            match segment {
                Some(text) => index < self@.segments.len() && text@ == self@.segments[index as int],
                None => index >= self@.segments.len(),
            },
    {
        if index < self.segments.len() {
            Some(self.segments[index].as_str())
        } else {
            None
        }
    }

    /// The text that the template gives for `duration`: every segment in
    /// order, each followed by what its placeholder stands for, and the last
    /// segment at the end. Nothing but the template and the duration enters.
    pub fn render(&self, duration: &Elapsed) -> (text: String)
        ensures
            text@ == self@.rendered(duration.secs(), duration.nanos()),
    {
        proof {
            use_type_invariant(self);
        }
        let secs: u64 = duration.as_secs();
        let nanos: u32 = duration.subsec_nanos();
        let count: usize = self.tokens.len();
        let mut text: String = String::new();
        let mut i: usize = 0;
        while i < count
            invariant
                count == self.tokens.len(),
                self@.well_formed(),
                i <= count,
                text@ == self@.rendered_prefix(i as nat, secs as nat, nanos as nat),
            decreases count - i,
        {
            text.append(self.segments[i].as_str());
            self.tokens[i].push_text(secs, nanos, &mut text);
            i = i + 1;
        }
        text.append(self.segments[count].as_str());
        text
    }
}

/// A duration together with the template that it is shown with.
pub struct MyDuration<'a> {
    elapsed: Elapsed,
    display: &'a DelayedFormat,
}

impl<'a> MyDuration<'a> {
    /// The whole seconds of the duration.
    pub closed spec fn secs(&self) -> nat {
        self.elapsed.secs()
    }

    /// The nanoseconds of the duration beyond its whole seconds.
    pub closed spec fn nanos(&self) -> nat {
        self.elapsed.nanos()
    }

    /// The template that the duration is shown with.
    pub closed spec fn template(&self) -> Template {
        self.display@
    }

    /// The duration `duration`, to be shown with `display`.
    pub fn new(duration: Elapsed, display: &'a DelayedFormat) -> (shown: MyDuration<'a>)
        ensures
            shown.secs() == duration.secs(),
            shown.nanos() == duration.nanos(),
            shown.template() == display@,
    {
        MyDuration { elapsed: duration, display }
    }

    /// The second of the minute, 0 to 59.
    pub fn s_sub(&self) -> (value: u64)
        ensures
            value == seconds_of_minute(self.secs()),
            value < 60,
    {
        self.elapsed.as_secs() % SECS_PER_MINUTE
    }

    /// The whole minutes.
    pub fn m(&self) -> (value: u64)
        ensures
            value == total_minutes(self.secs()),
    {
        self.elapsed.as_secs() / SECS_PER_MINUTE
    }

    /// The minute of the hour, 0 to 59.
    pub fn m_sub(&self) -> (value: u64)
        ensures
            value == minutes_of_hour(self.secs()),
            value < 60,
    {
        self.elapsed.as_secs() % SECS_PER_HOUR / SECS_PER_MINUTE
    }

    /// The whole hours.
    pub fn h(&self) -> (value: u64)
        ensures
            value == total_hours(self.secs()),
    {
        self.elapsed.as_secs() / SECS_PER_HOUR
    }

    /// The hour of the day, 0 to 23.
    pub fn h_sub(&self) -> (value: u64)
        ensures
            value == hours_of_day(self.secs()),
            value < 24,
    {
        (self.elapsed.as_secs() / SECS_PER_HOUR) % HOURS_PER_DAY
    }

    /// The text of the duration in its template.
    pub fn to_string(&self) -> (text: String)
        ensures
            text@ == self.template().rendered(self.secs(), self.nanos()),
    {
        self.display.render(&self.elapsed)
    }
}

} // verus!
