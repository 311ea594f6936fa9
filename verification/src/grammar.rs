//! The grammar of format strings: which placeholders there are, where one
//! begins in a text, and how a text falls apart into literal segments and
//! placeholders.

use crate::token::Token;
use vstd::prelude::*;

verus! {

/// A compiled format string as a mathematical value: the literal segments in
/// order, and between each two neighbours one placeholder.
pub struct Template {
    pub segments: Seq<Seq<char>>,
    pub tokens: Seq<Token>,
}

impl Template {
    /// There is a segment before the first placeholder and one after the
    /// last, empty or not, and every placeholder is valid.
    pub open spec fn well_formed(self) -> bool {
        &&& self.segments.len() == self.tokens.len() + 1
        &&& forall|i: int| 0 <= i < self.tokens.len() ==> (#[trigger] self.tokens[i]).valid()
    }

    /// The text of the first `count` segments, each followed by what its
    /// placeholder stands for at `secs` seconds and `nanos` nanoseconds.
    pub open spec fn rendered_prefix(self, count: nat, secs: nat, nanos: nat) -> Seq<char>
        decreases count,
    {
        if count == 0 {
            Seq::empty()
        } else {
            self.rendered_prefix((count - 1) as nat, secs, nanos) + self.segments[count - 1]
                + self.tokens[count - 1].text(secs, nanos)
        }
    }

    /// The whole text at `secs` seconds and `nanos` nanoseconds: every
    /// segment in order, each followed by what its placeholder stands for,
    /// and the last segment at the end.
    pub open spec fn rendered(self, secs: nat, nanos: nat) -> Seq<char> {
        self.rendered_prefix(self.tokens.len(), secs, nanos) + self.segments[
            self.tokens.len() as int
        ]
    }
}

/// The placeholder that one letter after `%` names.
pub open spec fn unit_token(c: char) -> Option<Token> {
    if c == 'H' {
        Some(Token::HoursOfDay)
    } else if c == 'h' {
        Some(Token::TotalHours)
    } else if c == 'M' {
        Some(Token::MinutesOfHour)
    } else if c == 'm' {
        Some(Token::TotalMinutes)
    } else if c == 'S' {
        Some(Token::SecondsOfMinute)
    } else if c == 's' {
        Some(Token::TotalSeconds)
    } else {
        None
    }
}

/// The number of digits that one of the characters `1` to `9` asks for.
pub open spec fn precision_of(c: char) -> Option<u8> {
    if c == '1' {
        Some(1u8)
    } else if c == '2' {
        Some(2u8)
    } else if c == '3' {
        Some(3u8)
    } else if c == '4' {
        Some(4u8)
    } else if c == '5' {
        Some(5u8)
    } else if c == '6' {
        Some(6u8)
    } else if c == '7' {
        Some(7u8)
    } else if c == '8' {
        Some(8u8)
    } else if c == '9' {
        Some(9u8)
    } else {
        None
    }
}

/// The placeholder that begins at position `at` of `text`, with the number
/// of characters it takes: `%` and one of `H h M m S s`, or `%.f`, or `%.`,
/// one of `1` to `9` and `f`. Upper and lower case differ.
pub open spec fn placeholder_at(text: Seq<char>, at: int) -> Option<(Token, int)> {
    if 0 <= at && at + 1 < text.len() && text[at] == '%' {
        if text[at + 1] == '.' {
            if at + 2 < text.len() && text[at + 2] == 'f' {
                Some((Token::Fraction(1), 3))
            } else if at + 3 < text.len() && text[at + 3] == 'f' {
                match precision_of(text[at + 2]) {
                    Some(precision) => Some((Token::Fraction(precision), 4)),
                    None => None,
                }
            } else {
                None
            }
        } else {
            match unit_token(text[at + 1]) {
                Some(token) => Some((token, 2)),
                None => None,
            }
        }
    } else {
        None
    }
}

/// The characters of `text`, in order.
pub fn chars_of(text: &str) -> (chars: Vec<char>)
    ensures
        chars@ == text@,
{
    let mut chars: Vec<char> = Vec::new();
    for c in it: text.chars()
        invariant
            chars@ == it.seq().take(it.index()),
    {
        chars.push(c);
    }
    chars
}

/// The placeholder that one letter after `%` names.
fn unit_token_of(c: char) -> (token: Option<Token>)
    ensures
        token == unit_token(c),
{
    match c {
        'H' => Some(Token::HoursOfDay),
        'h' => Some(Token::TotalHours),
        'M' => Some(Token::MinutesOfHour),
        'm' => Some(Token::TotalMinutes),
        'S' => Some(Token::SecondsOfMinute),
        's' => Some(Token::TotalSeconds),
        _ => None,
    }
}

/// The number of digits that one of the characters `1` to `9` asks for.
fn precision_of_char(c: char) -> (precision: Option<u8>)
    ensures
        precision == precision_of(c),
{
    match c {
        '1' => Some(1),
        '2' => Some(2),
        '3' => Some(3),
        '4' => Some(4),
        '5' => Some(5),
        '6' => Some(6),
        '7' => Some(7),
        '8' => Some(8),
        '9' => Some(9),
        _ => None,
    }
}

/// The placeholder that begins at position `at` of `text`, with the number
/// of characters it takes; none where `at` lies behind the text.
pub fn match_placeholder(text: &Vec<char>, at: usize) -> (found: Option<(Token, usize)>)
    ensures
        match found {
            Some((token, len)) => placeholder_at(text@, at as int) == Some((token, len as int))
                && at + len <= text.len() && token.valid(),
            None => placeholder_at(text@, at as int) is None,
        },
{
    let n: usize = text.len();
    if at >= n || text[at] != '%' || n - at < 2 {
        return None;
    }
    let second: char = text[at + 1];
    if second == '.' {
        if n - at >= 3 && text[at + 2] == 'f' {
            Some((Token::Fraction(1), 3))
        } else if n - at >= 4 && text[at + 3] == 'f' {
            match precision_of_char(text[at + 2]) {
                Some(precision) => Some((Token::Fraction(precision), 4)),
                None => None,
            }
        } else {
            None
        }
    } else {
        match unit_token_of(second) {
            Some(token) => Some((token, 2)),
            None => None,
        }
    }
}

/// What is left of `text` from position `at` on, read from left to right,
/// when the literal text that is being read began at `start`: at a
/// placeholder the literal text so far ends as a segment and reading goes on
/// behind the placeholder; any other character belongs to the literal text.
pub open spec fn parse_from(text: Seq<char>, start: int, at: int) -> Template
    decreases text.len() - at,
{
    if at >= text.len() || at < start || start < 0 {
        Template { segments: seq![text.subrange(start, text.len() as int)], tokens: seq![] }
    } else {
        match placeholder_at(text, at) {
            Some((token, len)) => {
                let rest = parse_from(text, at + len, at + len);
                Template {
                    segments: seq![text.subrange(start, at)] + rest.segments,
                    tokens: seq![token] + rest.tokens,
                }
            },
            None => parse_from(text, start, at + 1),
        }
    }
}

/// The segments and placeholders of a format string.
pub open spec fn parse(text: Seq<char>) -> Template {
    parse_from(text, 0, 0)
}

/// Whether no placeholder begins anywhere in `text`.
pub open spec fn is_literal(text: Seq<char>) -> bool {
    forall|at: int| 0 <= at < text.len() ==> placeholder_at(text, at) is None
}

/// The positions from `at` on at which the placeholders of `text` begin
/// that reading from left to right meets, in rising order.
pub open spec fn starts_from(text: Seq<char>, at: int) -> Seq<int>
    decreases text.len() - at,
{
    if at >= text.len() || at < 0 {
        seq![]
    } else {
        match placeholder_at(text, at) {
            Some((token, len)) => seq![at] + starts_from(text, at + len),
            None => starts_from(text, at + 1),
        }
    }
}

/// The position behind the placeholder that begins at `at`.
pub open spec fn end_of(text: Seq<char>, at: int) -> int {
    at + (placeholder_at(text, at)->0).1
}

/// Whether `template` is made of the placeholders that begin at `starts`
/// and of the text around them: token `i` is the placeholder at `starts[i]`,
/// the first segment runs from `start` to the first placeholder, every
/// other segment from the end of one placeholder to the beginning of the
/// next, and the last segment to the end of the text.
pub open spec fn cut_at(text: Seq<char>, start: int, starts: Seq<int>, template: Template) -> bool {
    &&& template.tokens.len() == starts.len()
    &&& template.segments.len() == starts.len() + 1
    &&& forall|i: int|
        0 <= i < starts.len() ==> placeholder_at(text, #[trigger] starts[i]) is Some
            && template.tokens[i] == (placeholder_at(text, starts[i])->0).0
    &&& forall|i: int|
        0 <= i <= starts.len() ==> #[trigger] template.segments[i] == text.subrange(
            if i == 0 {
                start
            } else {
                end_of(text, starts[i - 1])
            },
            if i < starts.len() {
                starts[i]
            } else {
                text.len() as int
            },
        )
}

/// A placeholder fits into the text, takes two to four characters, and is
/// valid.
pub proof fn lemma_placeholder_fits(text: Seq<char>, at: int)
    requires
        placeholder_at(text, at) is Some,
    ensures
        0 <= at,
        2 <= (placeholder_at(text, at)->0).1 <= 4,
        at + (placeholder_at(text, at)->0).1 <= text.len(),
        (placeholder_at(text, at)->0).0.valid(),
{
}

/// No placeholder begins inside another one: the placeholders of a text
/// never overlap.
pub proof fn lemma_placeholders_do_not_overlap(text: Seq<char>, at: int, inside: int)
    requires
        placeholder_at(text, at) is Some,
        at < inside < at + (placeholder_at(text, at)->0).1,
    ensures
        placeholder_at(text, inside) is None,
{
}

/// Reading on from any position gives one segment more than placeholders,
/// and valid placeholders only.
pub proof fn lemma_parse_from_is_well_formed(text: Seq<char>, start: int, at: int)
    ensures
        parse_from(text, start, at).well_formed(),
    decreases text.len() - at,
{
    if at >= text.len() || at < start || start < 0 {
    } else {
        match placeholder_at(text, at) {
            Some((token, len)) => {
                lemma_placeholder_fits(text, at);
                lemma_parse_from_is_well_formed(text, at + len, at + len);
            },
            None => {
                lemma_parse_from_is_well_formed(text, start, at + 1);
            },
        }
    }
}

/// Every format string has one segment more than it has placeholders: one
/// before the first and one behind the last, empty or not.
pub proof fn lemma_parse_is_well_formed(text: Seq<char>)
    ensures
        parse(text).well_formed(),
        parse(text).segments.len() == parse(text).tokens.len() + 1,
{
    lemma_parse_from_is_well_formed(text, 0, 0);
}

/// The positions that reading from `at` on meets lie at or behind `at`,
/// each behind the end of the one before, and every placeholder that
/// begins at or behind `at` is among them.
pub proof fn lemma_starts_from_are_all_placeholders(text: Seq<char>, at: int)
    requires
        0 <= at <= text.len(),
    ensures
        forall|i: int|
            0 <= i < starts_from(text, at).len() ==> at <= #[trigger] starts_from(text, at)[i]
                < text.len(),
        forall|i: int, j: int|
            0 <= i < j < starts_from(text, at).len() ==> end_of(
                text,
                #[trigger] starts_from(text, at)[i],
            ) <= #[trigger] starts_from(text, at)[j],
        forall|p: int|
            at <= p < text.len() && (#[trigger] placeholder_at(text, p)) is Some ==> starts_from(
                text,
                at,
            ).contains(p),
    decreases text.len() - at,
{
    let here = starts_from(text, at);
    if at < text.len() {
        match placeholder_at(text, at) {
            Some((token, len)) => {
                lemma_placeholder_fits(text, at);
                lemma_starts_from_are_all_placeholders(text, at + len);
                let rest = starts_from(text, at + len);
                assert forall|p: int|
                    at <= p < text.len() && (#[trigger] placeholder_at(
                        text,
                        p,
                    )) is Some implies here.contains(p) by {
                    if p == at {
                        assert(here[0] == p);
                    } else if p < at + len {
                        lemma_placeholders_do_not_overlap(text, at, p);
                    } else {
                        let k = choose|k: int| 0 <= k < rest.len() && rest[k] == p;
                        assert(here[k + 1] == p);
                    }
                }
            },
            None => {
                lemma_starts_from_are_all_placeholders(text, at + 1);
                assert(here == starts_from(text, at + 1));
            },
        }
    }
}

/// Reading on from `at`, with no placeholder in the literal text read so
/// far, cuts the text at the placeholders that it meets.
pub proof fn lemma_parse_from_cuts_at_starts(text: Seq<char>, start: int, at: int)
    requires
        0 <= start <= at <= text.len(),
    ensures
        cut_at(text, start, starts_from(text, at), parse_from(text, start, at)),
    decreases text.len() - at,
{
    if at < text.len() {
        match placeholder_at(text, at) {
            Some((token, len)) => {
                lemma_placeholder_fits(text, at);
                lemma_parse_from_cuts_at_starts(text, at + len, at + len);
            },
            None => {
                lemma_parse_from_cuts_at_starts(text, start, at + 1);
            },
        }
    }
}

/// The tokens of a format string are its placeholders, all of them and in
/// their order, and its segments are the text before, between and behind
/// them: every character of the string is part of one placeholder or of one
/// segment. The placeholders are taken from left to right and none begins
/// inside another, so they do not overlap.
pub proof fn lemma_tokens_are_the_placeholders(text: Seq<char>)
    ensures
        cut_at(text, 0, starts_from(text, 0), parse(text)),
        forall|i: int|
            0 <= i < starts_from(text, 0).len() ==> 0 <= #[trigger] starts_from(text, 0)[i]
                < text.len(),
        forall|i: int, j: int|
            0 <= i < j < starts_from(text, 0).len() ==> end_of(
                text,
                #[trigger] starts_from(text, 0)[i],
            ) <= #[trigger] starts_from(text, 0)[j],
        forall|p: int|
            0 <= p < text.len() && (#[trigger] placeholder_at(text, p)) is Some ==> starts_from(
                text,
                0,
            ).contains(p),
{
    lemma_parse_from_cuts_at_starts(text, 0, 0);
    lemma_starts_from_are_all_placeholders(text, 0);
}

/// Where no placeholder begins from `at` on, the rest of the text is one
/// segment.
pub proof fn lemma_parse_from_literal(text: Seq<char>, start: int, at: int)
    requires
        0 <= start <= at <= text.len(),
        forall|k: int| at <= k < text.len() ==> placeholder_at(text, k) is None,
    ensures
        parse_from(text, start, at) == (Template {
            segments: seq![text.subrange(start, text.len() as int)],
            tokens: seq![],
        }),
    decreases text.len() - at,
{
    if at < text.len() {
        lemma_parse_from_literal(text, start, at + 1);
    }
}

/// A text without a placeholder stays as it is at every duration: what
/// follows a `%` without naming a placeholder, such as `%x`, is literal text.
pub proof fn lemma_literal_text_is_unchanged(text: Seq<char>, secs: nat, nanos: nat)
    requires
        is_literal(text),
    ensures
        parse(text) == (Template { segments: seq![text], tokens: seq![] }),
        parse(text).rendered(secs, nanos) == text,
{
    lemma_parse_from_literal(text, 0, 0);
    assert(parse(text).rendered(secs, nanos) =~= text);
}

/// A piece of a text in which no placeholder of the text begins holds no
/// placeholder of its own.
pub proof fn lemma_piece_is_literal(text: Seq<char>, from: int, to: int)
    requires
        0 <= from <= to <= text.len(),
        forall|k: int| from <= k < to ==> placeholder_at(text, k) is None,
    ensures
        is_literal(text.subrange(from, to)),
{
    let piece = text.subrange(from, to);
    assert forall|j: int| 0 <= j < piece.len() implies placeholder_at(piece, j) is None by {
        assert(placeholder_at(text, from + j) is None);
    }
}

/// Reading on from `at`, with no placeholder in the literal text read so
/// far, gives segments that hold no placeholder.
pub proof fn lemma_parse_from_segments_are_literal(text: Seq<char>, start: int, at: int)
    requires
        0 <= start <= at <= text.len(),
        forall|k: int| start <= k < at ==> placeholder_at(text, k) is None,
    ensures
        forall|i: int|
            0 <= i < parse_from(text, start, at).segments.len() ==> is_literal(
                #[trigger] parse_from(text, start, at).segments[i],
            ),
    decreases text.len() - at,
{
    let here = parse_from(text, start, at);
    if at >= text.len() {
        lemma_piece_is_literal(text, start, text.len() as int);
    } else {
        match placeholder_at(text, at) {
            Some((token, len)) => {
                lemma_placeholder_fits(text, at);
                lemma_piece_is_literal(text, start, at);
                lemma_parse_from_segments_are_literal(text, at + len, at + len);
                let rest = parse_from(text, at + len, at + len);
                assert forall|i: int| 0 <= i < here.segments.len() implies is_literal(
                    #[trigger] here.segments[i],
                ) by {
                    if i > 0 {
                        assert(here.segments[i] == rest.segments[i - 1]);
                    }
                }
            },
            None => {
                lemma_parse_from_segments_are_literal(text, start, at + 1);
                assert(here == parse_from(text, start, at + 1));
            },
        }
    }
}

/// The segments of a format string hold no placeholder: every placeholder
/// of the string has become a token, and a segment is literal text only.
pub proof fn lemma_segments_are_literal(text: Seq<char>)
    ensures
        forall|i: int|
            0 <= i < parse(text).segments.len() ==> is_literal(#[trigger] parse(text).segments[i]),
{
    lemma_parse_from_segments_are_literal(text, 0, 0);
}

/// Rendering is a function of the template and the duration: two renderings
/// with the same segments, the same placeholders and the same duration are
/// the same text.
pub proof fn lemma_rendering_is_repeatable(
    first: Template,
    second: Template,
    secs: nat,
    nanos: nat,
)
    requires
        first.segments == second.segments,
        first.tokens == second.tokens,
    ensures
        first.rendered(secs, nanos) == second.rendered(secs, nanos),
{
}

} // verus!
