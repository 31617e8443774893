use std::num::ParseIntError;
use vstd::prelude::*;

use crate::error::ParseError;
use crate::models::{EntryView, LogEntry};
use crate::text::{
    law_ascii_white_space, decimal, is_word, lemma_decimal, lemma_digits_are_word, lemma_unsigned_value_of_decimal,
    lemma_words_append_word, lemma_words_push_space, unsigned_value, word_bounds, words,
};

verus! {

/// What parsing a line gives: the entry it describes, or the first fault found in it.
pub enum LineOutcome {
    Parsed(EntryView),
    MissingFields,
    InvalidNumber,
    InvalidLatencyFormat,
}

/// The text ends in `ms`.
pub open spec fn ends_with_ms(t: Seq<char>) -> bool {
    t.len() >= 2 && t[t.len() - 2] == 'm' && t[t.len() - 1] == 's'
}

/// The meaning of a log line `timestamp method endpoint status latency`: its first five
/// whitespace-separated fields, checked in order; any fields after the fifth are ignored.
pub open spec fn line_outcome(line: Seq<char>) -> LineOutcome {
    let w = words(line);
    if w.len() < 4 {
        LineOutcome::MissingFields
    } else {
        match unsigned_value(w[3], u16::MAX as nat) {
            None => LineOutcome::InvalidNumber,
            Some(status) => {
                if w.len() < 5 {
                    LineOutcome::MissingFields
                } else if !ends_with_ms(w[4]) {
                    LineOutcome::InvalidLatencyFormat
                } else {
                    match unsigned_value(w[4].take(w[4].len() - 2), u64::MAX as nat) {
                        None => LineOutcome::InvalidNumber,
                        Some(latency) => LineOutcome::Parsed(
                            EntryView {
                                timestamp: w[0],
                                method: w[1],
                                endpoint: w[2],
                                status: status as u16,
                                response_time_ms: latency as u64,
                            },
                        ),
                    }
                }
            },
        }
    }
}

/// `<u16 as FromStr>::from_str`, reached through `str::parse`. Its documentation: an optional
/// `+`, then ASCII digits only, of a value that fits the type; any other text is an error.
/// The contract says that, and that the value is the one the digits denote.
#[verifier::external_body]
fn parse_u16(s: &str) -> (res: Result<u16, ParseIntError>)
    ensures
        match unsigned_value(s@, u16::MAX as nat) {
            Some(v) => res matches Ok(x) && x == v,
            None => res is Err,
        },
{
    s.parse::<u16>()
}

/// `<u64 as FromStr>::from_str`, reached through `str::parse`; the same claim as for `u16`.
#[verifier::external_body]
fn parse_u64(s: &str) -> (res: Result<u64, ParseIntError>)
    ensures
        match unsigned_value(s@, u64::MAX as nat) {
            Some(v) => res matches Ok(x) && x == v,
            None => res is Err,
        },
{
    s.parse::<u64>()
}

/// Parses one line of log text, `timestamp method endpoint status latency` with the latency
/// written as a number followed by `ms`, into a `LogEntry`.
pub fn parse_line(line: &str) -> (res: Result<LogEntry, ParseError>)
    ensures
        match line_outcome(line@) {
            LineOutcome::Parsed(e) => res matches Ok(entry) && entry@ == e,
            LineOutcome::MissingFields => res matches Err(ParseError::MissingFields),
            LineOutcome::InvalidNumber => res matches Err(ParseError::InvalidNumber(_)),
            LineOutcome::InvalidLatencyFormat => res matches Err(
                ParseError::InvalidLatencyFormat,
            ),
        },
{
    let bounds = word_bounds(line);
    let ghost w = words(line@);
    if bounds.len() < 4 {
        return Err(ParseError::MissingFields);
    }
    assert(line@.subrange(bounds@[0].0 as int, bounds@[0].1 as int) == w[0]);
    assert(line@.subrange(bounds@[1].0 as int, bounds@[1].1 as int) == w[1]);
    assert(line@.subrange(bounds@[2].0 as int, bounds@[2].1 as int) == w[2]);
    assert(line@.subrange(bounds@[3].0 as int, bounds@[3].1 as int) == w[3]);
    let timestamp = line.substring_char(bounds[0].0, bounds[0].1).to_owned();
    let method = line.substring_char(bounds[1].0, bounds[1].1).to_owned();
    let endpoint = line.substring_char(bounds[2].0, bounds[2].1).to_owned();
    let status_str = line.substring_char(bounds[3].0, bounds[3].1);
    let status = match parse_u16(status_str) {
        Ok(v) => v,
        Err(e) => return Err(ParseError::from(e)),
    };
    if bounds.len() < 5 {
        return Err(ParseError::MissingFields);
    }
    assert(line@.subrange(bounds@[4].0 as int, bounds@[4].1 as int) == w[4]);
    let latency_str = line.substring_char(bounds[4].0, bounds[4].1);
    let n = latency_str.unicode_len();
    if n < 2 || latency_str.get_char(n - 2) != 'm' || latency_str.get_char(n - 1) != 's' {
        return Err(ParseError::InvalidLatencyFormat);
    }
    let ms_part = latency_str.substring_char(0, n - 2);
    assert(ms_part@ =~= w[4].take(w[4].len() - 2));
    let response_time_ms = match parse_u64(ms_part) {
        Ok(v) => v,
        Err(e) => return Err(ParseError::from(e)),
    };
    Ok(LogEntry { timestamp, method, endpoint, status, response_time_ms })
}

/// The log line that describes `e`: its five fields separated by single spaces, the numbers
/// in decimal and the latency followed by `ms`.
pub open spec fn render_line(e: EntryView) -> Seq<char> {
    e.timestamp + seq![' '] + e.method + seq![' '] + e.endpoint + seq![' '] + decimal(
        e.status as nat,
    ) + seq![' '] + decimal(e.response_time_ms as nat) + seq!['m', 's']
}

/// Parsing the line that describes an entry gives that entry back, for every entry whose
/// timestamp, method and endpoint are non-empty and free of white space.
pub proof fn law_parse_rendered_line(e: EntryView)
    requires
        is_word(e.timestamp),
        is_word(e.method),
        is_word(e.endpoint),
    ensures
        line_outcome(render_line(e)) == LineOutcome::Parsed(e),
{
    let sp = seq![' '];
    let d1 = decimal(e.status as nat);
    let d2 = decimal(e.response_time_ms as nat);
    let lat = d2 + seq!['m', 's'];
    lemma_decimal(e.status as nat);
    lemma_decimal(e.response_time_ms as nat);
    lemma_digits_are_word(d1);
    lemma_digits_are_word(d2);
    assert(is_word(lat)) by {
        assert forall|i: int| 0 <= i < lat.len() implies !crate::text::is_white_space(#[trigger] lat[i]) by {
            if i < d2.len() {
                assert(lat[i] == d2[i]);
            }
        }
    }
    let x0 = Seq::<char>::empty();
    let x1 = x0 + e.timestamp;
    lemma_words_append_word(x0, e.timestamp);
    let x2 = x1.push(' ');
    lemma_words_push_space(x1, ' ');
    let x3 = x2 + e.method;
    lemma_words_append_word(x2, e.method);
    let x4 = x3.push(' ');
    lemma_words_push_space(x3, ' ');
    let x5 = x4 + e.endpoint;
    lemma_words_append_word(x4, e.endpoint);
    let x6 = x5.push(' ');
    lemma_words_push_space(x5, ' ');
    let x7 = x6 + d1;
    lemma_words_append_word(x6, d1);
    let x8 = x7.push(' ');
    lemma_words_push_space(x7, ' ');
    let x9 = x8 + lat;
    lemma_words_append_word(x8, lat);
    assert(x1 =~= e.timestamp);
    assert(x9 =~= render_line(e));
    let w = words(render_line(e));
    assert(w =~= seq![e.timestamp, e.method, e.endpoint, d1, lat]);
    lemma_unsigned_value_of_decimal(e.status as nat, u16::MAX as nat);
    lemma_unsigned_value_of_decimal(e.response_time_ms as nat, u64::MAX as nat);
    assert(lat.take(lat.len() - 2) =~= d2);
}

/// A non-empty text of visible ASCII characters (`!` to `~`).
pub open spec fn is_visible_ascii(w: Seq<char>) -> bool {
    w.len() > 0 && forall|i: int| 0 <= i < w.len() ==> 33 <= #[trigger] w[i] as u32 && w[i] as u32 <= 126
}

proof fn lemma_visible_ascii_is_word(w: Seq<char>)
    requires
        is_visible_ascii(w),
    ensures
        is_word(w),
{
    assert forall|i: int| 0 <= i < w.len() implies !crate::text::is_white_space(#[trigger] w[i]) by {
        law_ascii_white_space(w[i]);
    }
}

/// Parsing the line that describes an entry gives that entry back whenever its timestamp,
/// method and endpoint are made of visible ASCII characters, whatever punctuation they hold
/// (`?`, `=`, `&`, `:`, `/` ...).
pub proof fn law_parse_visible_ascii_fields(e: EntryView)
    requires
        is_visible_ascii(e.timestamp),
        is_visible_ascii(e.method),
        is_visible_ascii(e.endpoint),
    ensures
        line_outcome(render_line(e)) == LineOutcome::Parsed(e),
{
    lemma_visible_ascii_is_word(e.timestamp);
    lemma_visible_ascii_is_word(e.method);
    lemma_visible_ascii_is_word(e.endpoint);
    law_parse_rendered_line(e);
}

} // verus!
