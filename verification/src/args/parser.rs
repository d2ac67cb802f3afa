//! The grammar of a port selection.
//!
//! A text with neither `-` nor `,` names a single port. Any other text is a
//! list of ranges `start-end`, separated by `,`. `parse_ports` says what each
//! text means; `parse_port_range` computes it.

use crate::args::number::{parse_u16, read_u16};
use crate::args::text::{
    find, index_of, lemma_index_of, lemma_split_nonempty, split, to_chars, trim, trim_bounds,
};
use vstd::prelude::*;

verus! {

/// Represents a port range, which can be either a single port or a range of ports.
#[derive(Debug, Clone, PartialEq)]
pub enum PortRange {
    Range(Vec<(u16, u16)>),
    Single(u16),
}

/// What a `PortRange` holds, as a mathematical value.
pub enum PortSelection {
    /// The ranges `(start, end)`, in the order in which they were written.
    RangeList(Seq<(u16, u16)>),
    /// One port.
    Single(u16),
}

/// Why a text is no port selection. Each kind carries the text at fault.
pub enum PortError {
    /// A text without `-` and `,` that writes no 16-bit number.
    InvalidPort(Seq<char>),
    /// A range that does not have exactly two parts around one `-`.
    InvalidRangeFormat(Seq<char>),
    /// A range whose first part writes no 16-bit number.
    InvalidRangeStart(Seq<char>),
    /// A range whose second part writes no 16-bit number.
    InvalidRangeEnd(Seq<char>),
    /// A range that starts above its end.
    InvalidRangeOrder(Seq<char>),
}

impl PortSelection {
    /// A list of ranges is not empty, and no range starts above its end.
    pub open spec fn wf(self) -> bool {
        match self {
            PortSelection::RangeList(ranges) => {
                &&& ranges.len() > 0
                &&& forall|i: int| 0 <= i < ranges.len() ==> (#[trigger] ranges[i]).0 <= ranges[i].1
            },
            PortSelection::Single(_) => true,
        }
    }
}

impl PortError {
    /// The message shown for this error: what went wrong, then the text at
    /// fault, unchanged.
    pub open spec fn message(self) -> Seq<char> {
        match self {
            PortError::InvalidPort(text) => "Invalid port: "@ + text,
            PortError::InvalidRangeFormat(text) => "Invalid port range: "@ + text,
            PortError::InvalidRangeStart(text) => "Invalid start port: "@ + text,
            PortError::InvalidRangeEnd(text) => "Invalid end port: "@ + text,
            PortError::InvalidRangeOrder(text) => "Start port is greater than end port: "@ + text,
        }
    }
}

impl View for PortRange {
    type V = PortSelection;

    open spec fn view(&self) -> PortSelection {
        match self {
            PortRange::Range(ranges) => PortSelection::RangeList(ranges@),
            PortRange::Single(port) => PortSelection::Single(*port),
        }
    }
}

impl PortRange {
    /// The value is one that parsing can produce.
    pub open spec fn wf(&self) -> bool {
        self@.wf()
    }
}

/// The meaning of one range `start-end`. Whitespace around either number is
/// ignored. An error about a part cites the part as written, whitespace
/// included; an error about the range cites the whole range.
pub open spec fn parse_segment(segment: Seq<char>) -> Result<(u16, u16), PortError> {
    let parts = split(segment, '-');
    if parts.len() != 2 {
        Err(PortError::InvalidRangeFormat(segment))
    } else {
        match parse_u16(trim(parts[0])) {
            None => Err(PortError::InvalidRangeStart(parts[0])),
            Some(start) => match parse_u16(trim(parts[1])) {
                None => Err(PortError::InvalidRangeEnd(parts[1])),
                Some(end) => if start > end {
                    Err(PortError::InvalidRangeOrder(segment))
                } else {
                    Ok((start, end))
                },
            },
        }
    }
}

/// The meaning of a list of ranges: every range in order, or the error of the
/// first range that has one.
pub open spec fn parse_segments(segments: Seq<Seq<char>>) -> Result<Seq<(u16, u16)>, PortError>
    decreases segments.len(),
{
    if segments.len() == 0 {
        Ok(Seq::empty())
    } else {
        match parse_segment(segments.first()) {
            Err(error) => Err(error),
            Ok(range) => followed_by(seq![range], parse_segments(segments.drop_first())),
        }
    }
}

/// `done` in front of the ranges of `rest`, or the error of `rest`.
pub open spec fn followed_by(
    done: Seq<(u16, u16)>,
    rest: Result<Seq<(u16, u16)>, PortError>,
) -> Result<Seq<(u16, u16)>, PortError> {
    match rest {
        Ok(ranges) => Ok(done + ranges),
        Err(error) => Err(error),
    }
}

/// The meaning of a port selection text.
pub open spec fn parse_ports(text: Seq<char>) -> Result<PortSelection, PortError> {
    if !text.contains('-') && !text.contains(',') {
        match parse_u16(text) {
            Some(port) => Ok(PortSelection::Single(port)),
            None => Err(PortError::InvalidPort(text)),
        }
    } else {
        match parse_segments(split(text, ',')) {
            Ok(ranges) => Ok(PortSelection::RangeList(ranges)),
            Err(error) => Err(error),
        }
    }
}

/// A text splits in two exactly when it holds one separator; the parts are
/// then what stands before and behind it.
pub proof fn lemma_split_in_two(s: Seq<char>, sep: char)
    ensures
        split(s, sep).len() >= 1,
        ({
            let i = index_of(s, sep) as int;
            let rest = s.skip(i + 1);
            &&& split(s, sep).len() == 2 <==> i < s.len() && index_of(rest, sep) == rest.len()
            &&& split(s, sep).len() == 2 ==> split(s, sep) == seq![s.take(i), rest]
        }),
{
    let i = index_of(s, sep) as int;
    if i < s.len() {
        let rest = s.skip(i + 1);
        lemma_index_of(rest, sep);
        if index_of(rest, sep) < rest.len() {
            lemma_split_nonempty(rest.skip(index_of(rest, sep) + 1 as int), sep);
            assert(split(rest, sep).len() >= 2);
        } else {
            assert(split(rest, sep) == seq![rest]);
            assert(split(s, sep) =~= seq![s.take(i), rest]);
        }
    }
}

/// Parsing a list goes range by range, from the front.
pub proof fn lemma_parse_segments_first(first: Seq<char>, rest: Seq<Seq<char>>)
    ensures
        parse_segments(seq![first] + rest) == (match parse_segment(first) {
            Err(error) => Err(error),
            Ok(range) => followed_by(seq![range], parse_segments(rest)),
        }),
{
    let all = seq![first] + rest;
    assert(all.first() == first);
    assert(all.drop_first() =~= rest);
}

/// A list that parses gives one range for each of its texts, each with its
/// start at or below its end.
pub proof fn lemma_parse_segments_ok(segments: Seq<Seq<char>>)
    ensures
        parse_segments(segments) matches Ok(ranges) ==> ranges.len() == segments.len(),
        parse_segments(segments) matches Ok(ranges) ==> forall|i: int|
            0 <= i < ranges.len() ==> parse_segment(segments[i]) == Ok::<_, PortError>(
                #[trigger] ranges[i],
            ) && ranges[i].0 <= ranges[i].1,
    decreases segments.len(),
{
    if segments.len() > 0 {
        lemma_parse_segments_ok(segments.drop_first());
    }
}

/// Whatever parses is well formed.
pub proof fn lemma_parse_ports_wf(text: Seq<char>)
    ensures
        parse_ports(text) matches Ok(selection) ==> selection.wf(),
{
    lemma_parse_segments_ok(split(text, ','));
    lemma_split_in_two(text, ',');
}

/// The message for an error of the kind that `prefix` names, about the window
/// `lo..hi` of `text`.
fn failure(prefix: &str, text: &str, lo: usize, hi: usize) -> (message: String)
    requires
        lo <= hi <= text@.len(),
    ensures
        message@ == prefix@ + text@.subrange(lo as int, hi as int),
{
    let mut message = String::from_str(prefix);
    message.append(text.substring_char(lo, hi));
    message
}

/// Reads the window `lo..hi` as one range.
fn read_range(text: &str, chars: &Vec<char>, lo: usize, hi: usize) -> (r: Result<
    (u16, u16),
    String,
>)
    requires
        chars@ == text@,
        lo <= hi <= chars.len(),
    ensures
        (match parse_segment(chars@.subrange(lo as int, hi as int)) {
            Ok(range) => r is Ok && r->Ok_0 == range,
            Err(error) => r is Err && r->Err_0@ == error.message(),
        }),
{
    let ghost segment = chars@.subrange(lo as int, hi as int);
    proof {
        lemma_split_in_two(segment, '-');
    }
    let dash = find(chars, lo, hi, '-');
    if dash == hi {
        return Err(failure("Invalid port range: ", text, lo, hi));
    }
    assert(segment.skip(dash - lo + 1) =~= chars@.subrange(dash + 1, hi as int));
    assert(segment.take(dash - lo) =~= chars@.subrange(lo as int, dash as int));
    let second = find(chars, dash + 1, hi, '-');
    if second < hi {
        return Err(failure("Invalid port range: ", text, lo, hi));
    }
    let (start_lo, start_hi) = trim_bounds(chars, lo, dash);
    let start = match read_u16(chars, start_lo, start_hi) {
        Some(port) => port,
        None => {
            return Err(failure("Invalid start port: ", text, lo, dash));
        },
    };
    let (end_lo, end_hi) = trim_bounds(chars, dash + 1, hi);
    let end = match read_u16(chars, end_lo, end_hi) {
        Some(port) => port,
        None => {
            return Err(failure("Invalid end port: ", text, dash + 1, hi));
        },
    };
    if start > end {
        return Err(failure("Start port is greater than end port: ", text, lo, hi));
    }
    Ok((start, end))
}

/// Parses a string representation of a port range and returns a `PortRange`.
///
/// Returns the selection that `parse_ports` gives for the text, or the message
/// of the error that it gives. No text gives a partial result: one range at
/// fault fails the whole text.
pub fn parse_port_range(target_ports: String) -> (result: Result<PortRange, String>)
    ensures
        (match parse_ports(target_ports@) {
            Ok(selection) => result is Ok && result->Ok_0@ == selection,
            Err(error) => result is Err && result->Err_0@ == error.message(),
        }),
        result matches Ok(ports) ==> ports.wf(),
{
    let text = target_ports.as_str();
    let chars = to_chars(text);
    let n = chars.len();
    let ghost s = chars@;
    proof {
        lemma_index_of(s, '-');
        lemma_index_of(s, ',');
        lemma_parse_ports_wf(s);
        assert(s.subrange(0, n as int) =~= s);
    }
    if find(&chars, 0, n, '-') == n && find(&chars, 0, n, ',') == n {
        return match read_u16(&chars, 0, n) {
            Some(port) => Ok(PortRange::Single(port)),
            None => Err(failure("Invalid port: ", text, 0, n)),
        };
    }
    let mut ranges: Vec<(u16, u16)> = Vec::new();
    let mut from: usize = 0;
    assert(s.skip(0) =~= s);
    assert(Seq::<(u16, u16)>::empty() + parse_segments(split(s, ','))->Ok_0 =~= parse_segments(
        split(s, ','),
    )->Ok_0);
    loop
        invariant_except_break
            from <= n,
            parse_segments(split(s, ',')) == followed_by(
                ranges@,
                parse_segments(split(s.skip(from as int), ',')),
            ),
        invariant
            n == chars.len(),
            s == chars@,
            s == text@,
            s == target_ports@,
            s.contains('-') || s.contains(','),
        ensures
            parse_segments(split(s, ',')) == Ok::<_, PortError>(ranges@),
        decreases n - from,
    {
        let to = find(&chars, from, n, ',');
        let ghost rest = s.skip(from as int);
        let ghost segment = s.subrange(from as int, to as int);
        let ghost behind = if to < n {
            split(s.skip(to + 1), ',')
        } else {
            Seq::empty()
        };
        proof {
            assert(s.subrange(from as int, n as int) =~= rest);
            assert(rest.take(to - from) =~= segment);
            if to < n {
                assert(rest.skip(to - from + 1) =~= s.skip(to + 1));
            } else {
                assert(parse_segments(behind) == Ok::<_, PortError>(Seq::<(u16, u16)>::empty()));
            }
            assert(split(rest, ',') =~= seq![segment] + behind);
            lemma_parse_segments_first(segment, behind);
        }
        match read_range(text, &chars, from, to) {
            Err(message) => {
                return Err(message);
            },
            Ok(range) => {
                let ghost before = ranges@;
                ranges.push(range);
                proof {
                    if parse_segments(behind) is Ok {
                        let tail = parse_segments(behind)->Ok_0;
                        assert(before + (seq![range] + tail) =~= ranges@ + tail);
                    }
                }
            },
        }
        if to == n {
            assert(ranges@ + Seq::<(u16, u16)>::empty() =~= ranges@);
            break ;
        }
        from = to + 1;
    }
    Ok(PortRange::Range(ranges))
}

} // verus!
