//! Laws of the grammar: what holds of every port, every text and every
//! selection.

use crate::args::canonical::{range_text, ranges_text};
use crate::args::number::{
    decimal, lemma_decimal_digits, lemma_decimal_plain, lemma_parse_decimal, parse_u16,
};
use crate::args::parser::{
    lemma_parse_ports_wf, lemma_parse_segments_first, lemma_split_in_two, parse_ports,
    parse_segment, parse_segments, PortError, PortSelection,
};
use crate::args::text::{index_of, lemma_index_of, lemma_index_of_unique, split, trim};
use vstd::prelude::*;

verus! {

/// The decimal text of any 16-bit number parses to that single port.
pub proof fn law_decimal_parses_to_single(port: u16)
    ensures
        parse_ports(decimal(port as nat)) == Ok::<_, PortError>(PortSelection::Single(port)),
{
    let text = decimal(port as nat);
    lemma_decimal_plain(port as nat);
    lemma_parse_decimal(port);
    assert(!text.contains('-'));
    assert(!text.contains(','));
}

/// A text without `-` and `,` that writes no 16-bit number is an invalid
/// port, and the error cites the whole text.
pub proof fn law_lone_token_not_a_number(text: Seq<char>)
    requires
        !text.contains('-'),
        !text.contains(','),
        parse_u16(text) is None,
    ensures
        parse_ports(text) == Err::<PortSelection, _>(PortError::InvalidPort(text)),
{
}

/// A text that parses is a single port exactly when it holds neither `-`
/// nor `,`: one range alone is still a list.
pub proof fn law_single_without_separator(text: Seq<char>)
    requires
        parse_ports(text) is Ok,
    ensures
        parse_ports(text)->Ok_0 is Single <==> !text.contains('-') && !text.contains(','),
{
}

/// Trimming leaves a decimal text as it is.
pub proof fn lemma_trim_decimal(n: nat)
    ensures
        trim(decimal(n)) == decimal(n),
{
    lemma_decimal_digits(n);
    lemma_decimal_plain(n);
    let text = decimal(n);
    assert(text.first() == text[0]);
    assert(text.last() == text[text.len() - 1]);
}

/// The text of a range whose start is at or below its end parses to that
/// range, and holds one `-` and no `,`.
pub proof fn lemma_range_text_parses(range: (u16, u16))
    requires
        range.0 <= range.1,
    ensures
        parse_segment(range_text(range)) == Ok::<_, PortError>(range),
        range_text(range).contains('-'),
        !range_text(range).contains(','),
{
    let start = decimal(range.0 as nat);
    let end = decimal(range.1 as nat);
    let text = range_text(range);
    lemma_decimal_plain(range.0 as nat);
    lemma_decimal_plain(range.1 as nat);
    assert forall|j: int| 0 <= j < text.len() implies text[j] != ',' by {
        if j < start.len() {
            assert(text[j] == start[j]);
        } else if j > start.len() {
            assert(text[j] == end[j - start.len() - 1]);
        }
    }
    assert(text[start.len() as int] == '-');
    assert forall|j: int| 0 <= j < start.len() implies text[j] != '-' by {
        assert(text[j] == start[j]);
    }
    lemma_index_of_unique(text, '-', start.len() as int);
    assert(text.take(start.len() as int) =~= start);
    assert(text.skip(start.len() + 1 as int) =~= end);
    lemma_index_of_unique(end, '-', end.len() as int);
    lemma_split_in_two(text, '-');
    assert(split(text, '-') == seq![start, end]);
    lemma_trim_decimal(range.0 as nat);
    lemma_trim_decimal(range.1 as nat);
    lemma_parse_decimal(range.0);
    lemma_parse_decimal(range.1);
}

/// The text of a list of ranges splits at its commas into the texts of the
/// ranges, and these parse to the list.
pub proof fn lemma_ranges_text_parses(ranges: Seq<(u16, u16)>)
    requires
        ranges.len() > 0,
        forall|i: int| 0 <= i < ranges.len() ==> (#[trigger] ranges[i]).0 <= ranges[i].1,
    ensures
        parse_segments(split(ranges_text(ranges), ',')) == Ok::<_, PortError>(ranges),
        ranges_text(ranges).contains('-'),
    decreases ranges.len(),
{
    let first = ranges.first();
    let head = range_text(first);
    let text = ranges_text(ranges);
    lemma_range_text_parses(first);
    lemma_index_of(head, ',');
    lemma_index_of(head, '-');
    let dash = index_of(head, '-') as int;
    if ranges.len() == 1 {
        assert(split(text, ',') =~= seq![head] + Seq::<Seq<char>>::empty());
        lemma_parse_segments_first(head, Seq::empty());
        assert(seq![first] + Seq::<(u16, u16)>::empty() =~= ranges);
    } else {
        let others = ranges.drop_first();
        let tail = ranges_text(others);
        assert forall|i: int| 0 <= i < others.len() implies (#[trigger] others[i]).0
            <= others[i].1 by {
            assert(others[i] == ranges[i + 1]);
        }
        lemma_ranges_text_parses(others);
        assert(text == head + seq![','] + tail);
        assert(text[head.len() as int] == ',');
        assert forall|j: int| 0 <= j < head.len() implies text[j] != ',' by {
            assert(text[j] == head[j]);
        }
        lemma_index_of_unique(text, ',', head.len() as int);
        assert(text.take(head.len() as int) =~= head);
        assert(text.skip(head.len() + 1 as int) =~= tail);
        assert(split(text, ',') =~= seq![head] + split(tail, ','));
        lemma_parse_segments_first(head, split(tail, ','));
        assert(seq![first] + others =~= ranges);
        assert(text[dash] == head[dash]);
    }
    assert(text[dash] == '-');
}

/// Parsing the canonical text of any well-formed selection gives the
/// selection back. So a selection that was parsed, written out and parsed
/// again is unchanged.
pub proof fn law_canonical_text_reparses(selection: PortSelection)
    requires
        selection.wf(),
    ensures
        parse_ports(selection.canonical_text()) == Ok::<_, PortError>(selection),
{
    match selection {
        PortSelection::Single(port) => {
            law_decimal_parses_to_single(port);
        },
        PortSelection::RangeList(ranges) => {
            lemma_ranges_text_parses(ranges);
        },
    }
}

/// Parsing, writing out and parsing again gives what the first parse gave.
pub proof fn law_reparse_is_idempotent(text: Seq<char>)
    requires
        parse_ports(text) is Ok,
    ensures
        parse_ports(parse_ports(text)->Ok_0.canonical_text()) == parse_ports(text),
{
    lemma_parse_ports_wf(text);
    law_canonical_text_reparses(parse_ports(text)->Ok_0);
}

} // verus!
