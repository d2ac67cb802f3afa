//! The canonical text of a port selection: the shortest text that parses to
//! it.

use crate::args::number::{decimal, push_decimal};
use crate::args::parser::{PortRange, PortSelection};
use vstd::prelude::*;

verus! {

/// The text of one range: start, `-`, end, each in shortest decimal form.
pub open spec fn range_text(range: (u16, u16)) -> Seq<char> {
    decimal(range.0 as nat) + seq!['-'] + decimal(range.1 as nat)
}

/// The texts of `ranges` in order, with `,` between neighbours.
pub open spec fn ranges_text(ranges: Seq<(u16, u16)>) -> Seq<char>
    decreases ranges.len(),
{
    if ranges.len() == 0 {
        Seq::empty()
    } else if ranges.len() == 1 {
        range_text(ranges[0])
    } else {
        range_text(ranges.first()) + seq![','] + ranges_text(ranges.drop_first())
    }
}

impl PortSelection {
    /// The canonical text of the selection.
    pub open spec fn canonical_text(self) -> Seq<char> {
        match self {
            PortSelection::RangeList(ranges) => ranges_text(ranges),
            PortSelection::Single(port) => decimal(port as nat),
        }
    }
}

/// One more range at the end adds `,` and its text.
pub proof fn lemma_ranges_text_push(ranges: Seq<(u16, u16)>, range: (u16, u16))
    requires
        ranges.len() > 0,
    ensures
        ranges_text(ranges.push(range)) == ranges_text(ranges) + seq![','] + range_text(range),
    decreases ranges.len(),
{
    let all = ranges.push(range);
    assert(all.first() == ranges.first());
    if ranges.len() == 1 {
        assert(all.drop_first() =~= seq![range]);
        assert(ranges_text(all.drop_first()) == range_text(range));
    } else {
        assert(all.drop_first() =~= ranges.drop_first().push(range));
        lemma_ranges_text_push(ranges.drop_first(), range);
        assert(ranges_text(all) =~= ranges_text(ranges) + seq![','] + range_text(range));
    }
}

impl PortRange {
    /// Writes the selection in canonical form: a single port as its decimal
    /// number, a list as `start-end` for each range, with `,` between them.
    pub fn canonical_text(&self) -> (text: String)
        ensures
            text@ == self@.canonical_text(),
    {
        let mut text = String::new();
        match self {
            PortRange::Single(port) => {
                push_decimal(&mut text, *port);
                assert(text@ =~= decimal(*port as nat));
            },
            PortRange::Range(ranges) => {
                assert(ranges@.take(0) =~= Seq::<(u16, u16)>::empty());
                for i in 0..ranges.len()
                    invariant
                        text@ == ranges_text(ranges@.take(i as int)),
                {
                    let ghost done = ranges@.take(i as int);
                    let ghost before = text@;
                    proof {
                        reveal_strlit(",");
                        reveal_strlit("-");
                        assert(ranges@.take(i + 1) =~= done.push(ranges@[i as int]));
                        if i > 0 {
                            lemma_ranges_text_push(done, ranges@[i as int]);
                        }
                    }
                    if i > 0 {
                        text.append(",");
                    }
                    let (start, end) = ranges[i];
                    push_decimal(&mut text, start);
                    text.append("-");
                    push_decimal(&mut text, end);
                    assert(",".view() =~= seq![',']);
                    assert("-".view() =~= seq!['-']);
                    assert(text@ =~= (if i > 0 {
                        before + seq![',']
                    } else {
                        before
                    }) + range_text(ranges@[i as int]));
                }
                assert(ranges@.take(ranges.len() as int) =~= ranges@);
            },
        }
        text
    }
}

} // verus!
