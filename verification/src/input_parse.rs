//! Assembly of the scan configuration from the raw inputs.
//!
//! The inputs are the target address, the port selection text, the flag that
//! asks for all ports, the number of threads, the timeout and the optional
//! output path. The flag takes precedence over the text; everything but the
//! ports is carried over as given.

use crate::args::canonical::{range_text, ranges_text};
use crate::args::laws::law_canonical_text_reparses;
use crate::args::number::decimal;
use crate::args::parser::{parse_port_range, parse_ports, PortError, PortRange, PortSelection};
use vstd::prelude::*;

verus! {

/// The configuration of one scan. `A` is the type of the target address, `P`
/// that of the output path; neither is looked into here.
#[derive(Debug, Clone, PartialEq)]
pub struct Args<A, P> {
    pub address: A,
    pub ports: PortRange,
    pub threads: usize,
    pub timeout: u32,
    pub output: Option<P>,
}

/// The text that stands for all ports, 0 through 65535.
pub open spec fn all_ports_text() -> Seq<char> {
    "0-65535"@
}

/// The selection of all ports: the one range from 0 to 65535.
pub open spec fn all_ports_selection() -> PortSelection {
    PortSelection::RangeList(seq![(0u16, 65535u16)])
}

/// The text that decides the ports: the one for all ports when the flag is
/// set, whatever `ports` holds; else `ports`.
pub open spec fn effective_ports(ports: Seq<char>, all_ports: bool) -> Seq<char> {
    if all_ports {
        all_ports_text()
    } else {
        ports
    }
}

/// The text for all ports parses, and to the one range from 0 to 65535.
pub proof fn lemma_all_ports_parse()
    ensures
        parse_ports(all_ports_text()) == Ok::<_, PortError>(all_ports_selection()),
{
    let range = (0u16, 65535u16);
    reveal_strlit("0-65535");
    reveal_with_fuel(decimal, 5);
    assert(decimal(0) =~= seq!['0']);
    assert(decimal(65535) =~= seq!['6', '5', '5', '3', '5']);
    assert(range_text(range) =~= all_ports_text());
    assert(ranges_text(seq![range]) == range_text(range));
    law_canonical_text_reparses(all_ports_selection());
}

/// The port text in force.
fn choose_ports(ports: String, all_ports: bool) -> (text: String)
    ensures
        text@ == effective_ports(ports@, all_ports),
{
    if all_ports {
        String::from_str("0-65535")
    } else {
        ports
    }
}

impl<A, P> Args<A, P> {
    /// Assembles the configuration.
    ///
    /// The ports are those that the text in force parses to; an error of the
    /// parser is handed on as it is. With `all_ports` set this never fails and
    /// the ports are the whole range, whatever `ports` holds. The other
    /// fields are not examined.
    pub fn new(
        address: A,
        ports: String,
        all_ports: bool,
        threads: usize,
        timeout: u32,
        output: Option<P>,
    ) -> (result: Result<Self, String>)
        ensures
            (match parse_ports(effective_ports(ports@, all_ports)) {
                Ok(selection) => {
                    &&& result is Ok
                    &&& result->Ok_0.ports@ == selection
                    &&& result->Ok_0.ports.wf()
                    &&& result->Ok_0.address == address
                    &&& result->Ok_0.threads == threads
                    &&& result->Ok_0.timeout == timeout
                    &&& result->Ok_0.output == output
                },
                Err(error) => result is Err && result->Err_0@ == error.message(),
            }),
            all_ports ==> result is Ok && result->Ok_0.ports@ == all_ports_selection(),
            all_ports ==> parse_ports(all_ports_text()) == Ok::<_, PortError>(
                result->Ok_0.ports@,
            ),
    {
        proof {
            lemma_all_ports_parse();
        }
        let target_ports = choose_ports(ports, all_ports);
        match parse_port_range(target_ports) {
            Ok(ports) => Ok(Args { address, ports, threads, timeout, output }),
            Err(message) => Err(message),
        }
    }
}

} // verus!
