//! Ports: what the command line says of one, and what is handed to the
//! serial transport to open it.

use crate::numeral::{parse_u32, parse_u32_spec};
use vstd::prelude::*;
use vstd::string::*;

verus! {

/// The most ports that one run reads from.
pub const MAX_PORTS: usize = 8;

/// The baud rate of a port where the command line names none.
pub const DEFAULT_BAUD: u32 = 19200;

/// One configured port: the name of the device and the speed to open it at.
#[derive(Clone, Debug, PartialEq, Eq)]
pub struct PortSpec {
    pub identifier: String,
    pub baud_rate: u32,
}

/// A configured port as contracts see it.
pub struct PortSpecView {
    pub identifier: Seq<char>,
    pub baud_rate: u32,
}

impl View for PortSpec {
    type V = PortSpecView;

    open spec fn view(&self) -> PortSpecView {
        PortSpecView { identifier: self.identifier@, baud_rate: self.baud_rate }
    }
}

/// The ports of `ports` as contracts see them, in the same order.
pub open spec fn port_views(ports: Seq<PortSpec>) -> Seq<PortSpecView> {
    ports.map_values(|port: PortSpec| port@)
}

/// Where the first comma of `s` stands; the length of `s` if it has none.
pub open spec fn first_comma(s: Seq<char>) -> int
    decreases s.len(),
{
    if s.len() == 0 || s[0] == ',' {
        0
    } else {
        1 + first_comma(s.drop_first())
    }
}

/// `first_comma` is the one place with no comma before it that either holds a
/// comma or is the end of the string.
pub proof fn lemma_first_comma(s: Seq<char>, i: int)
    requires
        0 <= i <= s.len(),
        forall|j: int| 0 <= j < i ==> s[j] != ',',
        i < s.len() ==> s[i] == ',',
    ensures
        first_comma(s) == i,
    decreases s.len(),
{
    if i > 0 {
        lemma_first_comma(s.drop_first(), i - 1);
    }
}

/// The port identifier in a port argument: all that stands before its first
/// comma, the whole argument where there is none.
pub open spec fn port_identifier(arg: Seq<char>) -> Seq<char> {
    arg.take(first_comma(arg))
}

/// The baud rate that a port argument asks for: the number behind its first
/// comma, and `default_baud` where there is no comma or no number behind it.
pub open spec fn port_baud(arg: Seq<char>, default_baud: u32) -> u32 {
    let cut = first_comma(arg);
    if cut == arg.len() {
        default_baud
    } else {
        match parse_u32_spec(arg.skip(cut + 1)) {
            Some(baud) => baud,
            None => default_baud,
        }
    }
}

/// The port that a port argument describes.
pub open spec fn port_of_arg(arg: Seq<char>, default_baud: u32) -> PortSpecView {
    PortSpecView { identifier: port_identifier(arg), baud_rate: port_baud(arg, default_baud) }
}

/// Reads one port argument, `<identifier>` or `<identifier>,<baud>`. A baud
/// override that is no number is passed over and the default stands.
pub fn parse_port_arg(arg: &str, default_baud: u32) -> (setting: (String, u32))
    ensures
        setting.0@ == port_identifier(arg@),
        setting.1 == port_baud(arg@, default_baud),
{
    let n: usize = arg.unicode_len();
    let mut cut: usize = 0;
    while cut < n
        invariant
            cut <= n,
            n == arg@.len(),
            forall|j: int| 0 <= j < cut ==> arg@[j] != ',',
        ensures
            cut <= n,
            forall|j: int| 0 <= j < cut ==> arg@[j] != ',',
            cut < n ==> arg@[cut as int] == ',',
        decreases n - cut,
    {
        if arg.get_char(cut) == ',' {
            break ;
        }
        cut = cut + 1;
    }
    proof {
        lemma_first_comma(arg@, cut as int);
    }
    let identifier = String::from_str(arg.substring_char(0, cut));
    if cut == n {
        return (identifier, default_baud);
    }
    let tail = arg.substring_char(cut + 1, n);
    let baud: u32 = match parse_u32(tail) {
        Some(baud) => baud,
        None => default_baud,
    };
    (identifier, baud)
}

/// The settings with which the serial transport opens a device. What is in
/// one is the transport's own affair.
#[verifier::external_type_specification]
#[verifier::external_body]
pub struct ExSerialPortBuilder(serialport::SerialPortBuilder);

/// The settings that `serialport::new` makes for a device path and a baud
/// rate: that path and rate, and the transport's defaults for all else.
pub uninterp spec fn builder_for(path: Seq<char>, baud_rate: u32) -> serialport::SerialPortBuilder;

/// Calls `serialport::new`, which only fills in a settings value and touches
/// no device. The contract claims no more than that the settings are those
/// which the transport makes for this path and this baud rate.
#[verifier::external_body]
fn new_builder(path: &str, baud_rate: u32) -> (builder: serialport::SerialPortBuilder)
    ensures
        builder == builder_for(path@, baud_rate),
{
    serialport::new(path, baud_rate)
}

impl PortSpec {
    /// The settings to open this port with: made for its identifier and its
    /// baud rate. Opening is left to the caller.
    pub fn builder(&self) -> (builder: serialport::SerialPortBuilder)
        ensures
            builder == builder_for(self@.identifier, self@.baud_rate),
    {
        new_builder(self.identifier.as_str(), self.baud_rate)
    }

    /// The port that the argument `arg` describes.
    pub fn from_arg(arg: &str, default_baud: u32) -> (spec: PortSpec)
        ensures
            spec@ == port_of_arg(arg@, default_baud),
    {
        let (identifier, baud_rate) = parse_port_arg(arg, default_baud);
        PortSpec { identifier, baud_rate }
    }
}

} // verus!
