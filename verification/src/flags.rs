//! The command-line surface: the fixed table of flags this tool accepts.
//!
//! The table is plain data; the thin process wrapper turns it into its
//! argument parser. Keeping it here pins the surface down: names, which
//! flags take a value and of what kind, help lines, and conflicts.

use vstd::prelude::*;

verus! {

/// What a flag carries: nothing (a toggle), free text, a port number in
/// 16 bits, or a signed 32-bit number.
#[derive(Clone, Copy, PartialEq, Eq, Structural, Debug)]
pub enum ArgKind {
    Toggle,
    Text,
    PortNumber,
    SignedNumber,
}

/// One command-line flag.
pub struct FlagSpec {
    pub name: &'static str,
    pub kind: ArgKind,
    pub help: &'static str,
    pub conflicts_with: Option<&'static str>,
}

/// The flag table, in the order the help output lists them.
pub fn set_flags() -> (r: Vec<FlagSpec>)
    ensures
        r@.len() == 13,
        r@[0].name@ == "debug"@ && r@[0].kind == ArgKind::Toggle && r@[0].conflicts_with is None,
        r@[1].name@ == "slurp"@ && r@[1].kind == ArgKind::Text && r@[1].conflicts_with is None,
        r@[2].name@ == "show-fps"@ && r@[2].kind == ArgKind::Toggle && r@[2].conflicts_with
            is None,
        r@[3].name@ == "show-stream"@ && r@[3].kind == ArgKind::Toggle && r@[3].conflicts_with
            is None,
        r@[4].name@ == "cursor"@ && r@[4].kind == ArgKind::Toggle && r@[4].conflicts_with is None,
        r@[5].name@ == "http-host"@ && r@[5].kind == ArgKind::Text && r@[5].conflicts_with
            is None,
        r@[6].name@ == "http-port"@ && r@[6].kind == ArgKind::PortNumber && r@[6].conflicts_with
            is None,
        r@[7].name@ == "udp-host"@ && r@[7].kind == ArgKind::Text && r@[7].conflicts_with is None,
        r@[8].name@ == "udp-port"@ && r@[8].kind == ArgKind::SignedNumber && r@[8].conflicts_with
            is None,
        r@[9].name@ == "height"@ && r@[9].kind == ArgKind::SignedNumber && r@[9].conflicts_with
            is None,
        r@[10].name@ == "width"@ && r@[10].kind == ArgKind::SignedNumber && r@[10].conflicts_with
            is None,
        r@[11].name@ == "list-outputs"@ && r@[11].kind == ArgKind::Toggle && r@[11].conflicts_with
            is None,
        r@[12].name@ == "output"@ && r@[12].kind == ArgKind::Text && (r@[12].conflicts_with
            matches Some(c) && c@ == "slurp"@),
{
    let mut r: Vec<FlagSpec> = Vec::new();
    r.push(
        FlagSpec {
            name: "debug",
            kind: ArgKind::Toggle,
            help: "Enable debug mode",
            conflicts_with: None,
        },
    );
    r.push(
        FlagSpec {
            name: "slurp",
            kind: ArgKind::Text,
            help: "Select a portion of display to stream using slurp",
            conflicts_with: None,
        },
    );
    r.push(
        FlagSpec {
            name: "show-fps",
            kind: ArgKind::Toggle,
            help: "Show framerate",
            conflicts_with: None,
        },
    );
    r.push(
        FlagSpec {
            name: "show-stream",
            kind: ArgKind::Toggle,
            help: "Show video output",
            conflicts_with: None,
        },
    );
    r.push(
        FlagSpec {
            name: "cursor",
            kind: ArgKind::Toggle,
            help: "Enable cursor in stream",
            conflicts_with: None,
        },
    );
    r.push(
        FlagSpec {
            name: "http-host",
            kind: ArgKind::Text,
            help: "Set the http listen address",
            conflicts_with: None,
        },
    );
    r.push(
        FlagSpec {
            name: "http-port",
            kind: ArgKind::PortNumber,
            help: "Set the http listen port",
            conflicts_with: None,
        },
    );
    r.push(
        FlagSpec {
            name: "udp-host",
            kind: ArgKind::Text,
            help: "Set the host to stream to",
            conflicts_with: None,
        },
    );
    r.push(
        FlagSpec {
            name: "udp-port",
            kind: ArgKind::SignedNumber,
            help: "Set the port to stream to",
            conflicts_with: None,
        },
    );
    r.push(
        FlagSpec {
            name: "height",
            kind: ArgKind::SignedNumber,
            help: "Set the target video height",
            conflicts_with: None,
        },
    );
    r.push(
        FlagSpec {
            name: "width",
            kind: ArgKind::SignedNumber,
            help: "Set the target video width",
            conflicts_with: None,
        },
    );
    r.push(
        FlagSpec {
            name: "list-outputs",
            kind: ArgKind::Toggle,
            help: "List all outputs",
            conflicts_with: None,
        },
    );
    r.push(
        FlagSpec {
            name: "output",
            kind: ArgKind::Text,
            help: "Select a particular display to stream (Not implemented yet)",
            conflicts_with: Some("slurp"),
        },
    );
    r
}

} // verus!
