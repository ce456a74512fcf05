//! Stable identifiers for compiler diagnostics. A code names a condition,
//! never a place and never a fix; it never changes once shipped. Codes are
//! lower-case, `-` separated, and grouped by a prefix naming the part of the
//! graph at fault.
use vstd::prelude::*;

verus! {

/// The node names a block that is not installed.
pub const BLOCK_UNKNOWN: &'static str = "block-unknown";

/// A required input port holds neither a literal nor an incoming edge.
pub const INPUT_MISSING: &'static str = "input-missing";

/// The literal on an input port is not a value of the port's declared type.
pub const INPUT_TYPE: &'static str = "input-type";

/// The literal is the right type but breaks a rule the type carries: an id with
/// no namespace, a number out of bounds, a value that is not one of the choices.
pub const INPUT_CONSTRAINT: &'static str = "input-constraint";

/// A value node sits in a slot. Slots hold statement nodes.
pub const SLOT_EXPECTS_STATEMENT: &'static str = "slot-expects-statement";

/// A statement node sits where it cannot do anything: a command at the top
/// level, or a block a slot does not accept.
pub const SLOT_REJECTS_BLOCK: &'static str = "slot-rejects-block";

/// A data edge names a node that is not in the graph.
pub const EDGE_UNKNOWN_NODE: &'static str = "edge-unknown-node";

/// A data edge takes a value from a node that comes later in the document than
/// the node that uses it.
pub const EDGE_FORWARD_REFERENCE: &'static str = "edge-forward-reference";

/// The data edges form a cycle.
pub const EDGE_CYCLE: &'static str = "edge-cycle";

/// A command line does not parse against the target's command tree: an unknown
/// command, a misspelled subcommand, or a line that stops before it is complete.
pub const COMMAND_INVALID: &'static str = "command-invalid";

/// A command line is a recognisable older form the target no longer accepts:
/// `execute` followed straight by a selector or a position.
pub const COMMAND_LEGACY_SYNTAX: &'static str = "command-legacy-syntax";

} // verus!
