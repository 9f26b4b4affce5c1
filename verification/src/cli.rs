//! The commands of the program, as far as they are plain values.

use vstd::prelude::*;

use crate::graph::GraphConfig;

verus! {

/// Where the zenoh router is.
#[derive(Debug)]
pub struct ZenohArgs {
    pub connect: String,
}

/// How samples are printed.
#[derive(Clone, Copy, Debug, PartialEq, Eq, Structural)]
pub enum TopicOutput {
    Debug,
    Json,
}

/// A command about types.
#[derive(Debug)]
pub enum TypeCommand {
    /// List catalog topics from the embedded synapse_fbs release.
    List,
    /// Show catalog and schema metadata for a topic.
    Show { ty: String, fbs: bool },
}

/// The format in which a bag is exported.
#[derive(Clone, Copy, Debug, PartialEq, Eq, Structural)]
pub enum BagExportFormat {
    Jsonl,
}

/// A command about the graph.
#[derive(Debug)]
pub enum GraphCommand {
    /// Serve a browser-based debugging graph.
    Serve { bind: String, keyexpr: String, admin_poll_ms: u64 },
}

/// Whether a server is told what a command says.
pub open spec fn serves(config: GraphConfig, args: ZenohArgs, command: GraphCommand) -> bool {
    &&& config.connect@ == args.connect@
    &&& command matches GraphCommand::Serve { bind, keyexpr, admin_poll_ms } && config.bind@
        == bind@ && config.keyexpr@ == keyexpr@ && config.admin_poll_ms == admin_poll_ms
}

/// What the graph server is told to do.
pub fn graph_config(args: ZenohArgs, command: GraphCommand) -> (r: GraphConfig)
    ensures
        r.connect == args.connect,
        command matches GraphCommand::Serve { bind, keyexpr, admin_poll_ms } && r.bind == bind
            && r.keyexpr == keyexpr && r.admin_poll_ms == admin_poll_ms,
        serves(r, args, command),
{
    match command {
        GraphCommand::Serve { bind, keyexpr, admin_poll_ms } => GraphConfig {
            connect: args.connect,
            bind,
            keyexpr,
            admin_poll_ms,
        },
    }
}

/// The server is told the router, the address, the key expression and the interval of the
/// command, as they are.
pub proof fn server_is_told_what_the_command_says(
    config: GraphConfig,
    args: ZenohArgs,
    bind: String,
    keyexpr: String,
    admin_poll_ms: u64,
)
    requires
        serves(config, args, GraphCommand::Serve { bind, keyexpr, admin_poll_ms }),
    ensures
        config.connect@ == args.connect@,
        config.bind@ == bind@,
        config.keyexpr@ == keyexpr@,
        config.admin_poll_ms == admin_poll_ms,
{
}

} // verus!
