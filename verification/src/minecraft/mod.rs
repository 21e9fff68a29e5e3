//! Tools that read Minecraft server logs.

pub mod death_counter;
pub mod kill_counter;
pub mod kill_log;
pub mod order;

use vstd::prelude::*;
use crate::minecraft::order::{
    order_text, sort_log, stable_order_of_lines, timed_positions, untimed_positions, OrderArgs,
    SortedLog,
};
use crate::text::split_lines;

verus! {

/// The `minecraft` subcommands.
pub enum MinecraftCommands {
    /// Sort a log file in chronological order.
    Order(OrderArgs),
}

/// The options of the `minecraft` command.
pub struct MinecraftArgs {
    pub command: MinecraftCommands,
}

/// The file the subcommand reads.
pub fn input_path(args: &MinecraftArgs) -> (p: &String)
    ensures
        match args.command {
            MinecraftCommands::Order(a) => p@ == a.input@,
        },
{
    match &args.command {
        MinecraftCommands::Order(a) => &a.input,
    }
}

/// Runs the subcommand on the content of its input file.
pub fn run(args: &MinecraftArgs, content: &str) -> (r: SortedLog)
    ensures
        match args.command {
            MinecraftCommands::Order(_) => {
                let lines = split_lines(content@);
                &&& r.sorted == timed_positions(lines).len()
                &&& r.unparsed == untimed_positions(lines).len()
                &&& r.text@ == order_text(lines, stable_order_of_lines(lines))
            },
        },
{
    match &args.command {
        MinecraftCommands::Order(_) => sort_log(content),
    }
}

} // verus!
