//! Settings of a tableau run, from the values given on the command line.
use vstd::prelude::*;

use crate::tableau::TableauOptions;

verus! {

/// The command-line arguments of a tableau run, as read by the program.
///
/// Defaults: `max_depth` 1000000, `graph_output`, `mltl`, `smtlib_result` and
/// `unsat_core_extraction` off; the other switches on (each is turned off by its
/// `--no-...` flag).
#[derive(Clone, Debug)]
pub struct CliArgs {
    pub formula_file: String,
    pub max_depth: usize,
    pub graph_output: bool,
    pub memoization: bool,
    pub simple_first: bool,
    pub formula_optimizations: bool,
    pub jump_rule_enabled: bool,
    pub formula_simplifications: bool,
    pub mltl: bool,
    pub smtlib_result: bool,
    pub unsat_core_extraction: bool,
}

/// Where the settings come from.
#[derive(Clone, Copy, Debug, PartialEq, Eq, Structural)]
pub enum ConfigSource {
    Cli,
}

/// The options of each argument, and the file named on the command line.
pub fn get_tableau_options(source: ConfigSource, args: CliArgs) -> (r: (TableauOptions, String))
    ensures
        r.0 == (TableauOptions {
            max_depth: args.max_depth,
            graph_output: args.graph_output,
            memoization: args.memoization,
            simple_first: args.simple_first,
            formula_optimizations: args.formula_optimizations,
            jump_rule_enabled: args.jump_rule_enabled,
            formula_simplifications: args.formula_simplifications,
            mltl: args.mltl,
            smtlib_result: args.smtlib_result,
            unsat_core_extraction: args.unsat_core_extraction,
        }),
        r.1@ == args.formula_file@,
{
    match source {
        ConfigSource::Cli => {
            let options = TableauOptions {
                max_depth: args.max_depth,
                graph_output: args.graph_output,
                memoization: args.memoization,
                simple_first: args.simple_first,
                formula_optimizations: args.formula_optimizations,
                jump_rule_enabled: args.jump_rule_enabled,
                formula_simplifications: args.formula_simplifications,
                mltl: args.mltl,
                smtlib_result: args.smtlib_result,
                unsat_core_extraction: args.unsat_core_extraction,
            };
            (options, args.formula_file)
        },
    }
}

} // verus!
