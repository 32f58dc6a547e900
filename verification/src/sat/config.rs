//! The configuration of a satisfiability run: the mode, the options common to every mode
//! and those of the tableau.
use vstd::prelude::*;

verus! {

/// How a formula is checked.
#[derive(Clone, Copy, Debug, PartialEq, Eq, Structural)]
pub enum ExecutionMode {
    Tableau,
    Fol,
}

/// Options common to every mode.
#[derive(Clone, Copy, Debug, PartialEq, Eq, Structural)]
pub struct GeneralOptions {
    pub mltl: bool,
    pub smtlib_result: bool,
}

impl Default for GeneralOptions {
    fn default() -> (r: GeneralOptions)
        ensures
            r == (GeneralOptions { mltl: false, smtlib_result: false }),
    {
        GeneralOptions { mltl: false, smtlib_result: false }
    }
}

/// Options of the tableau; `graph_output` names the file the graph is written to.
#[derive(Clone, Debug)]
pub struct TableauOptions {
    pub max_depth: usize,
    pub graph_output: Option<String>,
    pub memoization: bool,
    pub simple_first: bool,
    pub formula_optimizations: bool,
    pub jump_rule_enabled: bool,
    pub formula_simplifications: bool,
    pub unsat_core_extraction: bool,
    pub trace_extraction: bool,
}

impl Default for TableauOptions {
    fn default() -> (r: TableauOptions)
        ensures
            r.max_depth == 1000000,
            r.graph_output is None,
            r.memoization,
            r.simple_first,
            r.formula_optimizations,
            r.jump_rule_enabled,
            r.formula_simplifications,
            !r.unsat_core_extraction,
            !r.trace_extraction,
    {
        TableauOptions {
            max_depth: 1000000,
            graph_output: None,
            memoization: true,
            simple_first: true,
            formula_optimizations: true,
            jump_rule_enabled: true,
            formula_simplifications: true,
            unsat_core_extraction: false,
            trace_extraction: false,
        }
    }
}

/// The command-line arguments, as read by the program.
///
/// Defaults: `max_depth` 1000000, no graph file, `mltl`, `smtlib_result`,
/// `unsat_core_extraction`, `trace_extraction` and `fol` off; the other switches on (each
/// is turned off by its `--no-...` flag).
#[derive(Clone, Debug)]
pub struct CliArgs {
    pub formula_file: String,
    pub max_depth: usize,
    pub graph_output: Option<String>,
    pub memoization: bool,
    pub simple_first: bool,
    pub formula_optimizations: bool,
    pub jump_rule_enabled: bool,
    pub formula_simplifications: bool,
    pub mltl: bool,
    pub smtlib_result: bool,
    pub unsat_core_extraction: bool,
    pub trace_extraction: bool,
    pub fol: bool,
}

/// Where the configuration comes from.
#[derive(Clone, Copy, Debug, PartialEq, Eq, Structural)]
pub enum ConfigSource {
    Cli,
}

pub open spec fn graph_view(g: Option<String>) -> Option<Seq<char>> {
    match g {
        Some(s) => Some(s@),
        None => None,
    }
}

/// The mode (`Fol` when `fol` is set), the general and tableau options of each argument,
/// and the file named on the command line.
pub fn get_config(source: ConfigSource, args: CliArgs) -> (r: (
    ExecutionMode,
    GeneralOptions,
    TableauOptions,
    String,
))
    ensures
        r.0 == (if args.fol {
            ExecutionMode::Fol
        } else {
            ExecutionMode::Tableau
        }),
        r.1 == (GeneralOptions { mltl: args.mltl, smtlib_result: args.smtlib_result }),
        r.2.max_depth == args.max_depth,
        graph_view(r.2.graph_output) == graph_view(args.graph_output),
        r.2.memoization == args.memoization,
        r.2.simple_first == args.simple_first,
        r.2.formula_optimizations == args.formula_optimizations,
        r.2.jump_rule_enabled == args.jump_rule_enabled,
        r.2.formula_simplifications == args.formula_simplifications,
        r.2.unsat_core_extraction == args.unsat_core_extraction,
        r.2.trace_extraction == args.trace_extraction,
        r.3@ == args.formula_file@,
{
    match source {
        ConfigSource::Cli => {
            let mode = if args.fol {
                ExecutionMode::Fol
            } else {
                ExecutionMode::Tableau
            };
            let general = GeneralOptions { mltl: args.mltl, smtlib_result: args.smtlib_result };
            let tableau = TableauOptions {
                max_depth: args.max_depth,
                graph_output: args.graph_output,
                memoization: args.memoization,
                simple_first: args.simple_first,
                formula_optimizations: args.formula_optimizations,
                jump_rule_enabled: args.jump_rule_enabled,
                formula_simplifications: args.formula_simplifications,
                unsat_core_extraction: args.unsat_core_extraction,
                trace_extraction: args.trace_extraction,
            };
            (mode, general, tableau, args.formula_file)
        },
    }
}

/// The settings of the tableau for a run with `general` and `tableau` options: a graph is
/// drawn when a file is named for it.
pub fn tableau_settings(general: &GeneralOptions, tableau: &TableauOptions) -> (r:
    crate::tableau::TableauOptions)
    ensures
        r == (crate::tableau::TableauOptions {
            max_depth: tableau.max_depth,
            graph_output: tableau.graph_output is Some,
            memoization: tableau.memoization,
            simple_first: tableau.simple_first,
            formula_optimizations: tableau.formula_optimizations,
            jump_rule_enabled: tableau.jump_rule_enabled,
            formula_simplifications: tableau.formula_simplifications,
            mltl: general.mltl,
            smtlib_result: general.smtlib_result,
            unsat_core_extraction: tableau.unsat_core_extraction,
        }),
{
    crate::tableau::TableauOptions {
        max_depth: tableau.max_depth,
        graph_output: tableau.graph_output.is_some(),
        memoization: tableau.memoization,
        simple_first: tableau.simple_first,
        formula_optimizations: tableau.formula_optimizations,
        jump_rule_enabled: tableau.jump_rule_enabled,
        formula_simplifications: tableau.formula_simplifications,
        mltl: general.mltl,
        smtlib_result: general.smtlib_result,
        unsat_core_extraction: tableau.unsat_core_extraction,
    }
}

} // verus!
