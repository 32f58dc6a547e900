use stlsat::config::{get_tableau_options, CliArgs, ConfigSource};
use stlsat::sat::config as sat;
use stlsat::statistics::stats_header;

#[test]
fn get_tableau_options_copies_each_argument() {
    let args = CliArgs {
        formula_file: "f.stl".to_string(),
        max_depth: 42,
        graph_output: true,
        memoization: false,
        simple_first: true,
        formula_optimizations: false,
        jump_rule_enabled: true,
        formula_simplifications: false,
        mltl: true,
        smtlib_result: true,
        unsat_core_extraction: true,
    };
    let (options, file) = get_tableau_options(ConfigSource::Cli, args);
    assert_eq!(file, "f.stl");
    assert_eq!(options.max_depth, 42);
    assert!(options.graph_output);
    assert!(!options.memoization);
    assert!(options.simple_first);
    assert!(!options.formula_optimizations);
    assert!(options.jump_rule_enabled);
    assert!(!options.formula_simplifications);
    assert!(options.mltl);
    assert!(options.smtlib_result);
    assert!(options.unsat_core_extraction);
}

fn sat_args(fol: bool) -> sat::CliArgs {
    sat::CliArgs {
        formula_file: "g.stl".to_string(),
        max_depth: 7,
        graph_output: Some("out.dot".to_string()),
        memoization: true,
        simple_first: false,
        formula_optimizations: true,
        jump_rule_enabled: false,
        formula_simplifications: true,
        mltl: false,
        smtlib_result: true,
        unsat_core_extraction: false,
        trace_extraction: true,
        fol,
    }
}

#[test]
fn get_config_picks_the_mode() {
    let (mode, general, tableau, file) = sat::get_config(sat::ConfigSource::Cli, sat_args(true));
    assert_eq!(mode, sat::ExecutionMode::Fol);
    assert_eq!(general, sat::GeneralOptions { mltl: false, smtlib_result: true });
    assert_eq!(tableau.graph_output, Some("out.dot".to_string()));
    assert_eq!(tableau.max_depth, 7);
    assert!(!tableau.simple_first);
    assert!(tableau.trace_extraction);
    assert_eq!(file, "g.stl");
    let (mode2, _, _, _) = sat::get_config(sat::ConfigSource::Cli, sat_args(false));
    assert_eq!(mode2, sat::ExecutionMode::Tableau);
}

#[test]
fn tableau_settings_combine_both_option_sets() {
    let (_, general, tableau, _) = sat::get_config(sat::ConfigSource::Cli, sat_args(false));
    let settings = sat::tableau_settings(&general, &tableau);
    assert!(settings.graph_output);
    assert_eq!(settings.max_depth, 7);
    assert!(settings.smtlib_result);
    assert!(!settings.mltl);
    assert!(!settings.jump_rule_enabled);
}

#[test]
fn default_options() {
    let t = sat::TableauOptions::default();
    assert_eq!(t.max_depth, 1000000);
    assert!(t.graph_output.is_none());
    assert!(t.memoization && t.simple_first && t.formula_optimizations);
    assert!(t.jump_rule_enabled && t.formula_simplifications);
    assert!(!t.unsat_core_extraction && !t.trace_extraction);
    let g = sat::GeneralOptions::default();
    assert!(!g.mltl && !g.smtlib_result);
}

#[test]
fn stats_header_lists_the_columns() {
    assert_eq!(
        stats_header(),
        "depth,temporal_depth,horizon,nodes,temporal_nodes,propositional_nodes,f_nodes,g_nodes,u_nodes,r_nodes,bool_vars,real_vars,branching_factor"
    );
}
