use rumk::diagnostic::Severity;
use rumk::fix::apply_fixes;
use rumk::lint::{RuleSetting, check_makefile, configured_rules, is_makefile};
use rumk::parser::parse;
use rumk::rules::style::{LineLength, NamingStyle, TargetNaming, VariableNaming, matches_naming_style};
use rumk::rules::syntax::{InvalidVariableSyntax, TabInRecipe, is_valid_variable_name};
use rumk::rules::best_practices::{HardcodedPath, MissingPhony, contains_absolute_path};
use rumk::rules::{LintRule, Rule, RuleCategory, get_all_rules, get_default_rules, get_rule_explanation};

#[test]
fn space_indented_recipe_gets_tab_fix() {
    let text = "all:\n    echo hi\n";
    let m = parse(text).unwrap();
    let ds = TabInRecipe.check(&m, text);
    assert_eq!(ds.len(), 1);
    let d = &ds[0];
    assert_eq!(d.rule_id, "MK001");
    assert_eq!(d.severity, Severity::Error);
    assert!(d.fixable);
    let fix = d.fix.as_ref().unwrap();
    assert_eq!(fix.edits.len(), 1);
    let e = &fix.edits[0];
    assert_eq!((e.start_line, e.start_column, e.end_line, e.end_column), (2, 1, 2, 5));
    assert_eq!(e.replacement, "\t");
    let fixed = apply_fixes(text, &ds);
    assert_eq!(fixed, "all:\n\techo hi\n");
    let again = parse(&fixed).unwrap();
    assert_eq!(again.rules[0].recipes[0].indentation, "\t");
    assert_eq!(again.rules[0].recipes[0].command, "echo hi");
}

#[test]
fn long_line_gives_one_warning() {
    let line = "x".repeat(130);
    let m = parse(&line).unwrap();
    let rules = vec![LintRule::LineLength(LineLength::new(120))];
    let ds = check_makefile(&rules, &m, &line);
    assert_eq!(ds.len(), 1);
    assert_eq!(ds[0].rule_id, "MK101");
    assert_eq!(ds[0].severity, Severity::Warning);
    assert_eq!(ds[0].line, 1);
    assert_eq!(ds[0].column, 121);
    assert_eq!(ds[0].message, "Line length 130 exceeds maximum of 120");
    let all = check_makefile(&get_all_rules(), &m, &line);
    assert_eq!(all.len(), 1);
}

#[test]
fn naming_style_matches_by_case() {
    assert!(matches_naming_style("FOO_BAR1", NamingStyle::Upper));
    assert!(!matches_naming_style("Foo", NamingStyle::Upper));
    assert!(matches_naming_style("foo-bar", NamingStyle::Lower));
    assert!(!matches_naming_style("fooBar", NamingStyle::Lower));
    assert!(matches_naming_style("123_-", NamingStyle::Upper));
    assert!(matches_naming_style("123_-", NamingStyle::Lower));
    assert!(matches_naming_style("", NamingStyle::Lower));
}

#[test]
fn recursive_assignment_is_a_variable() {
    let text = "CC := gcc\nall: x\n";
    let m = parse(text).unwrap();
    assert_eq!(m.rules.len(), 1);
    let v = m.variables.get("CC").unwrap();
    assert_eq!(v.value, "gcc");
    assert_eq!(v.assignment_type, rumk::parser::AssignmentType::Recursive);
    assert!(TargetNaming::new(NamingStyle::Lower).check(&m, text).is_empty());
}

#[test]
fn naming_rules_report() {
    let text = "lower = 1\nBuild:\n";
    let m = parse(text).unwrap();
    let v = VariableNaming::new(NamingStyle::Upper).check(&m, text);
    assert_eq!(v.len(), 1);
    assert_eq!(v[0].message, "Variable 'lower' does not follow UPPER_CASE convention");
    let t = TargetNaming::new(NamingStyle::Lower).check(&m, text);
    assert_eq!(t.len(), 1);
    assert_eq!(t[0].rule_id, "MK103");
    assert_eq!(t[0].message, "Target 'Build' does not follow lower_case convention");
    assert_eq!(t[0].line, 2);
    let dot = parse(".SUFFIXES:\n").unwrap();
    assert!(TargetNaming::new(NamingStyle::Lower).check(&dot, ".SUFFIXES:\n").is_empty());
}

#[test]
fn invalid_variable_names() {
    assert!(is_valid_variable_name("CC_FLAGS-2"));
    assert!(!is_valid_variable_name(""));
    assert!(!is_valid_variable_name("A.B"));
    let text = "A.B = 1\n";
    let m = parse(text).unwrap();
    let ds = InvalidVariableSyntax.check(&m, text);
    assert_eq!(ds.len(), 1);
    assert_eq!(ds[0].message, "Invalid variable name: 'A.B'");
    assert_eq!(ds[0].severity, Severity::Error);
}

#[test]
fn missing_phony_targets() {
    let text = ".PHONY: test\nall: x\ntest:\nfoo:\n";
    let m = parse(text).unwrap();
    let ds = MissingPhony.check(&m, text);
    assert_eq!(ds.len(), 1);
    assert_eq!(ds[0].rule_id, "MK201");
    assert_eq!(ds[0].message, "Target 'all' should be declared .PHONY");
    assert_eq!(ds[0].line, 2);
}

#[test]
fn absolute_paths() {
    assert!(contains_absolute_path("cp x /usr/bin"));
    assert!(contains_absolute_path("C:\\tools\\x"));
    assert!(!contains_absolute_path("//net/share ./rel /"));
    let text = "P = /opt/x\nall:\n\tcp a /tmp/b\n";
    let m = parse(text).unwrap();
    let ds = HardcodedPath.check(&m, text);
    assert_eq!(ds.len(), 2);
    assert_eq!(ds[0].message, "Variable 'P' contains hardcoded absolute path");
    assert_eq!(ds[1].message, "Recipe contains hardcoded absolute path");
    assert_eq!(ds[1].line, 3);
}

#[test]
fn diagnostics_sorted_by_position() {
    let text = "all:\n  echo /usr/x\nlower = 1\n";
    let m = parse(text).unwrap();
    let ds = check_makefile(&get_all_rules(), &m, text);
    let pos: Vec<(usize, usize)> = ds.iter().map(|d| (d.line, d.column)).collect();
    let mut sorted = pos.clone();
    sorted.sort();
    assert_eq!(pos, sorted);
    let ids: Vec<&str> = ds.iter().map(|d| d.rule_id.as_str()).collect();
    assert_eq!(ids, vec!["MK201", "MK001", "MK202", "MK102"]);
}

#[test]
fn catalog_and_explanations() {
    assert_eq!(get_all_rules().len(), 7);
    let ids: Vec<&str> = get_default_rules().iter().map(|r| r.id()).collect();
    assert_eq!(ids, vec!["MK001", "MK002", "MK101", "MK201"]);
    let text = get_rule_explanation("MK101").unwrap();
    assert!(text.starts_with("Rule: MK101\nCategory: Style\nDescription: Line exceeds maximum length\n\n"));
    assert_eq!(get_rule_explanation("NOPE").unwrap_err(), "Unknown rule: NOPE");
    assert_eq!(TabInRecipe.category(), RuleCategory::Syntax);
}

#[test]
fn settings_disable_rules() {
    let settings = vec![
        RuleSetting { id: "MK101".to_string(), enabled: false, max_length: None, style: None },
        RuleSetting { id: "MK001".to_string(), enabled: true, max_length: None, style: None },
    ];
    let ids: Vec<&str> = configured_rules(&settings).iter().map(|r| r.id()).collect();
    assert_eq!(ids, vec!["MK001", "MK002", "MK102", "MK103", "MK201", "MK202"]);
    assert_eq!(configured_rules(&[]).len(), 7);
}

#[test]
fn makefile_names() {
    assert!(is_makefile("Makefile"));
    assert!(is_makefile("GNUmakefile"));
    assert!(is_makefile("rules.mk"));
    assert!(is_makefile("x.make"));
    assert!(!is_makefile("Makefile.bak"));
}

#[test]
fn settings_bind_options() {
    let settings = vec![
        RuleSetting { id: "MK101".to_string(), enabled: true, max_length: Some(10), style: None },
        RuleSetting {
            id: "MK102".to_string(),
            enabled: true,
            max_length: None,
            style: Some(NamingStyle::Lower),
        },
    ];
    let rules = configured_rules(&settings);
    assert_eq!(rules[2], LintRule::LineLength(LineLength::new(10)));
    assert_eq!(rules[3], LintRule::VariableNaming(VariableNaming::new(NamingStyle::Lower)));
    assert_eq!(rules[4], LintRule::TargetNaming(TargetNaming::new(NamingStyle::Lower)));
    let text = "cc = 1\n# a comment longer than ten\n";
    let m = parse(text).unwrap();
    let ds = check_makefile(&rules, &m, text);
    let ids: Vec<&str> = ds.iter().map(|d| d.rule_id.as_str()).collect();
    assert_eq!(ids, vec!["MK101"]);
    assert_eq!(ds[0].column, 11);
}

#[test]
fn line_length_counts_bytes() {
    let line = "é".repeat(61);
    let m = parse(&line).unwrap();
    let ds = LineLength::new(120).check(&m, &line);
    assert_eq!(ds.len(), 1);
    assert_eq!(ds[0].message, "Line length 122 exceeds maximum of 120");
    assert_eq!(ds[0].column, 121);
    assert!(LineLength::new(122).check(&m, &line).is_empty());
}

#[test]
fn tab_fix_ends_after_indentation_bytes() {
    let text = "all:\n \u{a0}echo hi\n";
    let m = parse(text).unwrap();
    let ds = TabInRecipe.check(&m, text);
    assert_eq!(ds.len(), 1);
    let e = &ds[0].fix.as_ref().unwrap().edits[0];
    assert_eq!((e.start_column, e.end_column), (1, 4));
    assert_eq!(apply_fixes(text, &ds), "all:\n\techo hi\n");
}
