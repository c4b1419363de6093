use rumk::parser::AssignmentType;
use rumk::parser::parse;

#[test]
fn test_parse_simple_rule() {
    let content = r#"
target: dependency
	command
"#;
    let makefile = parse(content).unwrap();
    assert_eq!(makefile.rules.len(), 1);
    assert_eq!(makefile.rules[0].targets, vec!["target"]);
    assert_eq!(makefile.rules[0].prerequisites, vec!["dependency"]);
    assert_eq!(makefile.rules[0].recipes.len(), 1);
    assert_eq!(makefile.rules[0].recipes[0].command, "command");
}

#[test]
fn test_parse_variable() {
    let content = "FOO = bar";
    let makefile = parse(content).unwrap();
    assert_eq!(makefile.variables.len(), 1);
    assert!(makefile.variables.contains_key("FOO"));
    assert_eq!(makefile.variables.get("FOO").unwrap().value, "bar");
}

#[test]
fn test_parse_phony() {
    let content = ".PHONY: clean test";
    let makefile = parse(content).unwrap();
    assert_eq!(makefile.phonies.len(), 2);
    assert!(makefile.phonies.contains(&"clean".to_string()));
    assert!(makefile.phonies.contains(&"test".to_string()));
}

#[test]
fn empty_text_gives_empty_model() {
    let m = parse("").unwrap();
    assert!(m.rules.is_empty());
    assert!(m.variables.is_empty());
    assert!(m.includes.is_empty());
    assert!(m.exports.is_empty());
    assert!(m.phonies.is_empty());
    assert!(m.comments.is_empty());
}

#[test]
fn rule_with_recipe_on_line_two() {
    let m = parse("target: dep\n\tcommand\n").unwrap();
    assert_eq!(m.rules.len(), 1);
    let r = &m.rules[0];
    assert_eq!(r.targets, vec!["target"]);
    assert_eq!(r.prerequisites, vec!["dep"]);
    assert_eq!(r.line, 1);
    assert_eq!(r.column, 1);
    assert_eq!(r.recipes.len(), 1);
    assert_eq!(r.recipes[0].command, "command");
    assert_eq!(r.recipes[0].line, 2);
    assert_eq!(r.recipes[0].indentation, "\t");
}

#[test]
fn simple_assignment_kind() {
    let m = parse("FOO = bar\n").unwrap();
    assert_eq!(m.variables.len(), 1);
    let v = m.variables.get("FOO").unwrap();
    assert_eq!(v.name, "FOO");
    assert_eq!(v.value, "bar");
    assert_eq!(v.assignment_type, AssignmentType::Simple);
    assert!(!v.export);
    assert_eq!(v.line, 1);
}

#[test]
fn phony_set_from_one_line() {
    let m = parse(".PHONY: clean test\n").unwrap();
    assert_eq!(m.phonies, vec!["clean", "test"]);
}

#[test]
fn phony_lines_accumulate() {
    let m = parse(".PHONY: a\n.PHONY: b a\n").unwrap();
    assert_eq!(m.phonies, vec!["a", "b", "a"]);
}

#[test]
fn assignment_operators() {
    let m = parse("A ?= 1\nB += 2\nexport C := 3\n").unwrap();
    assert_eq!(m.variables.get("A").unwrap().assignment_type, AssignmentType::Conditional);
    assert_eq!(m.variables.get("B").unwrap().assignment_type, AssignmentType::Append);
    let c = m.variables.get("C").unwrap();
    assert_eq!(c.assignment_type, AssignmentType::Recursive);
    assert_eq!(c.value, "3");
    assert!(c.export);
}

#[test]
fn last_assignment_wins() {
    let m = parse("X = 1\nX = 2\n").unwrap();
    assert_eq!(m.variables.len(), 1);
    assert_eq!(m.variables.get("X").unwrap().value, "2");
    assert_eq!(m.variables.get("X").unwrap().line, 2);
}

#[test]
fn continuation_lines_join() {
    let m = parse("SRC = a \\\n    b \\\n  c\nall: x\n").unwrap();
    assert_eq!(m.variables.get("SRC").unwrap().value, "a b c");
    assert_eq!(m.variables.get("SRC").unwrap().line, 1);
    assert_eq!(m.rules.len(), 1);
    assert_eq!(m.rules[0].line, 4);
}

#[test]
fn malformed_assignment_fails_with_line() {
    let e = parse("# c\n = value\n").unwrap_err();
    assert_eq!(e.line, 2);
    assert_eq!(e.message(), "Invalid variable assignment at line 2");
    assert!(parse("X =\n").is_err());
}

#[test]
fn comments_includes_exports() {
    let m = parse("  ## note\ninclude a.mk\n-include b.mk\nexport A B\n").unwrap();
    assert_eq!(m.comments.len(), 1);
    assert_eq!(m.comments[0].text, "note");
    assert_eq!(m.comments[0].column, 3);
    assert_eq!(m.includes.len(), 2);
    assert_eq!(m.includes[0].path, "a.mk");
    assert!(!m.includes[0].optional);
    assert_eq!(m.includes[1].path, "b.mk");
    assert!(m.includes[1].optional);
    assert_eq!(m.includes[1].line, 3);
    assert_eq!(m.exports, vec!["A", "B"]);
}

#[test]
fn recipe_markers_and_blank_lines() {
    let m = parse("build:\n\t@-rm x\n\n\t-echo y\nnext: z\n").unwrap();
    assert_eq!(m.rules.len(), 2);
    let r = &m.rules[0];
    assert_eq!(r.recipes.len(), 2);
    assert!(r.recipes[0].silent);
    assert!(r.recipes[0].ignore_error);
    assert_eq!(r.recipes[0].command, "rm x");
    assert!(!r.recipes[1].silent);
    assert!(r.recipes[1].ignore_error);
    assert_eq!(r.recipes[1].line, 4);
    assert_eq!(m.rules[1].targets, vec!["next"]);
}

#[test]
fn garbage_lines_are_skipped() {
    let m = parse("just words\n\tindented: colon\n").unwrap();
    assert!(m.rules.is_empty());
    assert!(m.variables.is_empty());
}

#[test]
fn positions_follow_a_naive_count() {
    let text = "\n# top\n  VAR = 1\nall: dep\n\techo a\n\n    echo b\n  -include x.mk\n";
    let m = parse(text).unwrap();
    assert_eq!((m.comments[0].line, m.comments[0].column), (2, 1));
    let v = m.variables.get("VAR").unwrap();
    assert_eq!((v.line, v.column), (3, 3));
    assert_eq!((m.rules[0].line, m.rules[0].column), (4, 1));
    assert_eq!((m.rules[0].recipes[0].line, m.rules[0].recipes[0].column), (5, 1));
    assert_eq!((m.rules[0].recipes[1].line, m.rules[0].recipes[1].column), (7, 1));
    assert_eq!(m.rules[0].recipes[1].indentation, "    ");
    assert_eq!(m.rules[0].recipes.len(), 3);
    assert_eq!(m.includes.len(), 0);
}

#[test]
fn columns_count_bytes() {
    let m = parse("\u{3000}# note\n\u{a0}X = 1\n").unwrap();
    assert_eq!(m.comments[0].column, 4);
    assert_eq!(m.variables.get("X").unwrap().column, 3);
}
