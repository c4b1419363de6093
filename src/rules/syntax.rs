//! Rules on what Make itself requires.
use vstd::prelude::*;
use crate::diagnostic::{
    Diagnostic, DiagnosticView, Edit, EditView, Fix, FixView, Severity, diags_view, plain_diag,
};
use crate::model::{Makefile, MakefileView, Recipe, RecipeView, RuleView, Variable, VariableView, recipes_view, rules_view, variables_view};
use crate::rules::{
    Rule, RuleCategory, concat_map, lemma_concat_map_all, lemma_concat_map_step, opt_diag,
    push_opt,
};
use crate::text::{byte_len, chars_of, column_after, prefix_bytes, starts_with, text3};

verus! {

/// What `char::is_alphanumeric` returns for `c`.
pub uninterp spec fn alphanumeric(c: char) -> bool;

/// Relies on `char::is_alphanumeric`, a function of the character alone.
#[verifier::external_body]
fn char_is_alphanumeric(c: char) -> (r: bool)
    ensures
        r == alphanumeric(c),
{
    c.is_alphanumeric()
}

/// The diagnostic, with its fix, for a recipe not indented by a tab.
pub open spec fn tab_finding(r: RecipeView) -> Seq<DiagnosticView> {
    if starts_with(r.indentation, seq!['\t']) {
        Seq::empty()
    } else {
        seq![
            DiagnosticView {
                fixable: true,
                fix: Some(
                    FixView {
                        description: "Replace spaces with tab"@,
                        edits: seq![
                            EditView {
                                start_line: r.line,
                                start_column: 1,
                                end_line: r.line,
                                end_column: column_after(byte_len(r.indentation)),
                                replacement: "\t"@,
                            },
                        ],
                    },
                ),
                ..plain_diag(
                    "MK001"@,
                    Severity::Error,
                    "Recipe must be indented with tab, not spaces"@,
                    r.line,
                    r.column,
                )
            },
        ]
    }
}

pub open spec fn tab_findings_of_rule(rule: RuleView) -> Seq<DiagnosticView> {
    concat_map(rule.recipes, |r: RecipeView| tab_finding(r))
}

/// Every character alphanumeric, `_` or `-`, and at least one of them.
pub open spec fn valid_variable_name(name: Seq<char>) -> bool {
    name.len() > 0 && forall|i: int|
        0 <= i < name.len() ==> (alphanumeric(#[trigger] name[i]) || name[i] == '_' || name[i]
            == '-')
}

pub open spec fn invalid_name_finding(v: VariableView) -> Seq<DiagnosticView> {
    if valid_variable_name(v.name) {
        Seq::empty()
    } else {
        seq![
            plain_diag(
                "MK002"@,
                Severity::Error,
                "Invalid variable name: '"@ + v.name + "'"@,
                v.line,
                v.column,
            ),
        ]
    }
}

/// Recipes must be indented by a tab.
#[derive(Debug, Clone, Copy, PartialEq, Eq, Structural)]
pub struct TabInRecipe;

/// Variable names hold only alphanumeric characters, `_` and `-`.
#[derive(Debug, Clone, Copy, PartialEq, Eq, Structural)]
pub struct InvalidVariableSyntax;

fn starts_with_tab(s: &String) -> (r: bool)
    ensures
        r == starts_with(s@, seq!['\t']),
{
    let cs = chars_of(s.as_str());
    let r = cs.len() > 0 && cs[0] == '\t';
    assert(r ==> cs@.take(1) =~= seq!['\t']);
    if !r && cs.len() > 0 {
        assert(cs@.take(1)[0] != seq!['\t'][0]);
    }
    r
}

fn tab_check(r: &Recipe) -> (d: Option<Diagnostic>)
    ensures
        opt_diag(d) == tab_finding(r@),
{
    if starts_with_tab(&r.indentation) {
        return None;
    }
    let ind = chars_of(r.indentation.as_str());
    let n = prefix_bytes(&ind, ind.len());
    assert(ind@.take(ind@.len() as int) =~= ind@);
    let end = if n < usize::MAX {
        n + 1
    } else {
        usize::MAX
    };
    let edit = Edit::new(r.line, 1, r.line, end, String::from_str("\t"));
    let fix = Fix::new("Replace spaces with tab").add_edit(edit);
    let d = Diagnostic::new(
        "MK001",
        Severity::Error,
        String::from_str("Recipe must be indented with tab, not spaces"),
        r.line,
        r.column,
    ).with_fix(fix);
    assert(d@.fix->0.edits =~= seq![edit@]);
    Some(d)
}

/// Whether a name is a valid variable name.
pub fn is_valid_variable_name(name: &str) -> (r: bool)
    ensures
        r == valid_variable_name(name@),
{
    let cs = chars_of(name);
    if cs.len() == 0 {
        return false;
    }
    let mut i: usize = 0;
    while i < cs.len()
        invariant
            cs@ == name@,
            i <= cs.len(),
            forall|j: int|
                0 <= j < i ==> (alphanumeric(#[trigger] cs@[j]) || cs@[j] == '_' || cs@[j]
                    == '-'),
        decreases cs.len() - i,
    {
        let c = cs[i];
        if !(char_is_alphanumeric(c) || c == '_' || c == '-') {
            return false;
        }
        i += 1;
    }
    true
}

impl Rule for TabInRecipe {
    open spec fn spec_id(&self) -> Seq<char> {
        "MK001"@
    }

    open spec fn spec_name(&self) -> Seq<char> {
        "Recipe must use tab indentation"@
    }

    open spec fn spec_description(&self) -> Seq<char> {
        "Makefile recipes (commands) must be indented with a tab character, not spaces. This is a requirement of the Make syntax."@
    }

    open spec fn spec_category(&self) -> RuleCategory {
        RuleCategory::Syntax
    }

    open spec fn findings(&self, m: MakefileView, content: Seq<char>) -> Seq<DiagnosticView> {
        concat_map(m.rules, |r: RuleView| tab_findings_of_rule(r))
    }

    fn id(&self) -> (r: &'static str) {
        "MK001"
    }

    fn name(&self) -> (r: &'static str) {
        "Recipe must use tab indentation"
    }

    fn description(&self) -> (r: &'static str) {
        "Makefile recipes (commands) must be indented with a tab character, not spaces. This is a requirement of the Make syntax."
    }

    fn category(&self) -> (r: RuleCategory) {
        RuleCategory::Syntax
    }

    fn check(&self, makefile: &Makefile, content: &str) -> (r: Vec<Diagnostic>) {
        let ghost rs = rules_view(makefile.rules@);
        let ghost f = |r: RuleView| tab_findings_of_rule(r);
        let ghost g = |r: RecipeView| tab_finding(r);
        let mut out: Vec<Diagnostic> = Vec::new();
        let mut i: usize = 0;
        proof {
            lemma_concat_map_all(rs, f);
        }
        assert(diags_view(out@) =~= Seq::<DiagnosticView>::empty());
        while i < makefile.rules.len()
            invariant
                i <= makefile.rules@.len(),
                rs == rules_view(makefile.rules@),
                f == (|r: RuleView| tab_findings_of_rule(r)),
                g == (|r: RecipeView| tab_finding(r)),
                diags_view(out@) == concat_map(rs.take(i as int), f),
            decreases makefile.rules.len() - i,
        {
            let rule = &makefile.rules[i];
            let ghost base = diags_view(out@);
            let ghost ps = recipes_view(rule.recipes@);
            let mut j: usize = 0;
            proof {
                lemma_concat_map_all(ps, g);
            }
            while j < rule.recipes.len()
                invariant
                    j <= rule.recipes@.len(),
                    ps == recipes_view(rule.recipes@),
                    g == (|r: RecipeView| tab_finding(r)),
                    diags_view(out@) == base + concat_map(ps.take(j as int), g),
                decreases rule.recipes.len() - j,
            {
                push_opt(&mut out, tab_check(&rule.recipes[j]));
                proof {
                    lemma_concat_map_step(ps, g, j as int);
                }
                j += 1;
            }
            proof {
                lemma_concat_map_all(ps, g);
                lemma_concat_map_step(rs, f, i as int);
            }
            i += 1;
        }
        proof {
            lemma_concat_map_all(rs, f);
        }
        out
    }
}

fn invalid_name_check(v: &Variable) -> (d: Option<Diagnostic>)
    ensures
        opt_diag(d) == invalid_name_finding(v@),
{
    if is_valid_variable_name(v.name.as_str()) {
        None
    } else {
        Some(
            Diagnostic::new(
                "MK002",
                Severity::Error,
                text3("Invalid variable name: '", v.name.as_str(), "'"),
                v.line,
                v.column,
            ),
        )
    }
}

impl Rule for InvalidVariableSyntax {
    open spec fn spec_id(&self) -> Seq<char> {
        "MK002"@
    }

    open spec fn spec_name(&self) -> Seq<char> {
        "Invalid variable syntax"@
    }

    open spec fn spec_description(&self) -> Seq<char> {
        "Variable names should follow Make conventions and not contain invalid characters."@
    }

    open spec fn spec_category(&self) -> RuleCategory {
        RuleCategory::Syntax
    }

    open spec fn findings(&self, m: MakefileView, content: Seq<char>) -> Seq<DiagnosticView> {
        concat_map(m.variables, |v: VariableView| invalid_name_finding(v))
    }

    fn id(&self) -> (r: &'static str) {
        "MK002"
    }

    fn name(&self) -> (r: &'static str) {
        "Invalid variable syntax"
    }

    fn description(&self) -> (r: &'static str) {
        "Variable names should follow Make conventions and not contain invalid characters."
    }

    fn category(&self) -> (r: RuleCategory) {
        RuleCategory::Syntax
    }

    fn check(&self, makefile: &Makefile, content: &str) -> (r: Vec<Diagnostic>) {
        let vars = makefile.variables.values();
        let ghost vs = variables_view(vars@);
        let ghost f = |v: VariableView| invalid_name_finding(v);
        let mut out: Vec<Diagnostic> = Vec::new();
        let mut i: usize = 0;
        proof {
            lemma_concat_map_all(vs, f);
        }
        assert(diags_view(out@) =~= Seq::<DiagnosticView>::empty());
        while i < vars.len()
            invariant
                i <= vars@.len(),
                vs == variables_view(vars@),
                f == (|v: VariableView| invalid_name_finding(v)),
                diags_view(out@) == concat_map(vs.take(i as int), f),
            decreases vars.len() - i,
        {
            push_opt(&mut out, invalid_name_check(&vars[i]));
            proof {
                lemma_concat_map_step(vs, f, i as int);
            }
            i += 1;
        }
        proof {
            lemma_concat_map_all(vs, f);
        }
        out
    }
}

} // verus!
