//! Rules on habits that keep a Makefile robust and portable.
use vstd::prelude::*;
use crate::diagnostic::{Diagnostic, DiagnosticView, Severity, diags_view, plain_diag};
use crate::model::{
    Makefile, MakefileView, Recipe, RecipeView, RuleView, Variable, VariableView, recipes_view,
    rules_view, variables_view,
};
use crate::rules::{
    Rule, RuleCategory, append_all, concat_map, lemma_concat_map_all, lemma_concat_map_step,
    opt_diag, push_opt,
};
use crate::text::{chars_of, same_chars, strings_view, text3, words, words_vec};

verus! {

/// The targets that conventionally name no file.
pub open spec fn is_common_phony(t: Seq<char>) -> bool {
    ||| t == "all"@
    ||| t == "clean"@
    ||| t == "test"@
    ||| t == "check"@
    ||| t == "install"@
    ||| t == "build"@
    ||| t == "help"@
}

pub open spec fn missing_phony_finding(r: RuleView, t: Seq<char>, phonies: Seq<Seq<char>>) -> Seq<
    DiagnosticView,
> {
    if is_common_phony(t) && !phonies.contains(t) {
        seq![
            plain_diag(
                "MK201"@,
                Severity::Warning,
                "Target '"@ + t + "' should be declared .PHONY"@,
                r.line,
                r.column,
            ),
        ]
    } else {
        Seq::empty()
    }
}

pub open spec fn missing_phony_findings_of_rule(r: RuleView, phonies: Seq<Seq<char>>) -> Seq<
    DiagnosticView,
> {
    concat_map(r.targets, |t: Seq<char>| missing_phony_finding(r, t, phonies))
}

/// A word shaped like an absolute path: `/x...` but not `//...`, or `C:\...`.
pub open spec fn is_absolute_word(w: Seq<char>) -> bool {
    ||| (w.len() > 1 && w[0] == '/' && w[1] != '/')
    ||| (w.len() > 2 && w[1] == ':' && w[2] == '\\')
}

pub open spec fn has_absolute_path(text: Seq<char>) -> bool {
    exists|i: int| 0 <= i < words(text).len() && is_absolute_word(#[trigger] words(text)[i])
}

pub open spec fn variable_path_finding(v: VariableView) -> Seq<DiagnosticView> {
    if has_absolute_path(v.value) {
        seq![
            plain_diag(
                "MK202"@,
                Severity::Warning,
                "Variable '"@ + v.name + "' contains hardcoded absolute path"@,
                v.line,
                v.column,
            ),
        ]
    } else {
        Seq::empty()
    }
}

pub open spec fn recipe_path_finding(r: RecipeView) -> Seq<DiagnosticView> {
    if has_absolute_path(r.command) {
        seq![
            plain_diag(
                "MK202"@,
                Severity::Warning,
                "Recipe contains hardcoded absolute path"@,
                r.line,
                r.column,
            ),
        ]
    } else {
        Seq::empty()
    }
}

pub open spec fn recipe_path_findings_of_rule(r: RuleView) -> Seq<DiagnosticView> {
    concat_map(r.recipes, |p: RecipeView| recipe_path_finding(p))
}

/// Common non-file targets must be declared `.PHONY`.
#[derive(Debug, Clone, Copy, PartialEq, Eq, Structural)]
pub struct MissingPhony;

/// Variable values and recipes should not hold absolute paths.
#[derive(Debug, Clone, Copy, PartialEq, Eq, Structural)]
pub struct HardcodedPath;

fn is_common_phony_target(t: &str) -> (r: bool)
    ensures
        r == is_common_phony(t@),
{
    same_chars(t, "all") || same_chars(t, "clean") || same_chars(t, "test") || same_chars(
        t,
        "check",
    ) || same_chars(t, "install") || same_chars(t, "build") || same_chars(t, "help")
}

fn declared(phonies: &Vec<String>, t: &str) -> (r: bool)
    ensures
        r == strings_view(phonies@).contains(t@),
{
    let ghost pv = strings_view(phonies@);
    let mut i: usize = 0;
    while i < phonies.len()
        invariant
            i <= phonies@.len(),
            pv == strings_view(phonies@),
            forall|j: int| 0 <= j < i ==> pv[j] != t@,
        decreases phonies.len() - i,
    {
        if same_chars(phonies[i].as_str(), t) {
            assert(pv[i as int] == t@);
            return true;
        }
        i += 1;
    }
    false
}

/// Whether any white-space separated word of `text` is shaped like an absolute path.
pub fn contains_absolute_path(text: &str) -> (r: bool)
    ensures
        r == has_absolute_path(text@),
{
    let ws = words_vec(&chars_of(text));
    let ghost wv = ws@.map_values(|x: Vec<char>| x@);
    let mut i: usize = 0;
    while i < ws.len()
        invariant
            i <= ws@.len(),
            wv == ws@.map_values(|x: Vec<char>| x@),
            wv == words(text@),
            forall|j: int| 0 <= j < i ==> !is_absolute_word(#[trigger] wv[j]),
        decreases ws.len() - i,
    {
        let w = &ws[i];
        let n = w.len();
        if (n > 1 && w[0] == '/' && w[1] != '/') || (n > 2 && w[1] == ':' && w[2] == '\\') {
            assert(is_absolute_word(wv[i as int]));
            return true;
        }
        i += 1;
    }
    false
}

fn missing_phony_check(line: usize, column: usize, t: &String, phonies: &Vec<String>) -> (d: Option<
    Diagnostic,
>)
    ensures
        forall|r: RuleView|
            r.line == line && r.column == column ==> opt_diag(d) == #[trigger] missing_phony_finding(
                r,
                t@,
                strings_view(phonies@),
            ),
{
    if is_common_phony_target(t.as_str()) && !declared(phonies, t.as_str()) {
        let msg = text3("Target '", t.as_str(), "' should be declared .PHONY");
        Some(Diagnostic::new("MK201", Severity::Warning, msg, line, column))
    } else {
        None
    }
}

fn variable_path_check(v: &Variable) -> (d: Option<Diagnostic>)
    ensures
        opt_diag(d) == variable_path_finding(v@),
{
    if contains_absolute_path(v.value.as_str()) {
        let msg = text3("Variable '", v.name.as_str(), "' contains hardcoded absolute path");
        Some(Diagnostic::new("MK202", Severity::Warning, msg, v.line, v.column))
    } else {
        None
    }
}

fn recipe_path_check(r: &Recipe) -> (d: Option<Diagnostic>)
    ensures
        opt_diag(d) == recipe_path_finding(r@),
{
    if contains_absolute_path(r.command.as_str()) {
        Some(
            Diagnostic::new(
                "MK202",
                Severity::Warning,
                String::from_str("Recipe contains hardcoded absolute path"),
                r.line,
                r.column,
            ),
        )
    } else {
        None
    }
}

impl Rule for MissingPhony {
    open spec fn spec_id(&self) -> Seq<char> {
        "MK201"@
    }

    open spec fn spec_name(&self) -> Seq<char> {
        "Non-file targets should be .PHONY"@
    }

    open spec fn spec_description(&self) -> Seq<char> {
        "Targets that don't represent actual files should be declared as .PHONY to ensure they always run and to improve performance."@
    }

    open spec fn spec_category(&self) -> RuleCategory {
        RuleCategory::BestPractices
    }

    open spec fn findings(&self, m: MakefileView, content: Seq<char>) -> Seq<DiagnosticView> {
        concat_map(m.rules, |r: RuleView| missing_phony_findings_of_rule(r, m.phonies))
    }

    fn id(&self) -> (r: &'static str) {
        "MK201"
    }

    fn name(&self) -> (r: &'static str) {
        "Non-file targets should be .PHONY"
    }

    fn description(&self) -> (r: &'static str) {
        "Targets that don't represent actual files should be declared as .PHONY to ensure they always run and to improve performance."
    }

    fn category(&self) -> (r: RuleCategory) {
        RuleCategory::BestPractices
    }

    fn check(&self, makefile: &Makefile, content: &str) -> (r: Vec<Diagnostic>) {
        let ghost rs = rules_view(makefile.rules@);
        let ghost ph = strings_view(makefile.phonies@);
        let ghost f = |r: RuleView| missing_phony_findings_of_rule(r, ph);
        let mut out: Vec<Diagnostic> = Vec::new();
        let mut i: usize = 0;
        proof {
            lemma_concat_map_all(rs, f);
        }
        assert(diags_view(out@) =~= Seq::<DiagnosticView>::empty());
        while i < makefile.rules.len()
            invariant
                i <= makefile.rules@.len(),
                rs == rules_view(makefile.rules@),
                ph == strings_view(makefile.phonies@),
                f == (|r: RuleView| missing_phony_findings_of_rule(r, ph)),
                diags_view(out@) == concat_map(rs.take(i as int), f),
            decreases makefile.rules.len() - i,
        {
            let rule = &makefile.rules[i];
            let ghost rv = rule@;
            let ghost base = diags_view(out@);
            let ghost ts = rv.targets;
            let ghost g = |t: Seq<char>| missing_phony_finding(rv, t, ph);
            let mut j: usize = 0;
            proof {
                lemma_concat_map_all(ts, g);
            }
            while j < rule.targets.len()
                invariant
                    j <= rule.targets@.len(),
                    rv == rule@,
                    ts == rv.targets,
                    ph == strings_view(makefile.phonies@),
                    g == (|t: Seq<char>| missing_phony_finding(rv, t, ph)),
                    diags_view(out@) == base + concat_map(ts.take(j as int), g),
                decreases rule.targets.len() - j,
            {
                let d = missing_phony_check(
                    rule.line,
                    rule.column,
                    &rule.targets[j],
                    &makefile.phonies,
                );
                assert(opt_diag(d) == missing_phony_finding(rv, ts[j as int], ph));
                push_opt(&mut out, d);
                proof {
                    lemma_concat_map_step(ts, g, j as int);
                }
                j += 1;
            }
            proof {
                lemma_concat_map_all(ts, g);
                lemma_concat_map_step(rs, f, i as int);
            }
            i += 1;
        }
        proof {
            lemma_concat_map_all(rs, f);
        }
        out
    }
}

impl HardcodedPath {
    fn variable_findings(makefile: &Makefile) -> (r: Vec<Diagnostic>)
        ensures
            diags_view(r@) == concat_map(
                makefile@.variables,
                |v: VariableView| variable_path_finding(v),
            ),
    {
        let vars = makefile.variables.values();
        let ghost vs = variables_view(vars@);
        let ghost f = |v: VariableView| variable_path_finding(v);
        let mut out: Vec<Diagnostic> = Vec::new();
        let mut i: usize = 0;
        proof {
            lemma_concat_map_all(vs, f);
        }
        assert(diags_view(out@) =~= Seq::<DiagnosticView>::empty());
        while i < vars.len()
            invariant
                i <= vars@.len(),
                vs == variables_view(vars@),
                f == (|v: VariableView| variable_path_finding(v)),
                diags_view(out@) == concat_map(vs.take(i as int), f),
            decreases vars.len() - i,
        {
            push_opt(&mut out, variable_path_check(&vars[i]));
            proof {
                lemma_concat_map_step(vs, f, i as int);
            }
            i += 1;
        }
        proof {
            lemma_concat_map_all(vs, f);
        }
        out
    }

    fn recipe_findings(makefile: &Makefile) -> (r: Vec<Diagnostic>)
        ensures
            diags_view(r@) == concat_map(
                makefile@.rules,
                |r: RuleView| recipe_path_findings_of_rule(r),
            ),
    {
        let ghost rs = rules_view(makefile.rules@);
        let ghost f = |r: RuleView| recipe_path_findings_of_rule(r);
        let ghost g = |p: RecipeView| recipe_path_finding(p);
        let mut out: Vec<Diagnostic> = Vec::new();
        let mut i: usize = 0;
        proof {
            lemma_concat_map_all(rs, f);
        }
        assert(diags_view(out@) =~= Seq::<DiagnosticView>::empty());
        while i < makefile.rules.len()
            invariant
                i <= makefile.rules@.len(),
                rs == rules_view(makefile.rules@),
                f == (|r: RuleView| recipe_path_findings_of_rule(r)),
                g == (|p: RecipeView| recipe_path_finding(p)),
                diags_view(out@) == concat_map(rs.take(i as int), f),
            decreases makefile.rules.len() - i,
        {
            let rule = &makefile.rules[i];
            let ghost base = diags_view(out@);
            let ghost ps = recipes_view(rule.recipes@);
            let mut j: usize = 0;
            proof {
                lemma_concat_map_all(ps, g);
            }
            while j < rule.recipes.len()
                invariant
                    j <= rule.recipes@.len(),
                    ps == recipes_view(rule.recipes@),
                    g == (|p: RecipeView| recipe_path_finding(p)),
                    diags_view(out@) == base + concat_map(ps.take(j as int), g),
                decreases rule.recipes.len() - j,
            {
                push_opt(&mut out, recipe_path_check(&rule.recipes[j]));
                proof {
                    lemma_concat_map_step(ps, g, j as int);
                }
                j += 1;
            }
            proof {
                lemma_concat_map_all(ps, g);
                lemma_concat_map_step(rs, f, i as int);
            }
            i += 1;
        }
        proof {
            lemma_concat_map_all(rs, f);
        }
        out
    }
}

impl Rule for HardcodedPath {
    open spec fn spec_id(&self) -> Seq<char> {
        "MK202"@
    }

    open spec fn spec_name(&self) -> Seq<char> {
        "Avoid hardcoded absolute paths"@
    }

    open spec fn spec_description(&self) -> Seq<char> {
        "Hardcoded absolute paths reduce portability and make the Makefile less flexible. Use variables or relative paths instead."@
    }

    open spec fn spec_category(&self) -> RuleCategory {
        RuleCategory::BestPractices
    }

    /// Variables first, in table order, then recipes, in file order.
    open spec fn findings(&self, m: MakefileView, content: Seq<char>) -> Seq<DiagnosticView> {
        concat_map(m.variables, |v: VariableView| variable_path_finding(v)) + concat_map(
            m.rules,
            |r: RuleView| recipe_path_findings_of_rule(r),
        )
    }

    fn id(&self) -> (r: &'static str) {
        "MK202"
    }

    fn name(&self) -> (r: &'static str) {
        "Avoid hardcoded absolute paths"
    }

    fn description(&self) -> (r: &'static str) {
        "Hardcoded absolute paths reduce portability and make the Makefile less flexible. Use variables or relative paths instead."
    }

    fn category(&self) -> (r: RuleCategory) {
        RuleCategory::BestPractices
    }

    fn check(&self, makefile: &Makefile, content: &str) -> (r: Vec<Diagnostic>) {
        let mut out = Self::variable_findings(makefile);
        append_all(&mut out, Self::recipe_findings(makefile));
        out
    }
}

} // verus!
