//! The lint-rule engine: a fixed catalog of pure checks over a parsed model.
use vstd::prelude::*;
use crate::diagnostic::{Diagnostic, DiagnosticView, diags_view};
use crate::model::{Makefile, MakefileView};
use crate::rules::best_practices::{HardcodedPath, MissingPhony};
use crate::rules::style::{LineLength, NamingStyle, TargetNaming, VariableNaming};
use crate::rules::syntax::{InvalidVariableSyntax, TabInRecipe};
use crate::text::{same_chars, text3};

pub mod best_practices;
pub mod style;
pub mod syntax;

verus! {

#[derive(Debug, Clone, Copy, PartialEq, Eq, Structural)]
pub enum RuleCategory {
    Syntax,
    Style,
    BestPractices,
}

/// A lint rule: an identity, a category, and a pure check of a model and the
/// text it was parsed from.
pub trait Rule {
    spec fn spec_id(&self) -> Seq<char>;

    spec fn spec_name(&self) -> Seq<char>;

    spec fn spec_description(&self) -> Seq<char>;

    spec fn spec_category(&self) -> RuleCategory;

    /// The diagnostics that the rule reports on a model and its text.
    spec fn findings(&self, m: MakefileView, content: Seq<char>) -> Seq<DiagnosticView>;

    fn id(&self) -> (r: &'static str)
        ensures
            r@ == self.spec_id(),
    ;

    fn name(&self) -> (r: &'static str)
        ensures
            r@ == self.spec_name(),
    ;

    fn description(&self) -> (r: &'static str)
        ensures
            r@ == self.spec_description(),
    ;

    fn category(&self) -> (r: RuleCategory)
        ensures
            r == self.spec_category(),
    ;

    fn check(&self, makefile: &Makefile, content: &str) -> (r: Vec<Diagnostic>)
        ensures
            diags_view(r@) == self.findings(makefile@, content@),
    ;
}

/// The diagnostics that `f` gives for each item of `s`, in order.
pub open spec fn concat_map<A>(s: Seq<A>, f: spec_fn(A) -> Seq<DiagnosticView>) -> Seq<
    DiagnosticView,
>
    decreases s.len(),
{
    if s.len() == 0 {
        Seq::empty()
    } else {
        concat_map(s.drop_last(), f) + f(s.last())
    }
}

pub proof fn lemma_concat_map_step<A>(s: Seq<A>, f: spec_fn(A) -> Seq<DiagnosticView>, i: int)
    requires
        0 <= i < s.len(),
    ensures
        concat_map(s.take(i + 1), f) == concat_map(s.take(i), f) + f(s[i]),
{
    assert(s.take(i + 1).drop_last() =~= s.take(i));
}

pub proof fn lemma_concat_map_all<A>(s: Seq<A>, f: spec_fn(A) -> Seq<DiagnosticView>)
    ensures
        concat_map(s.take(s.len() as int), f) == concat_map(s, f),
        concat_map(s.take(0), f) == Seq::<DiagnosticView>::empty(),
{
    assert(s.take(s.len() as int) =~= s);
}

pub open spec fn opt_diag(d: Option<Diagnostic>) -> Seq<DiagnosticView> {
    match d {
        Some(x) => seq![x@],
        None => Seq::empty(),
    }
}

/// Appends the diagnostic, if there is one.
pub fn push_opt(out: &mut Vec<Diagnostic>, d: Option<Diagnostic>)
    ensures
        diags_view(final(out)@) == diags_view(old(out)@) + opt_diag(d),
{
    match d {
        Some(x) => {
            let ghost prev = out@;
            let ghost xv = x@;
            out.push(x);
            assert(diags_view(out@) =~= diags_view(prev) + seq![xv]);
        },
        None => {
            assert(diags_view(out@) =~= diags_view(out@) + Seq::<DiagnosticView>::empty());
        },
    }
}

/// Appends all of `src` to `out`.
pub fn append_all(out: &mut Vec<Diagnostic>, src: Vec<Diagnostic>)
    ensures
        diags_view(final(out)@) == diags_view(old(out)@) + diags_view(src@),
{
    let ghost prev = out@;
    let ghost sv = src@;
    let mut src = src;
    out.append(&mut src);
    assert(diags_view(out@) =~= diags_view(prev) + diags_view(sv));
}

/// The built-in rules, one variant each.
#[derive(Debug, Clone, Copy, PartialEq, Eq, Structural)]
pub enum LintRule {
    TabInRecipe(TabInRecipe),
    InvalidVariableSyntax(InvalidVariableSyntax),
    LineLength(LineLength),
    VariableNaming(VariableNaming),
    TargetNaming(TargetNaming),
    MissingPhony(MissingPhony),
    HardcodedPath(HardcodedPath),
}

impl Rule for LintRule {
    open spec fn spec_id(&self) -> Seq<char> {
        match self {
            LintRule::TabInRecipe(r) => r.spec_id(),
            LintRule::InvalidVariableSyntax(r) => r.spec_id(),
            LintRule::LineLength(r) => r.spec_id(),
            LintRule::VariableNaming(r) => r.spec_id(),
            LintRule::TargetNaming(r) => r.spec_id(),
            LintRule::MissingPhony(r) => r.spec_id(),
            LintRule::HardcodedPath(r) => r.spec_id(),
        }
    }

    open spec fn spec_name(&self) -> Seq<char> {
        match self {
            LintRule::TabInRecipe(r) => r.spec_name(),
            LintRule::InvalidVariableSyntax(r) => r.spec_name(),
            LintRule::LineLength(r) => r.spec_name(),
            LintRule::VariableNaming(r) => r.spec_name(),
            LintRule::TargetNaming(r) => r.spec_name(),
            LintRule::MissingPhony(r) => r.spec_name(),
            LintRule::HardcodedPath(r) => r.spec_name(),
        }
    }

    open spec fn spec_description(&self) -> Seq<char> {
        match self {
            LintRule::TabInRecipe(r) => r.spec_description(),
            LintRule::InvalidVariableSyntax(r) => r.spec_description(),
            LintRule::LineLength(r) => r.spec_description(),
            LintRule::VariableNaming(r) => r.spec_description(),
            LintRule::TargetNaming(r) => r.spec_description(),
            LintRule::MissingPhony(r) => r.spec_description(),
            LintRule::HardcodedPath(r) => r.spec_description(),
        }
    }

    open spec fn spec_category(&self) -> RuleCategory {
        match self {
            LintRule::TabInRecipe(r) => r.spec_category(),
            LintRule::InvalidVariableSyntax(r) => r.spec_category(),
            LintRule::LineLength(r) => r.spec_category(),
            LintRule::VariableNaming(r) => r.spec_category(),
            LintRule::TargetNaming(r) => r.spec_category(),
            LintRule::MissingPhony(r) => r.spec_category(),
            LintRule::HardcodedPath(r) => r.spec_category(),
        }
    }

    open spec fn findings(&self, m: MakefileView, content: Seq<char>) -> Seq<DiagnosticView> {
        match self {
            LintRule::TabInRecipe(r) => r.findings(m, content),
            LintRule::InvalidVariableSyntax(r) => r.findings(m, content),
            LintRule::LineLength(r) => r.findings(m, content),
            LintRule::VariableNaming(r) => r.findings(m, content),
            LintRule::TargetNaming(r) => r.findings(m, content),
            LintRule::MissingPhony(r) => r.findings(m, content),
            LintRule::HardcodedPath(r) => r.findings(m, content),
        }
    }

    fn id(&self) -> (r: &'static str) {
        match self {
            LintRule::TabInRecipe(r) => r.id(),
            LintRule::InvalidVariableSyntax(r) => r.id(),
            LintRule::LineLength(r) => r.id(),
            LintRule::VariableNaming(r) => r.id(),
            LintRule::TargetNaming(r) => r.id(),
            LintRule::MissingPhony(r) => r.id(),
            LintRule::HardcodedPath(r) => r.id(),
        }
    }

    fn name(&self) -> (r: &'static str) {
        match self {
            LintRule::TabInRecipe(r) => r.name(),
            LintRule::InvalidVariableSyntax(r) => r.name(),
            LintRule::LineLength(r) => r.name(),
            LintRule::VariableNaming(r) => r.name(),
            LintRule::TargetNaming(r) => r.name(),
            LintRule::MissingPhony(r) => r.name(),
            LintRule::HardcodedPath(r) => r.name(),
        }
    }

    fn description(&self) -> (r: &'static str) {
        match self {
            LintRule::TabInRecipe(r) => r.description(),
            LintRule::InvalidVariableSyntax(r) => r.description(),
            LintRule::LineLength(r) => r.description(),
            LintRule::VariableNaming(r) => r.description(),
            LintRule::TargetNaming(r) => r.description(),
            LintRule::MissingPhony(r) => r.description(),
            LintRule::HardcodedPath(r) => r.description(),
        }
    }

    fn category(&self) -> (r: RuleCategory) {
        match self {
            LintRule::TabInRecipe(r) => r.category(),
            LintRule::InvalidVariableSyntax(r) => r.category(),
            LintRule::LineLength(r) => r.category(),
            LintRule::VariableNaming(r) => r.category(),
            LintRule::TargetNaming(r) => r.category(),
            LintRule::MissingPhony(r) => r.category(),
            LintRule::HardcodedPath(r) => r.category(),
        }
    }

    fn check(&self, makefile: &Makefile, content: &str) -> (r: Vec<Diagnostic>) {
        match self {
            LintRule::TabInRecipe(r) => r.check(makefile, content),
            LintRule::InvalidVariableSyntax(r) => r.check(makefile, content),
            LintRule::LineLength(r) => r.check(makefile, content),
            LintRule::VariableNaming(r) => r.check(makefile, content),
            LintRule::TargetNaming(r) => r.check(makefile, content),
            LintRule::MissingPhony(r) => r.check(makefile, content),
            LintRule::HardcodedPath(r) => r.check(makefile, content),
        }
    }
}

/// The full catalog, in its fixed order.
pub open spec fn all_rules() -> Seq<LintRule> {
    seq![
        LintRule::TabInRecipe(TabInRecipe),
        LintRule::InvalidVariableSyntax(InvalidVariableSyntax),
        LintRule::LineLength(LineLength { max_length: 120 }),
        LintRule::VariableNaming(VariableNaming { style: NamingStyle::Upper }),
        LintRule::TargetNaming(TargetNaming { style: NamingStyle::Lower }),
        LintRule::MissingPhony(MissingPhony),
        LintRule::HardcodedPath(HardcodedPath),
    ]
}

/// The rules that run when no configuration is given.
pub open spec fn default_rules() -> Seq<LintRule> {
    seq![
        LintRule::TabInRecipe(TabInRecipe),
        LintRule::InvalidVariableSyntax(InvalidVariableSyntax),
        LintRule::LineLength(LineLength { max_length: 120 }),
        LintRule::MissingPhony(MissingPhony),
    ]
}

pub fn get_all_rules() -> (r: Vec<LintRule>)
    ensures
        r@ == all_rules(),
{
    let r = vec![
        LintRule::TabInRecipe(TabInRecipe),
        LintRule::InvalidVariableSyntax(InvalidVariableSyntax),
        LintRule::LineLength(LineLength::new(120)),
        LintRule::VariableNaming(VariableNaming::new(NamingStyle::Upper)),
        LintRule::TargetNaming(TargetNaming::new(NamingStyle::Lower)),
        LintRule::MissingPhony(MissingPhony),
        LintRule::HardcodedPath(HardcodedPath),
    ];
    assert(r@ =~= all_rules());
    r
}

pub fn get_default_rules() -> (r: Vec<LintRule>)
    ensures
        r@ == default_rules(),
{
    let r = vec![
        LintRule::TabInRecipe(TabInRecipe),
        LintRule::InvalidVariableSyntax(InvalidVariableSyntax),
        LintRule::LineLength(LineLength::new(120)),
        LintRule::MissingPhony(MissingPhony),
    ];
    assert(r@ =~= default_rules());
    r
}

pub open spec fn category_text(c: RuleCategory) -> Seq<char> {
    match c {
        RuleCategory::Syntax => "Syntax"@,
        RuleCategory::Style => "Style"@,
        RuleCategory::BestPractices => "BestPractices"@,
    }
}

pub fn category_name(c: RuleCategory) -> (r: &'static str)
    ensures
        r@ == category_text(c),
{
    match c {
        RuleCategory::Syntax => "Syntax",
        RuleCategory::Style => "Style",
        RuleCategory::BestPractices => "BestPractices",
    }
}

/// The index of the first rule of `rs` from `i` on whose id is `id`, or -1.
pub open spec fn rule_index_from(rs: Seq<LintRule>, id: Seq<char>, i: int) -> int
    decreases rs.len() - i,
{
    if i < 0 || i >= rs.len() {
        -1
    } else if rs[i].spec_id() == id {
        i
    } else {
        rule_index_from(rs, id, i + 1)
    }
}

pub open spec fn explanation_text(r: LintRule) -> Seq<char> {
    "Rule: "@ + r.spec_id() + "\nCategory: "@ + category_text(r.spec_category())
        + "\nDescription: "@ + r.spec_name() + "\n\n"@ + r.spec_description()
}

/// The explanation of the catalog rule with id `rule_id`; an unknown id is an
/// error whose text names it.
pub fn get_rule_explanation(rule_id: &str) -> (r: Result<String, String>)
    ensures
        rule_index_from(all_rules(), rule_id@, 0) >= 0 ==> r == Ok::<String, String>(r->Ok_0)
            && r->Ok_0@ == explanation_text(all_rules()[rule_index_from(all_rules(), rule_id@, 0)]),
        rule_index_from(all_rules(), rule_id@, 0) < 0 ==> r is Err && r->Err_0@ == "Unknown rule: "@
            + rule_id@,
{
    let rules = get_all_rules();
    let mut i: usize = 0;
    while i < rules.len()
        invariant
            rules@ == all_rules(),
            i <= rules@.len(),
            rule_index_from(all_rules(), rule_id@, i as int) == rule_index_from(
                all_rules(),
                rule_id@,
                0,
            ),
        decreases rules.len() - i,
    {
        let rule = &rules[i];
        if same_chars(rule.id(), rule_id) {
            let mut s = text3("Rule: ", rule.id(), "\nCategory: ");
            s.append(category_name(rule.category()));
            s.append("\nDescription: ");
            s.append(rule.name());
            s.append("\n\n");
            s.append(rule.description());
            return Ok(s);
        }
        i += 1;
    }
    let mut e = String::from_str("Unknown rule: ");
    e.append(rule_id);
    Err(e)
}

} // verus!
