//! Rules on layout and naming conventions.
use vstd::prelude::*;
use crate::diagnostic::{Diagnostic, DiagnosticView, Severity, diags_view, plain_diag};
use crate::model::{Makefile, MakefileView, RuleView, Variable, VariableView, rules_view, variables_view};
use crate::rules::{
    Rule, RuleCategory, concat_map, lemma_concat_map_all, lemma_concat_map_step, opt_diag,
    push_opt,
};
use crate::text::{byte_len, chars_of, decimal, prefix_bytes, saturated, decimal_string, lines, lines_vec, lines_view, text3, text5};

verus! {

/// What `char::is_alphabetic` returns for `c`.
pub uninterp spec fn alphabetic(c: char) -> bool;

/// What `char::is_uppercase` returns for `c`.
pub uninterp spec fn uppercase(c: char) -> bool;

/// What `char::is_lowercase` returns for `c`.
pub uninterp spec fn lowercase(c: char) -> bool;

/// Relies on `char::is_alphabetic`, a function of the character alone.
#[verifier::external_body]
fn char_is_alphabetic(c: char) -> (r: bool)
    ensures
        r == alphabetic(c),
{
    c.is_alphabetic()
}

/// Relies on `char::is_uppercase`, a function of the character alone.
#[verifier::external_body]
fn char_is_uppercase(c: char) -> (r: bool)
    ensures
        r == uppercase(c),
{
    c.is_uppercase()
}

/// Relies on `char::is_lowercase`, a function of the character alone.
#[verifier::external_body]
fn char_is_lowercase(c: char) -> (r: bool)
    ensures
        r == lowercase(c),
{
    c.is_lowercase()
}

#[derive(Debug, Clone, Copy, PartialEq, Eq, Structural)]
pub enum NamingStyle {
    Upper,
    Lower,
}

pub open spec fn has_case(c: char, style: NamingStyle) -> bool {
    match style {
        NamingStyle::Upper => uppercase(c),
        NamingStyle::Lower => lowercase(c),
    }
}

/// Every alphabetic character of `name` already has the case of `style`.
pub open spec fn fits_style(name: Seq<char>, style: NamingStyle) -> bool {
    forall|i: int| 0 <= i < name.len() ==> (alphabetic(#[trigger] name[i]) ==> has_case(name[i], style))
}

pub open spec fn style_text(style: NamingStyle) -> Seq<char> {
    match style {
        NamingStyle::Upper => "UPPER_CASE"@,
        NamingStyle::Lower => "lower_case"@,
    }
}

/// Whether `name` follows `style`: characters that are not alphabetic never
/// break a style.
pub fn matches_naming_style(name: &str, style: NamingStyle) -> (r: bool)
    ensures
        r == fits_style(name@, style),
{
    let cs = chars_of(name);
    let mut i: usize = 0;
    while i < cs.len()
        invariant
            cs@ == name@,
            i <= cs.len(),
            forall|j: int| 0 <= j < i ==> (alphabetic(#[trigger] cs@[j]) ==> has_case(cs@[j], style)),
        decreases cs.len() - i,
    {
        let c = cs[i];
        if char_is_alphabetic(c) {
            let ok = match style {
                NamingStyle::Upper => char_is_uppercase(c),
                NamingStyle::Lower => char_is_lowercase(c),
            };
            if !ok {
                return false;
            }
        }
        i += 1;
    }
    true
}

/// No alphabetic character, so no style can be broken.
pub proof fn lemma_no_letters_fit(name: Seq<char>, style: NamingStyle)
    requires
        forall|i: int| 0 <= i < name.len() ==> !alphabetic(#[trigger] name[i]),
    ensures
        fits_style(name, style),
{
}

pub fn naming_style_description(style: NamingStyle) -> (r: &'static str)
    ensures
        r@ == style_text(style),
{
    match style {
        NamingStyle::Upper => "UPPER_CASE",
        NamingStyle::Lower => "lower_case",
    }
}

/// The length of a line in bytes of UTF-8, saturated at the largest `usize`
/// (which no line held in memory reaches).
pub open spec fn line_bytes(l: Seq<char>) -> usize {
    saturated(byte_len(l))
}

/// The diagnostic for the line at index `n`, if it is longer than `max` bytes.
pub open spec fn long_line_finding(l: Seq<char>, n: int, max: usize) -> Seq<DiagnosticView> {
    if line_bytes(l) > max {
        seq![
            plain_diag(
                "MK101"@,
                Severity::Warning,
                "Line length "@ + decimal(line_bytes(l) as nat) + " exceeds maximum of "@ + decimal(max as nat),
                (n + 1) as usize,
                (max + 1) as usize,
            ),
        ]
    } else {
        Seq::empty()
    }
}

pub open spec fn long_lines(ls: Seq<Seq<char>>, max: usize) -> Seq<DiagnosticView>
    decreases ls.len(),
{
    if ls.len() == 0 {
        Seq::empty()
    } else {
        long_lines(ls.drop_last(), max) + long_line_finding(ls.last(), ls.len() - 1, max)
    }
}

pub open spec fn variable_naming_finding(v: VariableView, style: NamingStyle) -> Seq<DiagnosticView> {
    if fits_style(v.name, style) {
        Seq::empty()
    } else {
        seq![
            plain_diag(
                "MK102"@,
                Severity::Warning,
                "Variable '"@ + v.name + "' does not follow "@ + style_text(style) + " convention"@,
                v.line,
                v.column,
            ),
        ]
    }
}

pub open spec fn target_naming_finding(r: RuleView, t: Seq<char>, style: NamingStyle) -> Seq<
    DiagnosticView,
> {
    if (t.len() > 0 && t[0] == '.') || fits_style(t, style) {
        Seq::empty()
    } else {
        seq![
            plain_diag(
                "MK103"@,
                Severity::Warning,
                "Target '"@ + t + "' does not follow "@ + style_text(style) + " convention"@,
                r.line,
                r.column,
            ),
        ]
    }
}

pub open spec fn target_naming_findings_of_rule(r: RuleView, style: NamingStyle) -> Seq<DiagnosticView> {
    concat_map(r.targets, |t: Seq<char>| target_naming_finding(r, t, style))
}

/// Lines longer than a maximum, counted in bytes of UTF-8.
#[derive(Debug, Clone, Copy, PartialEq, Eq, Structural)]
pub struct LineLength {
    pub max_length: usize,
}

/// Variable names follow a case convention.
#[derive(Debug, Clone, Copy, PartialEq, Eq, Structural)]
pub struct VariableNaming {
    pub style: NamingStyle,
}

/// Target names, but for those starting with `.`, follow a case convention.
#[derive(Debug, Clone, Copy, PartialEq, Eq, Structural)]
pub struct TargetNaming {
    pub style: NamingStyle,
}

impl LineLength {
    pub fn new(max_length: usize) -> (r: Self)
        ensures
            r.max_length == max_length,
    {
        LineLength { max_length }
    }
}

impl VariableNaming {
    pub fn new(style: NamingStyle) -> (r: Self)
        ensures
            r.style == style,
    {
        VariableNaming { style }
    }
}

impl TargetNaming {
    pub fn new(style: NamingStyle) -> (r: Self)
        ensures
            r.style == style,
    {
        TargetNaming { style }
    }
}

fn long_line_check(l: &Vec<char>, n: usize, max: usize) -> (d: Option<Diagnostic>)
    requires
        n < usize::MAX,
    ensures
        opt_diag(d) == long_line_finding(l@, n as int, max),
{
    let len = prefix_bytes(l, l.len());
    assert(l@.take(l@.len() as int) =~= l@);
    if len > max {
        let mut msg = text3("Line length ", decimal_string(len).as_str(), " exceeds maximum of ");
        msg.append(decimal_string(max).as_str());
        Some(Diagnostic::new("MK101", Severity::Warning, msg, n + 1, max + 1))
    } else {
        None
    }
}

fn variable_naming_check(v: &Variable, style: NamingStyle) -> (d: Option<Diagnostic>)
    ensures
        opt_diag(d) == variable_naming_finding(v@, style),
{
    if matches_naming_style(v.name.as_str(), style) {
        None
    } else {
        let msg = text5(
            "Variable '",
            v.name.as_str(),
            "' does not follow ",
            naming_style_description(style),
            " convention",
        );
        Some(Diagnostic::new("MK102", Severity::Warning, msg, v.line, v.column))
    }
}

fn target_naming_check(line: usize, column: usize, t: &String, style: NamingStyle) -> (d: Option<
    Diagnostic,
>)
    ensures
        forall|r: RuleView|
            r.line == line && r.column == column ==> opt_diag(d) == #[trigger] target_naming_finding(
                r,
                t@,
                style,
            ),
{
    let cs = chars_of(t.as_str());
    if (cs.len() > 0 && cs[0] == '.') || matches_naming_style(t.as_str(), style) {
        None
    } else {
        let msg = text5(
            "Target '",
            t.as_str(),
            "' does not follow ",
            naming_style_description(style),
            " convention",
        );
        Some(Diagnostic::new("MK103", Severity::Warning, msg, line, column))
    }
}

impl Rule for LineLength {
    open spec fn spec_id(&self) -> Seq<char> {
        "MK101"@
    }

    open spec fn spec_name(&self) -> Seq<char> {
        "Line exceeds maximum length"@
    }

    open spec fn spec_description(&self) -> Seq<char> {
        "Lines should not exceed the configured maximum length for better readability."@
    }

    open spec fn spec_category(&self) -> RuleCategory {
        RuleCategory::Style
    }

    open spec fn findings(&self, m: MakefileView, content: Seq<char>) -> Seq<DiagnosticView> {
        long_lines(lines(content), self.max_length)
    }

    fn id(&self) -> (r: &'static str) {
        "MK101"
    }

    fn name(&self) -> (r: &'static str) {
        "Line exceeds maximum length"
    }

    fn description(&self) -> (r: &'static str) {
        "Lines should not exceed the configured maximum length for better readability."
    }

    fn category(&self) -> (r: RuleCategory) {
        RuleCategory::Style
    }

    fn check(&self, makefile: &Makefile, content: &str) -> (r: Vec<Diagnostic>) {
        let cs = chars_of(content);
        let ls = lines_vec(&cs);
        let ghost lv = lines_view(ls@);
        let mut out: Vec<Diagnostic> = Vec::new();
        let mut i: usize = 0;
        assert(lv.take(0) =~= Seq::<Seq<char>>::empty());
        assert(diags_view(out@) =~= Seq::<DiagnosticView>::empty());
        while i < ls.len()
            invariant
                i <= ls@.len(),
                lv == lines_view(ls@),
                lv == lines(content@),
                diags_view(out@) == long_lines(lv.take(i as int), self.max_length),
            decreases ls.len() - i,
        {
            push_opt(&mut out, long_line_check(&ls[i], i, self.max_length));
            assert(lv.take(i + 1).drop_last() =~= lv.take(i as int));
            i += 1;
        }
        assert(lv.take(i as int) =~= lv);
        out
    }
}

impl Rule for VariableNaming {
    open spec fn spec_id(&self) -> Seq<char> {
        "MK102"@
    }

    open spec fn spec_name(&self) -> Seq<char> {
        "Variable naming convention"@
    }

    open spec fn spec_description(&self) -> Seq<char> {
        "Variables should follow the configured naming convention for consistency."@
    }

    open spec fn spec_category(&self) -> RuleCategory {
        RuleCategory::Style
    }

    open spec fn findings(&self, m: MakefileView, content: Seq<char>) -> Seq<DiagnosticView> {
        concat_map(m.variables, |v: VariableView| variable_naming_finding(v, self.style))
    }

    fn id(&self) -> (r: &'static str) {
        "MK102"
    }

    fn name(&self) -> (r: &'static str) {
        "Variable naming convention"
    }

    fn description(&self) -> (r: &'static str) {
        "Variables should follow the configured naming convention for consistency."
    }

    fn category(&self) -> (r: RuleCategory) {
        RuleCategory::Style
    }

    fn check(&self, makefile: &Makefile, content: &str) -> (r: Vec<Diagnostic>) {
        let vars = makefile.variables.values();
        let ghost vs = variables_view(vars@);
        let ghost f = |v: VariableView| variable_naming_finding(v, self.style);
        let mut out: Vec<Diagnostic> = Vec::new();
        let mut i: usize = 0;
        proof {
            lemma_concat_map_all(vs, f);
        }
        assert(diags_view(out@) =~= Seq::<DiagnosticView>::empty());
        while i < vars.len()
            invariant
                i <= vars@.len(),
                vs == variables_view(vars@),
                f == (|v: VariableView| variable_naming_finding(v, self.style)),
                diags_view(out@) == concat_map(vs.take(i as int), f),
            decreases vars.len() - i,
        {
            push_opt(&mut out, variable_naming_check(&vars[i], self.style));
            proof {
                lemma_concat_map_step(vs, f, i as int);
            }
            i += 1;
        }
        proof {
            lemma_concat_map_all(vs, f);
        }
        out
    }
}

impl Rule for TargetNaming {
    open spec fn spec_id(&self) -> Seq<char> {
        "MK103"@
    }

    open spec fn spec_name(&self) -> Seq<char> {
        "Target naming convention"@
    }

    open spec fn spec_description(&self) -> Seq<char> {
        "Targets should follow the configured naming convention for consistency."@
    }

    open spec fn spec_category(&self) -> RuleCategory {
        RuleCategory::Style
    }

    open spec fn findings(&self, m: MakefileView, content: Seq<char>) -> Seq<DiagnosticView> {
        concat_map(m.rules, |r: RuleView| target_naming_findings_of_rule(r, self.style))
    }

    fn id(&self) -> (r: &'static str) {
        "MK103"
    }

    fn name(&self) -> (r: &'static str) {
        "Target naming convention"
    }

    fn description(&self) -> (r: &'static str) {
        "Targets should follow the configured naming convention for consistency."
    }

    fn category(&self) -> (r: RuleCategory) {
        RuleCategory::Style
    }

    fn check(&self, makefile: &Makefile, content: &str) -> (r: Vec<Diagnostic>) {
        let ghost rs = rules_view(makefile.rules@);
        let ghost f = |r: RuleView| target_naming_findings_of_rule(r, self.style);
        let mut out: Vec<Diagnostic> = Vec::new();
        let mut i: usize = 0;
        proof {
            lemma_concat_map_all(rs, f);
        }
        assert(diags_view(out@) =~= Seq::<DiagnosticView>::empty());
        while i < makefile.rules.len()
            invariant
                i <= makefile.rules@.len(),
                rs == rules_view(makefile.rules@),
                f == (|r: RuleView| target_naming_findings_of_rule(r, self.style)),
                diags_view(out@) == concat_map(rs.take(i as int), f),
            decreases makefile.rules.len() - i,
        {
            let rule = &makefile.rules[i];
            let ghost rv = rule@;
            let ghost base = diags_view(out@);
            let ghost ts = rv.targets;
            let ghost g = |t: Seq<char>| target_naming_finding(rv, t, self.style);
            let mut j: usize = 0;
            proof {
                lemma_concat_map_all(ts, g);
            }
            while j < rule.targets.len()
                invariant
                    j <= rule.targets@.len(),
                    rv == rule@,
                    ts == rv.targets,
                    g == (|t: Seq<char>| target_naming_finding(rv, t, self.style)),
                    diags_view(out@) == base + concat_map(ts.take(j as int), g),
                decreases rule.targets.len() - j,
            {
                let d = target_naming_check(rule.line, rule.column, &rule.targets[j], self.style);
                assert(opt_diag(d) == target_naming_finding(rv, ts[j as int], self.style));
                push_opt(&mut out, d);
                proof {
                    lemma_concat_map_step(ts, g, j as int);
                }
                j += 1;
            }
            proof {
                lemma_concat_map_all(ts, g);
                lemma_concat_map_step(rs, f, i as int);
            }
            i += 1;
        }
        proof {
            lemma_concat_map_all(rs, f);
        }
        out
    }
}

} // verus!
