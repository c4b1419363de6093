//! Running a set of rules over a model, and choosing which rules run.
use vstd::prelude::*;
use crate::diagnostic::{Diagnostic, DiagnosticView, diags_view};
use crate::model::{Makefile, MakefileView};
use crate::rules::{
    LintRule, Rule, all_rules, append_all, concat_map, get_all_rules, lemma_concat_map_all,
    lemma_concat_map_step,
};
use crate::rules::style::{LineLength, NamingStyle, TargetNaming, VariableNaming};
use crate::text::{chars_of, same_chars};

verus! {

/// Position (line, column) of `a` strictly before that of `b`.
pub open spec fn pos_before(a: DiagnosticView, b: DiagnosticView) -> bool {
    a.line < b.line || (a.line == b.line && a.column < b.column)
}

/// `d` put into the ascending order `s`, after every entry at its position or before it.
pub open spec fn insert_by_pos(s: Seq<DiagnosticView>, d: DiagnosticView) -> Seq<DiagnosticView>
    decreases s.len(),
{
    if s.len() == 0 {
        seq![d]
    } else if pos_before(d, s.last()) {
        insert_by_pos(s.drop_last(), d).push(s.last())
    } else {
        s.push(d)
    }
}

/// `s` sorted by ascending (line, column); entries at one position keep their order.
pub open spec fn sort_by_pos(s: Seq<DiagnosticView>) -> Seq<DiagnosticView>
    decreases s.len(),
{
    if s.len() == 0 {
        Seq::empty()
    } else {
        insert_by_pos(sort_by_pos(s.drop_last()), s.last())
    }
}

/// The diagnostics of every rule, in catalog order.
pub open spec fn all_findings<R: Rule>(rs: Seq<R>, m: MakefileView, content: Seq<char>) -> Seq<
    DiagnosticView,
> {
    concat_map(rs, |r: R| r.findings(m, content))
}

proof fn lemma_insert_by_pos(s: Seq<DiagnosticView>, d: DiagnosticView, p: int)
    requires
        0 <= p <= s.len(),
        forall|j: int| p <= j < s.len() ==> pos_before(d, #[trigger] s[j]),
        p > 0 ==> !pos_before(d, s[p - 1]),
    ensures
        insert_by_pos(s, d) == s.insert(p, d),
    decreases s.len(),
{
    if s.len() == 0 {
        assert(s.insert(p, d) =~= seq![d]);
    } else if p == s.len() {
        assert(s.insert(p, d) =~= s.push(d));
    } else {
        let t = s.drop_last();
        lemma_insert_by_pos(t, d, p);
        assert(s.insert(p, d) =~= t.insert(p, d).push(s.last()));
    }
}

/// No entry of `s` lies before the entry ahead of it.
pub open spec fn sorted_by_pos(s: Seq<DiagnosticView>) -> bool {
    forall|i: int, j: int| 0 <= i < j < s.len() ==> !pos_before(#[trigger] s[j], #[trigger] s[i])
}

proof fn lemma_insert_by_pos_facts(s: Seq<DiagnosticView>, d: DiagnosticView)
    requires
        sorted_by_pos(s),
    ensures
        sorted_by_pos(insert_by_pos(s, d)),
        insert_by_pos(s, d).to_multiset() == s.to_multiset().insert(d),
    decreases s.len(),
{
    broadcast use vstd::seq_lib::to_multiset_build, vstd::seq_lib::to_multiset_contains;
    if s.len() == 0 {
        assert(s =~= Seq::<DiagnosticView>::empty());
        assert(seq![d] =~= s.push(d));
    } else {
        let t = s.drop_last();
        assert(s =~= t.push(s.last()));
        if pos_before(d, s.last()) {
            lemma_insert_by_pos_facts(t, d);
            let r = insert_by_pos(t, d);
            assert forall|i: int| 0 <= i < r.len() implies !pos_before(s.last(), #[trigger] r[i]) by {
                assert(r.to_multiset().count(r[i]) > 0);
                if r[i] != d {
                    assert(t.to_multiset().count(r[i]) > 0);
                    let j = choose|j: int| 0 <= j < t.len() && t[j] == r[i];
                    assert(s[j] == t[j]);
                }
            }
        } else {
            assert forall|i: int| 0 <= i < s.len() implies !pos_before(d, #[trigger] s[i]) by {
                if i < s.len() - 1 {
                    assert(!pos_before(s[s.len() - 1], s[i]));
                }
            }
        }
    }
}

/// The sort puts the diagnostics in order of position and keeps every one of them.
pub proof fn lemma_sort_by_pos(s: Seq<DiagnosticView>)
    ensures
        sorted_by_pos(sort_by_pos(s)),
        sort_by_pos(s).to_multiset() == s.to_multiset(),
    decreases s.len(),
{
    broadcast use vstd::seq_lib::to_multiset_build;
    if s.len() == 0 {
        assert(s =~= Seq::<DiagnosticView>::empty());
    } else {
        lemma_sort_by_pos(s.drop_last());
        lemma_insert_by_pos_facts(sort_by_pos(s.drop_last()), s.last());
        assert(s =~= s.drop_last().push(s.last()));
    }
}

/// Sorts by ascending (line, column), keeping the order of diagnostics at one position.
pub fn sort_diagnostics(ds: Vec<Diagnostic>) -> (r: Vec<Diagnostic>)
    ensures
        diags_view(r@) == sort_by_pos(diags_view(ds@)),
{
    let ghost orig = diags_view(ds@);
    let mut rest = ds;
    let mut out: Vec<Diagnostic> = Vec::new();
    let mut k: usize = 0;
    let n = rest.len();
    assert(orig.take(0) =~= Seq::<DiagnosticView>::empty());
    assert(diags_view(out@) =~= Seq::<DiagnosticView>::empty());
    assert(diags_view(rest@) =~= orig.skip(0));
    while k < n
        invariant
            n == orig.len(),
            k <= n,
            diags_view(rest@) == orig.skip(k as int),
            rest@.len() == n - k,
            diags_view(out@) == sort_by_pos(orig.take(k as int)),
        decreases n - k,
    {
        let ghost sorted = diags_view(out@);
        let ghost prev_rest = rest@;
        let d = rest.remove(0);
        assert(diags_view(rest@) =~= diags_view(prev_rest).drop_first());
        assert(diags_view(prev_rest)[0] == orig[k as int]);
        assert(diags_view(rest@) =~= orig.skip(k + 1));
        assert(d@ == orig[k as int]);
        let mut p: usize = out.len();
        while p > 0 && before(&d, &out[p - 1])
            invariant
                p <= out@.len(),
                sorted == diags_view(out@),
                forall|j: int| p <= j < sorted.len() ==> pos_before(d@, #[trigger] sorted[j]),
            decreases p,
        {
            p -= 1;
        }
        proof {
            lemma_insert_by_pos(sorted, d@, p as int);
            assert(orig.take(k + 1).drop_last() =~= orig.take(k as int));
        }
        let ghost dv = d@;
        out.insert(p, d);
        assert(diags_view(out@) =~= sorted.insert(p as int, dv));
        k += 1;
    }
    assert(orig.take(n as int) =~= orig);
    out
}

fn before(a: &Diagnostic, b: &Diagnostic) -> (r: bool)
    ensures
        r == pos_before(a@, b@),
{
    a.line < b.line || (a.line == b.line && a.column < b.column)
}

/// Runs every rule, built-in or not, and returns their diagnostics sorted by position.
pub fn check_makefile<R: Rule>(rules: &[R], makefile: &Makefile, content: &str) -> (r: Vec<Diagnostic>)
    ensures
        diags_view(r@) == sort_by_pos(all_findings(rules@, makefile@, content@)),
{
    let ghost f = |r: R| r.findings(makefile@, content@);
    let mut all: Vec<Diagnostic> = Vec::new();
    let mut i: usize = 0;
    proof {
        lemma_concat_map_all(rules@, f);
    }
    assert(diags_view(all@) =~= Seq::<DiagnosticView>::empty());
    while i < rules.len()
        invariant
            i <= rules@.len(),
            f == (|r: R| r.findings(makefile@, content@)),
            diags_view(all@) == concat_map(rules@.take(i as int), f),
        decreases rules.len() - i,
    {
        append_all(&mut all, rules[i].check(makefile, content));
        proof {
            lemma_concat_map_step(rules@, f, i as int);
        }
        i += 1;
    }
    proof {
        lemma_concat_map_all(rules@, f);
    }
    sort_diagnostics(all)
}

/// A rule's entry in a configuration: its id, whether it is enabled, and the
/// options that the rule reads (a maximum line length, a naming style).
#[derive(Debug, Clone)]
pub struct RuleSetting {
    pub id: String,
    pub enabled: bool,
    pub max_length: Option<usize>,
    pub style: Option<NamingStyle>,
}

/// No entry for `id` disables it; a rule without an entry stays enabled.
pub open spec fn enabled_by(settings: Seq<RuleSetting>, id: Seq<char>) -> bool {
    forall|i: int| 0 <= i < settings.len() && (#[trigger] settings[i]).id@ == id ==> settings[i].enabled
}

/// The maximum length that the first entry for `id` giving one sets, from index `i` on.
pub open spec fn max_length_from(settings: Seq<RuleSetting>, id: Seq<char>, i: int) -> Option<usize>
    decreases settings.len() - i,
{
    if i < 0 || i >= settings.len() {
        None
    } else if settings[i].id@ == id && settings[i].max_length is Some {
        settings[i].max_length
    } else {
        max_length_from(settings, id, i + 1)
    }
}

/// The naming style that the first entry for `id` giving one sets, from index `i` on.
pub open spec fn style_from(settings: Seq<RuleSetting>, id: Seq<char>, i: int) -> Option<NamingStyle>
    decreases settings.len() - i,
{
    if i < 0 || i >= settings.len() {
        None
    } else if settings[i].id@ == id && settings[i].style is Some {
        settings[i].style
    } else {
        style_from(settings, id, i + 1)
    }
}

/// A catalog rule with the options of its settings bound into it.
pub open spec fn configured(r: LintRule, settings: Seq<RuleSetting>) -> LintRule {
    match r {
        LintRule::LineLength(_) => match max_length_from(settings, r.spec_id(), 0) {
            Some(n) => LintRule::LineLength(LineLength { max_length: n }),
            None => r,
        },
        LintRule::VariableNaming(_) => match style_from(settings, r.spec_id(), 0) {
            Some(st) => LintRule::VariableNaming(VariableNaming { style: st }),
            None => r,
        },
        LintRule::TargetNaming(_) => match style_from(settings, r.spec_id(), 0) {
            Some(st) => LintRule::TargetNaming(TargetNaming { style: st }),
            None => r,
        },
        _ => r,
    }
}

/// The rules of `rs` that the settings leave enabled, in order, each with its options.
pub open spec fn enabled_rules(rs: Seq<LintRule>, settings: Seq<RuleSetting>) -> Seq<LintRule>
    decreases rs.len(),
{
    if rs.len() == 0 {
        Seq::empty()
    } else if enabled_by(settings, rs.last().spec_id()) {
        enabled_rules(rs.drop_last(), settings).push(configured(rs.last(), settings))
    } else {
        enabled_rules(rs.drop_last(), settings)
    }
}

fn is_enabled(settings: &[RuleSetting], id: &str) -> (r: bool)
    ensures
        r == enabled_by(settings@, id@),
{
    let mut i: usize = 0;
    while i < settings.len()
        invariant
            i <= settings@.len(),
            forall|j: int| 0 <= j < i && (#[trigger] settings@[j]).id@ == id@ ==> settings@[j].enabled,
        decreases settings.len() - i,
    {
        if !settings[i].enabled && same_chars(settings[i].id.as_str(), id) {
            return false;
        }
        i += 1;
    }
    true
}

fn max_length_for(settings: &[RuleSetting], id: &str) -> (r: Option<usize>)
    ensures
        r == max_length_from(settings@, id@, 0),
{
    let mut i: usize = 0;
    while i < settings.len()
        invariant
            i <= settings@.len(),
            max_length_from(settings@, id@, i as int) == max_length_from(settings@, id@, 0),
        decreases settings.len() - i,
    {
        if settings[i].max_length.is_some() && same_chars(settings[i].id.as_str(), id) {
            return settings[i].max_length;
        }
        i += 1;
    }
    None
}

fn style_for(settings: &[RuleSetting], id: &str) -> (r: Option<NamingStyle>)
    ensures
        r == style_from(settings@, id@, 0),
{
    let mut i: usize = 0;
    while i < settings.len()
        invariant
            i <= settings@.len(),
            style_from(settings@, id@, i as int) == style_from(settings@, id@, 0),
        decreases settings.len() - i,
    {
        if settings[i].style.is_some() && same_chars(settings[i].id.as_str(), id) {
            return settings[i].style;
        }
        i += 1;
    }
    None
}

fn configure(r: LintRule, settings: &[RuleSetting]) -> (out: LintRule)
    ensures
        out == configured(r, settings@),
{
    match r {
        LintRule::LineLength(_) => match max_length_for(settings, r.id()) {
            Some(n) => LintRule::LineLength(LineLength::new(n)),
            None => r,
        },
        LintRule::VariableNaming(_) => match style_for(settings, r.id()) {
            Some(st) => LintRule::VariableNaming(VariableNaming::new(st)),
            None => r,
        },
        LintRule::TargetNaming(_) => match style_for(settings, r.id()) {
            Some(st) => LintRule::TargetNaming(TargetNaming::new(st)),
            None => r,
        },
        _ => r,
    }
}

/// The catalog, less the rules that the settings disable, with the options of
/// the settings bound into the rules that read them.
pub fn configured_rules(settings: &[RuleSetting]) -> (r: Vec<LintRule>)
    ensures
        r@ == enabled_rules(all_rules(), settings@),
{
    let rules = get_all_rules();
    let mut out: Vec<LintRule> = Vec::new();
    let mut i: usize = 0;
    assert(all_rules().take(0) =~= Seq::<LintRule>::empty());
    while i < rules.len()
        invariant
            rules@ == all_rules(),
            i <= rules@.len(),
            out@ == enabled_rules(all_rules().take(i as int), settings@),
        decreases rules.len() - i,
    {
        assert(all_rules().take(i + 1).drop_last() =~= all_rules().take(i as int));
        let rule = rules[i];
        if is_enabled(settings, rule.id()) {
            out.push(configure(rule, settings));
        }
        i += 1;
    }
    assert(all_rules().take(i as int) =~= all_rules());
    out
}

pub open spec fn ends_with(s: Seq<char>, p: Seq<char>) -> bool {
    p.len() <= s.len() && s.skip(s.len() - p.len()) == p
}

fn ends_with_text(s: &str, p: &str) -> (r: bool)
    ensures
        r == ends_with(s@, p@),
{
    let a = chars_of(s);
    let b = chars_of(p);
    if b.len() > a.len() {
        return false;
    }
    let off = a.len() - b.len();
    let mut i: usize = 0;
    while i < b.len()
        invariant
            a@ == s@,
            b@ == p@,
            off == a.len() - b.len(),
            i <= b.len(),
            forall|j: int| 0 <= j < i ==> a@[off + j] == b@[j],
        decreases b.len() - i,
    {
        if a[off + i] != b[i] {
            assert(a@.skip(off as int)[i as int] != b@[i as int]);
            return false;
        }
        i += 1;
    }
    assert(a@.skip(off as int) =~= b@);
    true
}

/// Whether a file name is one that Make reads: `Makefile`, `makefile`,
/// `GNUmakefile`, or a name ending in `.mk` or `.make`.
pub fn is_makefile(name: &str) -> (r: bool)
    ensures
        r == (name@ == "Makefile"@ || name@ == "makefile"@ || name@ == "GNUmakefile"@
            || ends_with(name@, ".mk"@) || ends_with(name@, ".make"@)),
{
    same_chars(name, "Makefile") || same_chars(name, "makefile") || same_chars(name, "GNUmakefile")
        || ends_with_text(name, ".mk") || ends_with_text(name, ".make")
}

} // verus!
