//! The line-oriented parser: one forward pass over the lines of the text.
use vstd::prelude::*;
pub use crate::model::{AssignmentType, Comment, Include, Makefile, Recipe, Rule, Variable};
use crate::model::{
    CommentView, IncludeView, MakefileView, RecipeView, RuleView, VariableView, comments_view,
    empty_model, includes_view, lemma_name_index_from, name_index, recipes_view, rules_view,
    var_insert,
};
use crate::text::{
    byte_len, column_after, lemma_byte_len_prefix, prefix_bytes,
    chars_of, contains, contains_vec, decimal, decimal_string, find, find_vec, is_space, lead_len,
    lines, lines_vec, lines_view, slice_vec, starts_with, starts_with_vec, string_of, strings_of,
    strings_view, trim, trim_start, trim_start_vec, trim_vec, words, words_vec,
};

verus! {

/// The one fatal parse condition: a variable assignment that does not split
/// into a non-empty name part and a non-empty value part.
#[derive(Debug, Clone, Copy, PartialEq, Eq, Structural)]
pub struct ParseError {
    /// 1-based line of the assignment.
    pub line: usize,
}

impl ParseError {
    /// The error as a sentence that names the line.
    pub fn message(&self) -> (r: String)
        ensures
            r@ == "Invalid variable assignment at line "@ + decimal(self.line as nat),
    {
        let mut s = String::from_str("Invalid variable assignment at line ");
        s.append(decimal_string(self.line).as_str());
        s
    }
}

pub open spec fn kw_include() -> Seq<char> {
    seq!['i', 'n', 'c', 'l', 'u', 'd', 'e', ' ']
}

pub open spec fn kw_opt_include() -> Seq<char> {
    seq!['-', 'i', 'n', 'c', 'l', 'u', 'd', 'e', ' ']
}

pub open spec fn kw_export() -> Seq<char> {
    seq!['e', 'x', 'p', 'o', 'r', 't', ' ']
}

pub open spec fn kw_phony() -> Seq<char> {
    seq!['.', 'P', 'H', 'O', 'N', 'Y', ':']
}

/// The number of leading white-space characters of a line.
pub open spec fn lead(l: Seq<char>) -> int {
    l.len() - trim_start(l).len()
}

/// The 1-based column, in bytes of UTF-8, of the first non-blank character of
/// a line (saturated at the largest `usize`).
pub open spec fn column_of(l: Seq<char>) -> usize {
    column_after(byte_len(l.take(lead(l))))
}

/// A line that starts with a tab or a space.
pub open spec fn is_indented(l: Seq<char>) -> bool {
    l.len() > 0 && (l[0] == '\t' || l[0] == ' ')
}

pub open spec fn strip_hashes(s: Seq<char>) -> Seq<char>
    decreases s.len(),
{
    if s.len() > 0 && s[0] == '#' {
        strip_hashes(s.drop_first())
    } else {
        s
    }
}

/// The comment on line index `n`.
pub open spec fn comment_of(l: Seq<char>, n: int) -> CommentView {
    CommentView {
        text: trim_start(strip_hashes(trim_start(l))),
        line: (n + 1) as usize,
        column: column_of(l),
    }
}

/// The include directive on line index `n`.
pub open spec fn include_of(l: Seq<char>, n: int) -> IncludeView {
    let t = trim_start(l);
    let optional = starts_with(t, kw_opt_include());
    IncludeView {
        path: trim(t.skip(if optional { 9 } else { 8 })),
        optional,
        line: (n + 1) as usize,
        column: column_of(l),
    }
}

/// The recipe on line index `n`: markers `@` then `-` stripped from its command.
pub open spec fn recipe_of(l: Seq<char>, n: int) -> RecipeView {
    let t = trim_start(l);
    let silent = t.len() > 0 && t[0] == '@';
    let c1 = if silent {
        t.drop_first()
    } else {
        t
    };
    let ignore = c1.len() > 0 && c1[0] == '-';
    RecipeView {
        command: if ignore {
            c1.drop_first()
        } else {
            c1
        },
        silent,
        ignore_error: ignore,
        line: (n + 1) as usize,
        column: 1,
        indentation: l.take(lead(l)),
    }
}

/// The recipes of a rule body from line index `k` on, after those in `acc`, and
/// the index of the first line after the body.
pub open spec fn body_from(ls: Seq<Seq<char>>, k: int, acc: Seq<RecipeView>) -> (Seq<RecipeView>, int)
    decreases ls.len() - k,
{
    if k < 0 || k >= ls.len() {
        (acc, k)
    } else if is_indented(ls[k]) {
        body_from(ls, k + 1, acc.push(recipe_of(ls[k], k)))
    } else if trim_start(ls[k]).len() == 0 {
        body_from(ls, k + 1, acc)
    } else {
        (acc, k)
    }
}

pub open spec fn ends_with_backslash(l: Seq<char>) -> bool {
    l.len() > 0 && l.last() == '\\'
}

/// A value continued from line index `k` on, and the index of its last line.
pub open spec fn continued(ls: Seq<Seq<char>>, k: int, v: Seq<char>) -> (Seq<char>, int)
    decreases ls.len() - k,
{
    if 0 <= k && k + 1 < ls.len() && ends_with_backslash(ls[k]) {
        continued(
            ls,
            k + 1,
            (if v.len() > 0 {
                v.drop_last()
            } else {
                v
            }) + trim_start(ls[k + 1]),
        )
    } else {
        (v, k)
    }
}

/// The assignment operator that a line uses, tried longest first.
pub open spec fn operator_of(content: Seq<char>) -> (AssignmentType, Seq<char>) {
    if contains(content, seq![':', '=']) {
        (AssignmentType::Recursive, seq![':', '='])
    } else if contains(content, seq!['?', '=']) {
        (AssignmentType::Conditional, seq!['?', '='])
    } else if contains(content, seq!['+', '=']) {
        (AssignmentType::Append, seq!['+', '='])
    } else {
        (AssignmentType::Simple, seq!['='])
    }
}

/// A variable assignment: it holds an operator (each holds `=`), and either no
/// `:`, or its first `=` comes before its first `:`, or its first `:` starts `:=`.
pub open spec fn is_assignment(l: Seq<char>) -> bool {
    let e = find(l, seq!['=']);
    let c = find(l, seq![':']);
    e >= 0 && (c < 0 || e < c || e == c + 1)
}

/// One parser step: the cursor after the construct at line index `cur`, and the model with it.
pub type Step = Result<(int, MakefileView), usize>;

/// The variable assignment at line index `cur`.
pub open spec fn variable_step(ls: Seq<Seq<char>>, cur: int, m: MakefileView) -> Step {
    let l = ls[cur];
    let t = trim_start(l);
    let export = starts_with(t, kw_export());
    let content = if export {
        trim(t.skip(7))
    } else {
        t
    };
    let kind = operator_of(content).0;
    let sep = operator_of(content).1;
    let p = find(content, sep);
    if p <= 0 || p + sep.len() >= content.len() {
        Err((cur + 1) as usize)
    } else {
        let (value, last) = continued(ls, cur, trim(content.skip(p + sep.len())));
        let v = VariableView {
            name: trim(content.take(p)),
            value,
            assignment_type: kind,
            line: (cur + 1) as usize,
            column: column_of(l),
            export,
        };
        Ok((last + 1, MakefileView { variables: var_insert(m.variables, v), ..m }))
    }
}

/// The rule whose header is at line index `cur`, with its body.
pub open spec fn rule_step(ls: Seq<Seq<char>>, cur: int, m: MakefileView) -> Step {
    let l = ls[cur];
    let c = find(l, seq![':']);
    let (recipes, end) = body_from(ls, cur + 1, Seq::empty());
    let r = RuleView {
        targets: words(l.take(c)),
        prerequisites: words(l.skip(c + 1)),
        recipes,
        line: (cur + 1) as usize,
        column: column_of(l),
    };
    Ok((end, MakefileView { rules: m.rules.push(r), ..m }))
}

/// What the parser does with the line at index `cur`.
pub open spec fn step(ls: Seq<Seq<char>>, cur: int, m: MakefileView) -> Step {
    let l = ls[cur];
    let t = trim_start(l);
    if t.len() == 0 {
        Ok((cur + 1, m))
    } else if t[0] == '#' {
        Ok((cur + 1, MakefileView { comments: m.comments.push(comment_of(l, cur)), ..m }))
    } else if starts_with(t, kw_include()) || starts_with(t, kw_opt_include()) {
        Ok((cur + 1, MakefileView { includes: m.includes.push(include_of(l, cur)), ..m }))
    } else if starts_with(t, kw_export()) {
        if contains(t.skip(7), seq!['=']) {
            variable_step(ls, cur, m)
        } else {
            Ok((cur + 1, MakefileView { exports: m.exports + words(t.skip(7)), ..m }))
        }
    } else if starts_with(t, kw_phony()) {
        Ok((cur + 1, MakefileView { phonies: m.phonies + words(t.skip(7)), ..m }))
    } else if is_assignment(l) {
        variable_step(ls, cur, m)
    } else if contains(l, seq![':']) && !is_indented(l) {
        rule_step(ls, cur, m)
    } else {
        Ok((cur + 1, m))
    }
}

/// The model that the lines from index `cur` on add to `m`.
pub open spec fn parse_from(ls: Seq<Seq<char>>, cur: int, m: MakefileView) -> Result<
    MakefileView,
    usize,
>
    decreases ls.len() - cur,
{
    if cur < 0 || cur >= ls.len() {
        Ok(m)
    } else {
        match step(ls, cur, m) {
            Err(e) => Err(e),
            Ok((next, m2)) => if cur < next <= ls.len() {
                parse_from(ls, next, m2)
            } else {
                Ok(m2)
            },
        }
    }
}

/// The model of a whole text, or the line of its malformed assignment.
pub open spec fn parse_spec(content: Seq<char>) -> Result<MakefileView, usize> {
    parse_from(lines(content), 0, empty_model())
}

/// Parsing the empty text never fails and gives the empty model.
pub proof fn lemma_parse_empty()
    ensures
        parse_spec(Seq::<char>::empty()) == Ok::<MakefileView, usize>(empty_model()),
{
    assert(lines(Seq::<char>::empty()) == Seq::<Seq<char>>::empty());
}

/// (`line`, `column`), both 1-based, is the first non-blank character of a line of `ls`.
pub open spec fn at_first_char(ls: Seq<Seq<char>>, line: usize, column: usize) -> bool {
    &&& 1 <= line <= ls.len()
    &&& lead(ls[line - 1]) < ls[line - 1].len()
    &&& column == byte_len(ls[line - 1].take(lead(ls[line - 1]))) + 1
}

/// The rule's line is its header: not indented, holding a `:`, with the rule's
/// targets before the first `:` and its prerequisites after it.
pub open spec fn is_header_of(ls: Seq<Seq<char>>, r: RuleView) -> bool {
    let l = ls[r.line - 1];
    &&& !is_indented(l)
    &&& contains(l, seq![':'])
    &&& r.targets == words(l.take(find(l, seq![':'])))
    &&& r.prerequisites == words(l.skip(find(l, seq![':']) + 1))
}

/// A recipe's position is the first column of an indented line of `ls`, and
/// that line is its indentation, its markers and its command, in that order.
pub open spec fn recipe_at(ls: Seq<Seq<char>>, r: RecipeView) -> bool {
    &&& 1 <= r.line <= ls.len()
    &&& r.column == 1
    &&& is_indented(ls[r.line - 1])
    &&& ls[r.line - 1] == r.indentation + (if r.silent {
        seq!['@']
    } else {
        Seq::empty()
    }) + (if r.ignore_error {
        seq!['-']
    } else {
        Seq::empty()
    }) + r.command
}

proof fn lemma_recipe_rebuilds_line(l: Seq<char>, n: int)
    ensures
        ({
            let r = recipe_of(l, n);
            l == r.indentation + (if r.silent {
                seq!['@']
            } else {
                Seq::empty()
            }) + (if r.ignore_error {
                seq!['-']
            } else {
                Seq::empty()
            }) + r.command
        }),
{
    lemma_trim_start_skip(l);
    let r = recipe_of(l, n);
    let t = trim_start(l);
    let c1 = if r.silent {
        t.drop_first()
    } else {
        t
    };
    assert(l =~= l.take(lead(l)) + t);
    assert(t =~= (if r.silent {
        seq!['@']
    } else {
        Seq::empty()
    }) + c1);
    assert(c1 =~= (if r.ignore_error {
        seq!['-']
    } else {
        Seq::empty()
    }) + r.command);
    assert(l =~= r.indentation + (if r.silent {
        seq!['@']
    } else {
        Seq::empty()
    }) + (if r.ignore_error {
        seq!['-']
    } else {
        Seq::empty()
    }) + r.command);
}

/// Every position in `m` is 1-based and points where a naive count over the
/// lines `ls` finds the construct.
pub open spec fn positions_hold(ls: Seq<Seq<char>>, m: MakefileView) -> bool {
    &&& forall|i: int|
        0 <= i < m.rules.len() ==> at_first_char(ls, (#[trigger] m.rules[i]).line, m.rules[i].column)
            && is_header_of(ls, m.rules[i])
    &&& forall|i: int, j: int|
        0 <= i < m.rules.len() && 0 <= j < m.rules[i].recipes.len() ==> recipe_at(
            ls,
            #[trigger] m.rules[i].recipes[j],
        )
    &&& forall|i: int|
        0 <= i < m.comments.len() ==> at_first_char(ls, (#[trigger] m.comments[i]).line, m.comments[i].column)
            && ls[m.comments[i].line - 1][lead(ls[m.comments[i].line - 1])] == '#'
    &&& forall|i: int|
        0 <= i < m.includes.len() ==> at_first_char(ls, (#[trigger] m.includes[i]).line, m.includes[i].column)
    &&& forall|i: int|
        0 <= i < m.variables.len() ==> at_first_char(
            ls,
            (#[trigger] m.variables[i]).line,
            m.variables[i].column,
        )
}

/// Every line, and the number of lines, fits below the largest `usize`.
pub open spec fn lines_fit(ls: Seq<Seq<char>>) -> bool {
    ls.len() < usize::MAX && forall|k: int|
        0 <= k < ls.len() ==> (#[trigger] ls[k]).len() < usize::MAX && byte_len(ls[k]) < usize::MAX
}

proof fn lemma_trim_start_skip(l: Seq<char>)
    ensures
        trim_start(l) == l.skip(lead(l)),
        0 <= lead(l) <= l.len(),
    decreases l.len(),
{
    if l.len() > 0 && is_space(l[0]) {
        lemma_trim_start_skip(l.drop_first());
        assert(l.drop_first().skip(lead(l.drop_first())) =~= l.skip(lead(l)));
    } else {
        assert(l.skip(0) =~= l);
    }
}

proof fn lemma_body_positions(ls: Seq<Seq<char>>, k: int, acc: Seq<RecipeView>)
    requires
        lines_fit(ls),
        0 <= k,
        forall|j: int| 0 <= j < acc.len() ==> recipe_at(ls, #[trigger] acc[j]),
    ensures
        forall|j: int| 0 <= j < body_from(ls, k, acc).0.len() ==> recipe_at(ls, #[trigger] body_from(ls, k, acc).0[j]),
        k <= ls.len() ==> k <= body_from(ls, k, acc).1 <= ls.len(),
    decreases ls.len() - k,
{
    if k < ls.len() {
        if is_indented(ls[k]) {
            let next = acc.push(recipe_of(ls[k], k));
            lemma_recipe_rebuilds_line(ls[k], k);
            assert(recipe_at(ls, recipe_of(ls[k], k)));
            assert forall|j: int| 0 <= j < next.len() implies recipe_at(ls, #[trigger] next[j]) by {
                if j < acc.len() {
                    assert(next[j] == acc[j]);
                }
            }
            lemma_body_positions(ls, k + 1, next);
            assert(body_from(ls, k, acc) == body_from(ls, k + 1, next));
        } else if trim_start(ls[k]).len() == 0 {
            lemma_body_positions(ls, k + 1, acc);
            assert(body_from(ls, k, acc) == body_from(ls, k + 1, acc));
        }
    }
}

proof fn lemma_var_insert_positions(ls: Seq<Seq<char>>, vs: Seq<VariableView>, v: VariableView)
    requires
        forall|i: int| 0 <= i < vs.len() ==> at_first_char(ls, (#[trigger] vs[i]).line, vs[i].column),
        at_first_char(ls, v.line, v.column),
    ensures
        forall|i: int|
            0 <= i < var_insert(vs, v).len() ==> at_first_char(
                ls,
                (#[trigger] var_insert(vs, v)[i]).line,
                var_insert(vs, v)[i].column,
            ),
{
    let r = var_insert(vs, v);
    let idx = name_index(vs, v.name);
    lemma_name_index_from(vs, v.name, 0);
    assert forall|i: int| 0 <= i < r.len() implies at_first_char(ls, (#[trigger] r[i]).line, r[i].column) by {
        if idx >= 0 {
            if i != idx {
                assert(r[i] == vs[i]);
            }
        } else if i < vs.len() {
            assert(r[i] == vs[i]);
        }
    }
}

proof fn lemma_variable_positions(ls: Seq<Seq<char>>, cur: int, m: MakefileView)
    requires
        lines_fit(ls),
        0 <= cur < ls.len(),
        positions_hold(ls, m),
        trim_start(ls[cur]).len() > 0,
    ensures
        variable_step(ls, cur, m) is Ok ==> positions_hold(ls, variable_step(ls, cur, m)->Ok_0.1),
{
    let l = ls[cur];
    let t = trim_start(l);
    lemma_trim_start_skip(l);
    let export = starts_with(t, kw_export());
    let content = if export {
        trim(t.skip(7))
    } else {
        t
    };
    let kind = operator_of(content).0;
    let sep = operator_of(content).1;
    let p = find(content, sep);
    if !(p <= 0 || p + sep.len() >= content.len()) {
        let (value, last) = continued(ls, cur, trim(content.skip(p + sep.len())));
        let v = VariableView {
            name: trim(content.take(p)),
            value,
            assignment_type: kind,
            line: (cur + 1) as usize,
            column: column_of(l),
            export,
        };
        lemma_byte_len_prefix(l, lead(l), l.len() as int);
        assert(l.take(l.len() as int) =~= l);
        assert(at_first_char(ls, v.line, v.column));
        lemma_var_insert_positions(ls, m.variables, v);
    }
}

proof fn lemma_step_positions(ls: Seq<Seq<char>>, cur: int, m: MakefileView)
    requires
        lines_fit(ls),
        0 <= cur < ls.len(),
        positions_hold(ls, m),
    ensures
        step(ls, cur, m) is Ok ==> positions_hold(ls, step(ls, cur, m)->Ok_0.1),
        step(ls, cur, m) is Ok ==> cur < step(ls, cur, m)->Ok_0.0 <= ls.len(),
{
    let l = ls[cur];
    let t = trim_start(l);
    lemma_trim_start_skip(l);
    if t.len() == 0 {
        return;
    }
    assert(t[0] == l[lead(l)]);
    let line = (cur + 1) as usize;
    let col = column_of(l);
    lemma_byte_len_prefix(l, lead(l), l.len() as int);
    assert(l.take(l.len() as int) =~= l);
    assert(at_first_char(ls, line, col));
    if t[0] == '#' {
        let m2 = MakefileView { comments: m.comments.push(comment_of(l, cur)), ..m };
        assert forall|i: int| 0 <= i < m2.comments.len() implies at_first_char(
            ls,
            (#[trigger] m2.comments[i]).line,
            m2.comments[i].column,
        ) && ls[m2.comments[i].line - 1][lead(ls[m2.comments[i].line - 1])] == '#' by {
            if i < m.comments.len() {
                assert(m2.comments[i] == m.comments[i]);
            }
        }
    } else if starts_with(t, kw_include()) || starts_with(t, kw_opt_include()) {
        let m2 = MakefileView { includes: m.includes.push(include_of(l, cur)), ..m };
        assert forall|i: int| 0 <= i < m2.includes.len() implies at_first_char(
            ls,
            (#[trigger] m2.includes[i]).line,
            m2.includes[i].column,
        ) by {
            if i < m.includes.len() {
                assert(m2.includes[i] == m.includes[i]);
            }
        }
    } else if starts_with(t, kw_export()) {
        if contains(t.skip(7), seq!['=']) {
            lemma_variable_positions(ls, cur, m);
            lemma_variable_cursor(ls, cur, m);
        }
    } else if starts_with(t, kw_phony()) {
    } else if is_assignment(l) {
        lemma_variable_positions(ls, cur, m);
        lemma_variable_cursor(ls, cur, m);
    } else if contains(l, seq![':']) && !is_indented(l) {
        let (recipes, end) = body_from(ls, cur + 1, Seq::empty());
        lemma_body_positions(ls, cur + 1, Seq::empty());
        assert(step(ls, cur, m) == rule_step(ls, cur, m));
        let m2 = step(ls, cur, m)->Ok_0.1;
        assert(m2.rules == m.rules.push(m2.rules.last()));
        assert forall|i: int, j: int|
            0 <= i < m2.rules.len() && 0 <= j < m2.rules[i].recipes.len() implies recipe_at(
            ls,
            #[trigger] m2.rules[i].recipes[j],
        ) by {
            if i < m.rules.len() {
                assert(m2.rules[i] == m.rules[i]);
                assert(recipe_at(ls, m.rules[i].recipes[j]));
            } else {
                assert(m2.rules[i].recipes == body_from(ls, cur + 1, Seq::empty()).0);
                assert(recipe_at(ls, body_from(ls, cur + 1, Seq::empty()).0[j]));
            }
        }
        assert forall|i: int| 0 <= i < m2.rules.len() implies at_first_char(
            ls,
            (#[trigger] m2.rules[i]).line,
            m2.rules[i].column,
        ) && is_header_of(ls, m2.rules[i]) by {
            if i < m.rules.len() {
                assert(m2.rules[i] == m.rules[i]);
            }
        }
    }
}

proof fn lemma_continued_bound(ls: Seq<Seq<char>>, k: int, v: Seq<char>)
    requires
        0 <= k < ls.len(),
    ensures
        k <= continued(ls, k, v).1 < ls.len(),
    decreases ls.len() - k,
{
    if k + 1 < ls.len() && ends_with_backslash(ls[k]) {
        let w = (if v.len() > 0 {
            v.drop_last()
        } else {
            v
        }) + trim_start(ls[k + 1]);
        lemma_continued_bound(ls, k + 1, w);
    }
}

proof fn lemma_variable_cursor(ls: Seq<Seq<char>>, cur: int, m: MakefileView)
    requires
        0 <= cur < ls.len(),
    ensures
        variable_step(ls, cur, m) is Ok ==> cur < variable_step(ls, cur, m)->Ok_0.0 <= ls.len(),
{
    let l = ls[cur];
    let t = trim_start(l);
    let export = starts_with(t, kw_export());
    let content = if export {
        trim(t.skip(7))
    } else {
        t
    };
    let sep = operator_of(content).1;
    let p = find(content, sep);
    lemma_continued_bound(ls, cur, trim(content.skip(p + sep.len())));
}

proof fn lemma_parse_from_positions(ls: Seq<Seq<char>>, cur: int, m: MakefileView)
    requires
        lines_fit(ls),
        0 <= cur,
        positions_hold(ls, m),
    ensures
        parse_from(ls, cur, m) is Ok ==> positions_hold(ls, parse_from(ls, cur, m)->Ok_0),
    decreases ls.len() - cur,
{
    if cur < ls.len() {
        lemma_step_positions(ls, cur, m);
        match step(ls, cur, m) {
            Ok((next, m2)) => {
                lemma_parse_from_positions(ls, next, m2);
            },
            Err(_) => {},
        }
    }
}

/// All positions in a parsed model are 1-based and agree with a naive count of
/// lines and columns (bytes of UTF-8) over the text: rules, comments, includes
/// and variables point at the first non-blank character of their line, a
/// rule's line is its header, a comment's first non-blank character is its `#`,
/// and a recipe is at column 1 of its indented line, which its indentation,
/// markers and command rebuild. The bound on the text is a machine limit:
/// line numbers and columns are `usize`.
pub proof fn lemma_positions_match_text(content: Seq<char>)
    requires
        lines_fit(lines(content)),
    ensures
        parse_spec(content) is Ok ==> positions_hold(lines(content), parse_spec(content)->Ok_0),
{
    lemma_parse_from_positions(lines(content), 0, empty_model());
}

fn include_kw() -> (r: Vec<char>)
    ensures
        r@ == kw_include(),
{
    let r = vec!['i', 'n', 'c', 'l', 'u', 'd', 'e', ' '];
    assert(r@ =~= kw_include());
    r
}

fn opt_include_kw() -> (r: Vec<char>)
    ensures
        r@ == kw_opt_include(),
{
    let r = vec!['-', 'i', 'n', 'c', 'l', 'u', 'd', 'e', ' '];
    assert(r@ =~= kw_opt_include());
    r
}

fn export_kw() -> (r: Vec<char>)
    ensures
        r@ == kw_export(),
{
    let r = vec!['e', 'x', 'p', 'o', 'r', 't', ' '];
    assert(r@ =~= kw_export());
    r
}

fn phony_kw() -> (r: Vec<char>)
    ensures
        r@ == kw_phony(),
{
    let r = vec!['.', 'P', 'H', 'O', 'N', 'Y', ':'];
    assert(r@ =~= kw_phony());
    r
}

fn one_char(c: char) -> (r: Vec<char>)
    ensures
        r@ == seq![c],
{
    let r = vec![c];
    assert(r@ =~= seq![c]);
    r
}

fn two_chars(c: char, d: char) -> (r: Vec<char>)
    ensures
        r@ == seq![c, d],
{
    let r = vec![c, d];
    assert(r@ =~= seq![c, d]);
    r
}

/// `s[from..]` as a new vector.
fn tail(s: &Vec<char>, from: usize) -> (r: Vec<char>)
    requires
        from <= s.len(),
    ensures
        r@ == s@.skip(from as int),
{
    let r = slice_vec(s, from, s.len());
    assert(r@ =~= s@.skip(from as int));
    r
}

/// The column of the first non-blank character of `l`, whose leading white
/// space is `k` characters long.
fn first_column(l: &Vec<char>, k: usize) -> (r: usize)
    requires
        k <= l.len(),
        trim_start(l@) == l@.skip(k as int),
    ensures
        r == column_of(l@),
{
    let b = prefix_bytes(l, k);
    if b < usize::MAX {
        b + 1
    } else {
        usize::MAX
    }
}

fn is_assignment_line(l: &Vec<char>) -> (r: bool)
    ensures
        r == is_assignment(l@),
{
    match find_vec(l, &one_char('=')) {
        None => false,
        Some(e) => match find_vec(l, &one_char(':')) {
            None => true,
            Some(c) => e < c || (e > c && e - c == 1),
        },
    }
}

fn is_indented_line(l: &Vec<char>) -> (r: bool)
    ensures
        r == is_indented(l@),
{
    l.len() > 0 && (l[0] == '\t' || l[0] == ' ')
}

fn push_strings(dst: &mut Vec<String>, src: Vec<String>)
    ensures
        strings_view(final(dst)@) == strings_view(old(dst)@) + strings_view(src@),
{
    let ghost start = strings_view(dst@);
    let mut src = src;
    let mut i: usize = 0;
    let ghost sv = strings_view(src@);
    assert(sv.take(0) =~= Seq::<Seq<char>>::empty());
    assert(strings_view(dst@) =~= start + sv.take(0));
    while i < src.len()
        invariant
            i <= src@.len(),
            sv == strings_view(src@),
            strings_view(dst@) == start + sv.take(i as int),
        decreases src.len() - i,
    {
        let ghost prev = dst@;
        let s = string_of(chars_of(src[i].as_str()).as_slice());
        dst.push(s);
        assert(strings_view(dst@) =~= strings_view(prev).push(sv[i as int]));
        assert(sv.take(i + 1) =~= sv.take(i as int).push(sv[i as int]));
        i += 1;
    }
    assert(sv.take(i as int) =~= sv);
}

/// The number of leading `#` of `t`.
fn hashes_len(t: &Vec<char>) -> (r: usize)
    ensures
        r <= t.len(),
        strip_hashes(t@) == t@.skip(r as int),
{
    let mut i: usize = 0;
    assert(t@.skip(0) =~= t@);
    while i < t.len() && t[i] == '#'
        invariant
            i <= t.len(),
            strip_hashes(t@.skip(i as int)) == strip_hashes(t@),
        decreases t.len() - i,
    {
        assert(t@.skip(i as int).drop_first() =~= t@.skip(i + 1));
        i += 1;
    }
    i
}

fn make_recipe(l: &Vec<char>, n: usize) -> (r: Recipe)
    requires
        n < usize::MAX,
    ensures
        r@ == recipe_of(l@, n as int),
{
    let k = lead_len(l);
    let t = tail(l, k);
    let silent = t.len() > 0 && t[0] == '@';
    let c1 = if silent {
        tail(&t, 1)
    } else {
        t
    };
    let ignore = c1.len() > 0 && c1[0] == '-';
    let c2 = if ignore {
        tail(&c1, 1)
    } else {
        c1
    };
    let ind = slice_vec(l, 0, k);
    assert(ind@ =~= l@.take(lead(l@)));
    Recipe {
        command: string_of(c2.as_slice()),
        silent,
        ignore_error: ignore,
        line: n + 1,
        column: 1,
        indentation: string_of(ind.as_slice()),
    }
}

struct Parser {
    lines: Vec<Vec<char>>,
    current_line: usize,
    makefile: Makefile,
}

impl Parser {
    spec fn lv(&self) -> Seq<Seq<char>> {
        lines_view(self.lines@)
    }

    spec fn cur_trimmed(&self) -> Seq<char> {
        trim_start(self.lv()[self.current_line as int])
    }

    spec fn ready(&self) -> bool {
        &&& self.current_line < self.lines@.len()
        &&& self.makefile.variables.wf()
    }

    /// The parser after a step whose outcome is `s`.
    spec fn after(&self, s: Step, r: Result<(), ParseError>, before: Parser) -> bool {
        &&& self.lines@ == before.lines@
        &&& self.makefile.variables.wf()
        &&& match r {
            Ok(_) => s == Ok::<(int, MakefileView), usize>(
                (self.current_line as int, self.makefile@),
            ),
            Err(e) => s == Err::<(int, MakefileView), usize>(e.line) && self.makefile@
                == before.makefile@,
        }
    }

    fn parse_comment(&mut self)
        requires
            old(self).ready(),
            old(self).cur_trimmed().len() > 0,
        ensures
            final(self).lines@ == old(self).lines@,
            final(self).makefile.variables.wf(),
            final(self).current_line == old(self).current_line + 1,
            final(self).makefile@ == (MakefileView {
                comments: old(self).makefile@.comments.push(
                    comment_of(old(self).lv()[old(self).current_line as int], old(self).current_line as int),
                ),
                ..old(self).makefile@
            }),
    {
        let cur = self.current_line;
        let n = self.lines.len();
        assert(cur < n);
        let l = &self.lines[cur];
        let k = lead_len(l);
        let t = tail(l, k);
        let h = hashes_len(&t);
        let text = trim_start_vec(&tail(&t, h));
        let c = Comment { text: string_of(text.as_slice()), line: cur + 1, column: first_column(l, k) };
        let ghost prev = self.makefile.comments@;
        self.makefile.comments.push(c);
        assert(comments_view(self.makefile.comments@) =~= comments_view(prev).push(c@));
        self.current_line = cur + 1;
    }

    fn parse_include(&mut self)
        requires
            old(self).ready(),
            starts_with(old(self).cur_trimmed(), kw_include()) || starts_with(
                old(self).cur_trimmed(),
                kw_opt_include(),
            ),
        ensures
            final(self).lines@ == old(self).lines@,
            final(self).makefile.variables.wf(),
            final(self).current_line == old(self).current_line + 1,
            final(self).makefile@ == (MakefileView {
                includes: old(self).makefile@.includes.push(
                    include_of(old(self).lv()[old(self).current_line as int], old(self).current_line as int),
                ),
                ..old(self).makefile@
            }),
    {
        let cur = self.current_line;
        let n = self.lines.len();
        assert(cur < n);
        let l = &self.lines[cur];
        let k = lead_len(l);
        let t = tail(l, k);
        let optional = starts_with_vec(&t, &opt_include_kw());
        let skip: usize = if optional {
            9
        } else {
            8
        };
        let path = trim_vec(&tail(&t, skip));
        let inc = Include { path: string_of(path.as_slice()), optional, line: cur + 1, column: first_column(l, k) };
        let ghost prev = self.makefile.includes@;
        self.makefile.includes.push(inc);
        assert(includes_view(self.makefile.includes@) =~= includes_view(prev).push(inc@));
        self.current_line = cur + 1;
    }
    fn parse_names(&mut self, phony: bool)
        requires
            old(self).ready(),
            phony ==> starts_with(old(self).cur_trimmed(), kw_phony()),
            !phony ==> starts_with(old(self).cur_trimmed(), kw_export()),
        ensures
            final(self).lines@ == old(self).lines@,
            final(self).makefile.variables.wf(),
            final(self).current_line == old(self).current_line + 1,
            phony ==> final(self).makefile@ == (MakefileView {
                phonies: old(self).makefile@.phonies + words(old(self).cur_trimmed().skip(7)),
                ..old(self).makefile@
            }),
            !phony ==> final(self).makefile@ == (MakefileView {
                exports: old(self).makefile@.exports + words(old(self).cur_trimmed().skip(7)),
                ..old(self).makefile@
            }),
    {
        let cur = self.current_line;
        let n = self.lines.len();
        assert(cur < n);
        let l = &self.lines[cur];
        let k = lead_len(l);
        let t = tail(l, k);
        let names = strings_of(&words_vec(&tail(&t, 7)));
        if phony {
            push_strings(&mut self.makefile.phonies, names);
        } else {
            push_strings(&mut self.makefile.exports, names);
        }
        self.current_line = cur + 1;
    }

    fn parse_variable(&mut self) -> (r: Result<(), ParseError>)
        requires
            old(self).ready(),
        ensures
            final(self).after(
                variable_step(old(self).lv(), old(self).current_line as int, old(self).makefile@),
                r,
                *old(self),
            ),
            r is Ok ==> old(self).current_line < final(self).current_line <= old(self).lines@.len(),
    {
        let cur = self.current_line;
        let n = self.lines.len();
        let ghost ls = self.lv();
        let l = &self.lines[cur];
        let k = lead_len(l);
        let t = tail(l, k);
        let export = starts_with_vec(&t, &export_kw());
        let content = if export {
            trim_vec(&tail(&t, 7))
        } else {
            t
        };
        let (kind, sep) = if contains_vec(&content, &two_chars(':', '=')) {
            (AssignmentType::Recursive, two_chars(':', '='))
        } else if contains_vec(&content, &two_chars('?', '=')) {
            (AssignmentType::Conditional, two_chars('?', '='))
        } else if contains_vec(&content, &two_chars('+', '=')) {
            (AssignmentType::Append, two_chars('+', '='))
        } else {
            (AssignmentType::Simple, one_char('='))
        };
        assert(kind == operator_of(content@).0 && sep@ == operator_of(content@).1);
        let p = match find_vec(&content, &sep) {
            Some(p) => p,
            None => {
                return Err(ParseError { line: cur + 1 });
            },
        };
        if p == 0 || p + sep.len() >= content.len() {
            return Err(ParseError { line: cur + 1 });
        }
        let name = trim_vec(&slice_vec(&content, 0, p));
        assert(content@.subrange(0, p as int) =~= content@.take(p as int));
        let mut value = trim_vec(&tail(&content, p + sep.len()));
        let ghost v0 = value@;
        let mut j: usize = cur;
        while j + 1 < n && self.lines[j].len() > 0 && self.lines[j][self.lines[j].len() - 1]
            == '\\'
            invariant
                cur <= j < n,
                n == self.lines@.len(),
                ls == lines_view(self.lines@),
                continued(ls, j as int, value@) == continued(ls, cur as int, v0),
            decreases n - j,
        {
            if value.len() > 0 {
                value.pop();
            }
            j += 1;
            let rest = trim_start_vec(&self.lines[j]);
            let mut q: usize = 0;
            let ghost base = value@;
            while q < rest.len()
                invariant
                    q <= rest@.len(),
                    value@ == base + rest@.take(q as int),
                decreases rest.len() - q,
            {
                value.push(rest[q]);
                q += 1;
                assert(value@ =~= base + rest@.take(q as int));
            }
            assert(rest@.take(q as int) =~= rest@);
        }
        let v = Variable {
            name: string_of(name.as_slice()),
            value: string_of(value.as_slice()),
            assignment_type: kind,
            line: cur + 1,
            column: first_column(l, k),
            export,
        };
        self.makefile.variables.insert(v);
        self.current_line = j + 1;
        Ok(())
    }

    fn parse_rule(&mut self)
        requires
            old(self).ready(),
            contains(old(self).lv()[old(self).current_line as int], seq![':']),
            old(self).cur_trimmed().len() > 0,
        ensures
            final(self).after(
                rule_step(old(self).lv(), old(self).current_line as int, old(self).makefile@),
                Ok(()),
                *old(self),
            ),
            old(self).current_line < final(self).current_line <= old(self).lines@.len(),
    {
        let cur = self.current_line;
        let n = self.lines.len();
        let ghost ls = self.lv();
        let l = &self.lines[cur];
        let ll = l.len();
        let k = lead_len(l);
        let c = match find_vec(l, &one_char(':')) {
            Some(c) => c,
            None => 0,
        };
        assert(l@.subrange(0, c as int) =~= l@.take(c as int));
        let targets = strings_of(&words_vec(&slice_vec(l, 0, c)));
        let prerequisites = strings_of(&words_vec(&tail(l, c + 1)));
        let mut recipes: Vec<Recipe> = Vec::new();
        let mut j: usize = cur + 1;
        let mut done = false;
        assert(recipes_view(recipes@) =~= Seq::<RecipeView>::empty());
        while j < n && !done
            invariant
                cur < j <= n,
                done ==> body_from(ls, j as int, recipes_view(recipes@)) == (
                    recipes_view(recipes@),
                    j as int,
                ),
                n == self.lines@.len(),
                ls == lines_view(self.lines@),
                body_from(ls, j as int, recipes_view(recipes@)) == body_from(
                    ls,
                    cur + 1,
                    Seq::empty(),
                ),
            decreases n - j + (if done { 0int } else { 1int }),
        {
            let rl = &self.lines[j];
            if is_indented_line(rl) {
                let ghost prev = recipes@;
                let r = make_recipe(rl, j);
                recipes.push(r);
                assert(recipes_view(recipes@) =~= recipes_view(prev).push(r@));
                j += 1;
            } else if lead_len(rl) == rl.len() {
                assert(rl@.skip(rl@.len() as int) =~= Seq::<char>::empty());
                j += 1;
            } else {
                done = true;
            }
        }
        let rule = Rule { targets, prerequisites, recipes, line: cur + 1, column: first_column(l, k) };
        let ghost prev = self.makefile.rules@;
        self.makefile.rules.push(rule);
        assert(rules_view(self.makefile.rules@) =~= rules_view(prev).push(rule@));
        self.current_line = j;
    }

    fn step_line(&mut self) -> (r: Result<(), ParseError>)
        requires
            old(self).ready(),
        ensures
            final(self).after(
                step(old(self).lv(), old(self).current_line as int, old(self).makefile@),
                r,
                *old(self),
            ),
            r is Ok ==> old(self).current_line < final(self).current_line <= old(self).lines@.len(),
    {
        let cur = self.current_line;
        let n = self.lines.len();
        assert(cur < n);
        let l = &self.lines[cur];
        let k = lead_len(l);
        let t = tail(l, k);
        if t.len() == 0 {
            self.current_line = cur + 1;
            Ok(())
        } else if t[0] == '#' {
            self.parse_comment();
            Ok(())
        } else if starts_with_vec(&t, &include_kw()) || starts_with_vec(&t, &opt_include_kw()) {
            self.parse_include();
            Ok(())
        } else if starts_with_vec(&t, &export_kw()) {
            if contains_vec(&tail(&t, 7), &one_char('=')) {
                self.parse_variable()
            } else {
                self.parse_names(false);
                Ok(())
            }
        } else if starts_with_vec(&t, &phony_kw()) {
            self.parse_names(true);
            Ok(())
        } else if is_assignment_line(l) {
            self.parse_variable()
        } else if contains_vec(l, &one_char(':')) && !is_indented_line(l) {
            self.parse_rule();
            Ok(())
        } else {
            self.current_line = cur + 1;
            Ok(())
        }
    }
}

/// Parses a Makefile. The only failure is a variable assignment that does not
/// split into a non-empty name part and a non-empty value part; every other
/// line that is not understood is skipped.
pub fn parse(content: &str) -> (r: Result<Makefile, ParseError>)
    ensures
        match r {
            Ok(m) => parse_spec(content@) == Ok::<MakefileView, usize>(m@) && m.variables.wf(),
            Err(e) => parse_spec(content@) == Err::<MakefileView, usize>(e.line),
        },
{
    let cs = chars_of(content);
    let ls = lines_vec(&cs);
    let mut p = Parser { lines: ls, current_line: 0, makefile: Makefile::new() };
    let ghost lv = p.lv();
    let n = p.lines.len();
    while p.current_line < n
        invariant
            n == p.lines@.len(),
            lv == p.lv(),
            lv == lines(content@),
            p.current_line <= n,
            p.makefile.variables.wf(),
            parse_from(lv, p.current_line as int, p.makefile@) == parse_spec(content@),
        decreases n - p.current_line,
    {
        match p.step_line() {
            Ok(()) => {},
            Err(e) => {
                return Err(e);
            },
        }
    }
    Ok(p.makefile)
}

} // verus!
