//! The fix engine. The edits of the fixable diagnostics are collected, put in
//! descending order of their own start (line, column), and spliced into the
//! original text from the bottom up. Every coordinate is read against the
//! original text; an edit that would reach into a span already replaced is
//! skipped, so text outside the applied spans comes through unchanged, line
//! terminators included.
use vstd::prelude::*;
use crate::diagnostic::{Diagnostic, DiagnosticView, Edit, EditView, diags_view, edits_view};
use crate::text::{char_width, char_width_of, chars_of, string_of};

verus! {

/// A 1-based column as a 0-based index; column 0 counts as 1.
pub open spec fn col_index(c: usize) -> int {
    if c == 0 {
        0
    } else {
        c - 1
    }
}

pub open spec fn min_int(a: int, b: int) -> int {
    if a <= b {
        a
    } else {
        b
    }
}

pub open spec fn is_fixable(d: DiagnosticView) -> bool {
    d.fixable && d.fix is Some
}

/// The edits that a diagnostic contributes: those of its fix, if it is fixable.
pub open spec fn edits_of(d: DiagnosticView) -> Seq<EditView> {
    if is_fixable(d) {
        d.fix->0.edits
    } else {
        Seq::empty()
    }
}

/// The edits of all qualifying diagnostics, in input order.
pub open spec fn collected(ds: Seq<DiagnosticView>) -> Seq<EditView>
    decreases ds.len(),
{
    if ds.len() == 0 {
        Seq::empty()
    } else {
        collected(ds.drop_last()) + edits_of(ds.last())
    }
}

/// The start (line, column) of `a` strictly before that of `b`.
pub open spec fn start_before(a: EditView, b: EditView) -> bool {
    a.start_line < b.start_line || (a.start_line == b.start_line && a.start_column
        < b.start_column)
}

/// `e` put into the descending order `s`, after every edit starting at or after it.
pub open spec fn insert_edit(s: Seq<EditView>, e: EditView) -> Seq<EditView>
    decreases s.len(),
{
    if s.len() == 0 {
        seq![e]
    } else if start_before(s.last(), e) {
        insert_edit(s.drop_last(), e).push(s.last())
    } else {
        s.push(e)
    }
}

/// `s` in descending order of start; edits with one start keep their order.
pub open spec fn sort_edits(s: Seq<EditView>) -> Seq<EditView>
    decreases s.len(),
{
    if s.len() == 0 {
        Seq::empty()
    } else {
        insert_edit(sort_edits(s.drop_last()), s.last())
    }
}

/// The index of the first `\n` of `t` at or after `p`, or the length of `t`.
pub open spec fn nl_from(t: Seq<char>, p: int) -> int
    decreases t.len() - p,
{
    if p < 0 || p >= t.len() {
        t.len() as int
    } else if t[p] == '\n' {
        p
    } else {
        nl_from(t, p + 1)
    }
}

/// Where the line of index `k` starts: just after the `k`-th `\n`.
pub open spec fn line_start(t: Seq<char>, k: nat) -> int
    decreases k,
{
    if k == 0 {
        0
    } else {
        nl_from(t, line_start(t, (k - 1) as nat)) + 1
    }
}

/// The text has a line of index `k` (as `str::lines` counts them).
pub open spec fn has_line(t: Seq<char>, k: nat) -> bool {
    line_start(t, k) < t.len()
}

/// Where the content of line `k` ends: before its `\n`, and before a `\r` that
/// precedes that `\n`.
pub open spec fn line_end(t: Seq<char>, k: nat) -> int {
    let s = line_start(t, k);
    let e = nl_from(t, s);
    if e < t.len() && e > s && t[e - 1] == '\r' {
        e - 1
    } else {
        e
    }
}

/// The characters of line `k`, without its terminator.
pub open spec fn line_content(t: Seq<char>, k: nat) -> Seq<char> {
    t.subrange(line_start(t, k), line_end(t, k))
}

/// The index of the character of `l` that starts at byte `b` of its UTF-8
/// form, reading on from index `i` at byte `acc`. None when `b` falls inside a
/// character; when `b` lies past the end, the end if `clamp` and none otherwise.
pub open spec fn index_at_byte(l: Seq<char>, b: int, i: int, acc: int, clamp: bool) -> Option<int>
    decreases l.len() - i,
{
    if acc >= b {
        if acc == b {
            Some(i)
        } else {
            None
        }
    } else if i < 0 || i >= l.len() {
        if clamp {
            Some(l.len() as int)
        } else {
            None
        }
    } else if char_width(l[i]) > b - acc {
        None
    } else {
        index_at_byte(l, b, i + 1, acc + char_width(l[i]), clamp)
    }
}

/// The offset in the text of a 1-based byte column of line `k`.
pub open spec fn offset(t: Seq<char>, k: nat, col: usize, clamp: bool) -> Option<int> {
    match index_at_byte(line_content(t, k), col_index(col), 0, 0, clamp) {
        Some(i) => Some(line_start(t, k) + i),
        None => None,
    }
}

/// The last line from `k` up to `j` that the text has, going up one line at a time.
pub open spec fn last_line_from(t: Seq<char>, k: nat, j: nat) -> nat
    decreases j - k,
{
    if k < j && has_line(t, k + 1) {
        last_line_from(t, k + 1, j)
    } else {
        k
    }
}

/// The span `[start, end)` of the original text that an edit replaces, or none
/// when its start line is not a line of the text, its end line is before its
/// start line, a column falls inside a character, or its span is inverted.
/// Columns count bytes of UTF-8. A single-line edit with its start column past
/// the line is skipped; other columns and the end line are clamped.
pub open spec fn span(t: Seq<char>, e: EditView) -> Option<(int, int)> {
    if e.start_line == 0 || e.end_line < e.start_line || !has_line(
        t,
        (e.start_line - 1) as nat,
    ) {
        None
    } else {
        let k = (e.start_line - 1) as nat;
        let s = line_start(t, k);
        let j = if e.start_line == e.end_line {
            k
        } else {
            last_line_from(t, k, (e.end_line - 1) as nat)
        };
        let a = offset(t, k, e.start_column, e.start_line != e.end_line);
        let b = offset(t, j, e.end_column, true);
        if a matches Some(x) && b matches Some(y) && x <= y {
            Some((a->0, b->0))
        } else {
            None
        }
    }
}

/// The text after the edits `es`, applied in order, and the start of the
/// lowest span replaced so far. An edit whose span ends after that start would
/// reach into replaced text and is skipped.
pub open spec fn apply_sorted(t: Seq<char>, es: Seq<EditView>) -> (Seq<char>, int)
    decreases es.len(),
{
    if es.len() == 0 {
        (t, t.len() as int)
    } else {
        let (cur, bound) = apply_sorted(t, es.drop_last());
        match span(t, es.last()) {
            Some((s, e)) => if e <= bound {
                (cur.take(s) + es.last().replacement + cur.skip(e), s)
            } else {
                (cur, bound)
            },
            None => (cur, bound),
        }
    }
}

/// The text that fixing `content` by the diagnostics `ds` gives.
pub open spec fn fixed_text(content: Seq<char>, ds: Seq<DiagnosticView>) -> Seq<char> {
    apply_sorted(content, sort_edits(collected(ds))).0
}

fn copy_edit(e: &Edit) -> (r: Edit)
    ensures
        r@ == e@,
{
    Edit {
        start_line: e.start_line,
        start_column: e.start_column,
        end_line: e.end_line,
        end_column: e.end_column,
        replacement: e.replacement.clone(),
    }
}

/// The edits of the qualifying diagnostics, in input order.
fn collect_edits(ds: &[Diagnostic]) -> (r: Vec<Edit>)
    ensures
        edits_view(r@) == collected(diags_view(ds@)),
{
    let ghost dv = diags_view(ds@);
    let mut out: Vec<Edit> = Vec::new();
    let mut i: usize = 0;
    assert(dv.take(0) =~= Seq::<DiagnosticView>::empty());
    assert(edits_view(out@) =~= Seq::<EditView>::empty());
    while i < ds.len()
        invariant
            i <= ds@.len(),
            dv == diags_view(ds@),
            edits_view(out@) == collected(dv.take(i as int)),
        decreases ds.len() - i,
    {
        let d = &ds[i];
        let ghost base = edits_view(out@);
        assert(dv.take(i + 1).drop_last() =~= dv.take(i as int));
        assert(d@ == dv[i as int]);
        if d.fixable {
            match &d.fix {
                Some(f) => {
                    let ghost ev = edits_view(f.edits@);
                    let mut j: usize = 0;
                    assert(ev.take(0) =~= Seq::<EditView>::empty());
                    assert(base =~= base + ev.take(0));
                    while j < f.edits.len()
                        invariant
                            j <= f.edits@.len(),
                            ev == edits_view(f.edits@),
                            edits_view(out@) == base + ev.take(j as int),
                        decreases f.edits.len() - j,
                    {
                        let ghost prev = out@;
                        let e = copy_edit(&f.edits[j]);
                        out.push(e);
                        assert(edits_view(out@) =~= edits_view(prev).push(ev[j as int]));
                        assert(ev.take(j + 1) =~= ev.take(j as int).push(ev[j as int]));
                        j += 1;
                    }
                    assert(ev.take(j as int) =~= ev);
                },
                None => {
                    assert(base =~= base + Seq::<EditView>::empty());
                },
            }
        } else {
            assert(base =~= base + Seq::<EditView>::empty());
        }
        i += 1;
    }
    assert(dv.take(i as int) =~= dv);
    out
}

fn starts_before(a: &Edit, b: &Edit) -> (r: bool)
    ensures
        r == start_before(a@, b@),
{
    a.start_line < b.start_line || (a.start_line == b.start_line && a.start_column
        < b.start_column)
}

proof fn lemma_insert_edit(s: Seq<EditView>, e: EditView, p: int)
    requires
        0 <= p <= s.len(),
        forall|j: int| p <= j < s.len() ==> start_before(#[trigger] s[j], e),
        p > 0 ==> !start_before(s[p - 1], e),
    ensures
        insert_edit(s, e) == s.insert(p, e),
    decreases s.len(),
{
    if s.len() == 0 {
        assert(s.insert(p, e) =~= seq![e]);
    } else if p == s.len() {
        assert(s.insert(p, e) =~= s.push(e));
    } else {
        let t = s.drop_last();
        lemma_insert_edit(t, e, p);
        assert(s.insert(p, e) =~= t.insert(p, e).push(s.last()));
    }
}

/// The edits in descending order of start, keeping the order of edits with one start.
fn sort_edits_desc(es: Vec<Edit>) -> (r: Vec<Edit>)
    ensures
        edits_view(r@) == sort_edits(edits_view(es@)),
{
    let ghost orig = edits_view(es@);
    let mut rest = es;
    let mut out: Vec<Edit> = Vec::new();
    let mut k: usize = 0;
    let n = rest.len();
    assert(orig.take(0) =~= Seq::<EditView>::empty());
    assert(edits_view(out@) =~= Seq::<EditView>::empty());
    assert(edits_view(rest@) =~= orig.skip(0));
    while k < n
        invariant
            n == orig.len(),
            k <= n,
            edits_view(rest@) == orig.skip(k as int),
            rest@.len() == n - k,
            edits_view(out@) == sort_edits(orig.take(k as int)),
        decreases n - k,
    {
        let ghost sorted = edits_view(out@);
        let ghost prev_rest = rest@;
        let e = rest.remove(0);
        assert(edits_view(rest@) =~= edits_view(prev_rest).drop_first());
        assert(edits_view(prev_rest)[0] == orig[k as int]);
        assert(edits_view(rest@) =~= orig.skip(k + 1));
        let mut p: usize = out.len();
        while p > 0 && starts_before(&out[p - 1], &e)
            invariant
                p <= out@.len(),
                sorted == edits_view(out@),
                forall|j: int| p <= j < sorted.len() ==> start_before(#[trigger] sorted[j], e@),
            decreases p,
        {
            p -= 1;
        }
        proof {
            lemma_insert_edit(sorted, e@, p as int);
            assert(orig.take(k + 1).drop_last() =~= orig.take(k as int));
        }
        let ghost ev = e@;
        out.insert(p, e);
        assert(edits_view(out@) =~= sorted.insert(p as int, ev));
        k += 1;
    }
    assert(orig.take(n as int) =~= orig);
    out
}

fn nl_index(t: &Vec<char>, p: usize) -> (r: usize)
    ensures
        r == nl_from(t@, p as int),
{
    if p >= t.len() {
        return t.len();
    }
    let mut i: usize = p;
    while i < t.len() && t[i] != '\n'
        invariant
            p <= i <= t.len(),
            nl_from(t@, i as int) == nl_from(t@, p as int),
        decreases t.len() - i,
    {
        i += 1;
    }
    i
}

proof fn lemma_nl_from_bounds(t: Seq<char>, p: int)
    requires
        0 <= p <= t.len(),
    ensures
        p <= nl_from(t, p) <= t.len(),
        nl_from(t, p) < t.len() ==> t[nl_from(t, p)] == '\n',
    decreases t.len() - p,
{
    if p < t.len() && t[p] != '\n' {
        lemma_nl_from_bounds(t, p + 1);
    }
}

proof fn lemma_past_end(t: Seq<char>, m: nat, k: nat)
    requires
        m <= k,
        line_start(t, m) >= t.len(),
    ensures
        line_start(t, k) >= t.len(),
    decreases k - m,
{
    if m < k {
        lemma_past_end(t, m, (k - 1) as nat);
    }
}

/// Where line `k` starts, if the text has it.
fn start_of_line(t: &Vec<char>, k: usize) -> (r: Option<usize>)
    ensures
        match r {
            Some(s) => s == line_start(t@, k as nat) && s < t.len(),
            None => !has_line(t@, k as nat),
        },
{
    let mut s: usize = 0;
    let mut m: usize = 0;
    if t.len() == 0 {
        proof {
            lemma_past_end(t@, 0, k as nat);
        }
        return None;
    }
    while m < k
        invariant
            m <= k,
            s == line_start(t@, m as nat),
            s < t.len(),
        decreases k - m,
    {
        let e = nl_index(t, s);
        proof {
            lemma_nl_from_bounds(t@, s as int);
        }
        if e >= t.len() - 1 {
            proof {
                lemma_past_end(t@, (m + 1) as nat, k as nat);
            }
            return None;
        }
        s = e + 1;
        m += 1;
    }
    Some(s)
}

/// Where the content of the line starting at `s` ends.
fn end_of_line(t: &Vec<char>, s: usize, k: Ghost<nat>) -> (r: usize)
    requires
        s == line_start(t@, k@),
        s < t.len(),
    ensures
        r == line_end(t@, k@),
        s <= r <= t.len(),
{
    let e = nl_index(t, s);
    proof {
        lemma_nl_from_bounds(t@, s as int);
    }
    if e < t.len() && e > s && t[e - 1] == '\r' {
        e - 1
    } else {
        e
    }
}

proof fn lemma_index_at_byte_bounds(l: Seq<char>, b: int, i: int, acc: int, clamp: bool)
    requires
        0 <= i <= l.len(),
    ensures
        index_at_byte(l, b, i, acc, clamp) matches Some(x) ==> i <= x <= l.len(),
    decreases l.len() - i,
{
    if acc < b && i < l.len() && char_width(l[i]) <= b - acc {
        lemma_index_at_byte_bounds(l, b, i + 1, acc + char_width(l[i]), clamp);
    }
}

/// The offset in the text of a 1-based byte column of line `k`, which starts at `s`.
fn column_offset(t: &Vec<char>, s: usize, k: Ghost<nat>, col: usize, clamp: bool) -> (r: Option<
    usize,
>)
    requires
        s == line_start(t@, k@),
        s < t.len(),
    ensures
        match r {
            Some(x) => offset(t@, k@, col, clamp) == Some(x as int) && s <= x <= t.len(),
            None => offset(t@, k@, col, clamp) is None,
        },
{
    let le = end_of_line(t, s, k);
    let ghost l = line_content(t@, k@);
    let b: usize = if col == 0 {
        0
    } else {
        col - 1
    };
    let n = le - s;
    let mut i: usize = 0;
    let mut acc: usize = 0;
    proof {
        lemma_index_at_byte_bounds(l, b as int, 0, 0, clamp);
    }
    assert(l == t@.subrange(s as int, s + n));
    while acc < b && i < n
        invariant
            n == l.len(),
            l == line_content(t@, k@),
            b as int == col_index(col),
            s + n <= t.len(),
            l == t@.subrange(s as int, s + n),
            i <= n,
            acc <= b,
            index_at_byte(l, b as int, i as int, acc as int, clamp) == index_at_byte(
                l,
                b as int,
                0,
                0,
                clamp,
            ),
        decreases n - i,
    {
        let w = char_width_of(t[s + i]);
        assert(l[i as int] == t@[s + i]);
        if w > b - acc {
            return None;
        }
        acc = acc + w;
        i += 1;
    }
    if acc == b {
        Some(s + i)
    } else if clamp {
        Some(s + n)
    } else {
        None
    }
}

/// The span of the original text that an edit replaces.
fn span_of(t: &Vec<char>, e: &Edit) -> (r: Option<(usize, usize)>)
    ensures
        match r {
            Some((a, b)) => span(t@, e@) == Some((a as int, b as int)) && a <= b <= t.len(),
            None => span(t@, e@) is None,
        },
{
    if e.start_line == 0 || e.end_line < e.start_line {
        return None;
    }
    let k = e.start_line - 1;
    let s = match start_of_line(t, k) {
        Some(s) => s,
        None => {
            return None;
        },
    };
    let a = match column_offset(t, s, Ghost(k as nat), e.start_column, e.start_line != e.end_line) {
        Some(a) => a,
        None => {
            return None;
        },
    };
    let target = e.end_line - 1;
    let mut j: usize = k;
    let mut js: usize = s;
    let mut done = false;
    while j < target && !done
        invariant
            k <= j <= target,
            js == line_start(t@, j as nat),
            js < t.len(),
            last_line_from(t@, j as nat, target as nat) == last_line_from(
                t@,
                k as nat,
                target as nat,
            ),
            done ==> last_line_from(t@, j as nat, target as nat) == j,
        decreases target - j + (if done { 0int } else { 1int }),
    {
        let nl = nl_index(t, js);
        proof {
            lemma_nl_from_bounds(t@, js as int);
        }
        if nl >= t.len() - 1 {
            done = true;
        } else {
            js = nl + 1;
            j += 1;
        }
    }
    let b = match column_offset(t, js, Ghost(j as nat), e.end_column, true) {
        Some(b) => b,
        None => {
            return None;
        },
    };
    if a <= b {
        Some((a, b))
    } else {
        None
    }
}

/// `cur[..s] + r + cur[e..]`.
fn splice(cur: &Vec<char>, s: usize, e: usize, r: &Vec<char>) -> (out: Vec<char>)
    requires
        s <= e <= cur.len(),
    ensures
        out@ == cur@.take(s as int) + r@ + cur@.skip(e as int),
{
    let mut out: Vec<char> = Vec::new();
    let mut i: usize = 0;
    while i < s
        invariant
            i <= s <= e <= cur.len(),
            out@ == cur@.take(i as int),
        decreases s - i,
    {
        out.push(cur[i]);
        i += 1;
        assert(out@ =~= cur@.take(i as int));
    }
    let mut j: usize = 0;
    while j < r.len()
        invariant
            j <= r.len(),
            out@ == cur@.take(s as int) + r@.take(j as int),
        decreases r.len() - j,
    {
        out.push(r[j]);
        j += 1;
        assert(out@ =~= cur@.take(s as int) + r@.take(j as int));
    }
    assert(r@.take(r.len() as int) =~= r@);
    let mut q: usize = e;
    while q < cur.len()
        invariant
            e <= q <= cur.len(),
            out@ == cur@.take(s as int) + r@ + cur@.subrange(e as int, q as int),
        decreases cur.len() - q,
    {
        out.push(cur[q]);
        q += 1;
        assert(out@ =~= cur@.take(s as int) + r@ + cur@.subrange(e as int, q as int));
    }
    assert(cur@.subrange(e as int, q as int) =~= cur@.skip(e as int));
    out
}

/// The text with the edits of its fixable diagnostics applied, bottom-most and
/// right-most edit first. Coordinates are those of the original text; an edit
/// that is out of range, inverted, or reaches into text that a later-starting
/// edit already replaced is skipped.
pub fn apply_fixes(content: &str, diagnostics: &[Diagnostic]) -> (r: String)
    ensures
        r@ == fixed_text(content@, diags_view(diagnostics@)),
{
    let t = chars_of(content);
    let edits = sort_edits_desc(collect_edits(diagnostics));
    let ghost ev = edits_view(edits@);
    let mut cur = chars_of(content);
    let mut bound: usize = t.len();
    let mut i: usize = 0;
    assert(ev.take(0) =~= Seq::<EditView>::empty());
    while i < edits.len()
        invariant
            i <= edits@.len(),
            ev == edits_view(edits@),
            t@ == content@,
            bound <= cur.len(),
            apply_sorted(t@, ev.take(i as int)) == (cur@, bound as int),
        decreases edits.len() - i,
    {
        let e = &edits[i];
        assert(ev.take(i + 1).drop_last() =~= ev.take(i as int));
        assert(ev.take(i + 1).last() == e@);
        match span_of(&t, e) {
            Some((s, end)) => {
                if end <= bound {
                    let rep = chars_of(e.replacement.as_str());
                    cur = splice(&cur, s, end, &rep);
                    bound = s;
                }
            },
            None => {},
        }
        i += 1;
    }
    assert(ev.take(i as int) =~= ev);
    string_of(cur.as_slice())
}

/// (`l1`, `c1`) at or before (`l2`, `c2`).
pub open spec fn at_or_before(l1: usize, c1: usize, l2: usize, c2: usize) -> bool {
    l1 < l2 || (l1 == l2 && c1 <= c2)
}

/// `a` starts before `b` and ends at or before the start of `b`.
pub open spec fn edit_precedes(a: EditView, b: EditView) -> bool {
    start_before(a, b) && at_or_before(a.end_line, a.end_column, b.start_line, b.start_column)
}

/// No two edits of `es` overlap: of any two, one ends where or before the other starts.
pub open spec fn pairwise_disjoint(es: Seq<EditView>) -> bool {
    forall|i: int, j: int|
        0 <= i < j < es.len() ==> edit_precedes(#[trigger] es[i], #[trigger] es[j])
            || edit_precedes(es[j], es[i])
}

pub open spec fn same_start(a: EditView, b: EditView) -> bool {
    a.start_line == b.start_line && a.start_column == b.start_column
}

/// Strictly descending by start.
pub open spec fn strictly_desc(s: Seq<EditView>) -> bool {
    forall|i: int, j: int| 0 <= i < j < s.len() ==> start_before(#[trigger] s[j], #[trigger] s[i])
}

pub open spec fn distinct_starts(s: Seq<EditView>) -> bool {
    forall|i: int, j: int| 0 <= i < j < s.len() ==> !same_start(#[trigger] s[i], #[trigger] s[j])
}

proof fn lemma_insert_edit_multiset(s: Seq<EditView>, e: EditView)
    ensures
        insert_edit(s, e).to_multiset() == s.to_multiset().insert(e),
    decreases s.len(),
{
    broadcast use vstd::seq_lib::to_multiset_build;
    if s.len() == 0 {
        assert(s =~= Seq::<EditView>::empty());
        assert(seq![e] =~= s.push(e));
    } else {
        assert(s =~= s.drop_last().push(s.last()));
        if start_before(s.last(), e) {
            lemma_insert_edit_multiset(s.drop_last(), e);
            assert(insert_edit(s, e).to_multiset() =~= s.to_multiset().insert(e));
        }
    }
}

proof fn lemma_insert_edit_desc(s: Seq<EditView>, e: EditView)
    requires
        strictly_desc(s),
        forall|i: int| 0 <= i < s.len() ==> !same_start(#[trigger] s[i], e),
    ensures
        strictly_desc(insert_edit(s, e)),
    decreases s.len(),
{
    broadcast use vstd::seq_lib::to_multiset_contains;
    if s.len() > 0 {
        let t = s.drop_last();
        if start_before(s.last(), e) {
            lemma_insert_edit_desc(t, e);
            lemma_insert_edit_multiset(t, e);
            let r = insert_edit(t, e);
            assert forall|i: int| 0 <= i < r.len() implies start_before(s.last(), #[trigger] r[i]) by {
                assert(r.to_multiset().count(r[i]) > 0);
                if r[i] != e {
                    assert(t.to_multiset().count(r[i]) > 0);
                    let j = choose|j: int| 0 <= j < t.len() && t[j] == r[i];
                    assert(s[j] == t[j]);
                }
            }
        } else {
            assert(!same_start(s[s.len() - 1], e));
            assert forall|i: int| 0 <= i < s.len() implies start_before(e, #[trigger] s[i]) by {
                if i < s.len() - 1 {
                    assert(start_before(s[s.len() - 1], s[i]));
                }
            }
        }
    }
}

proof fn lemma_sort_edits_multiset(s: Seq<EditView>)
    ensures
        sort_edits(s).to_multiset() == s.to_multiset(),
    decreases s.len(),
{
    broadcast use vstd::seq_lib::to_multiset_build;
    if s.len() == 0 {
        assert(s =~= Seq::<EditView>::empty());
    } else {
        lemma_sort_edits_multiset(s.drop_last());
        lemma_insert_edit_multiset(sort_edits(s.drop_last()), s.last());
        assert(s =~= s.drop_last().push(s.last()));
    }
}

proof fn lemma_sort_edits_desc(s: Seq<EditView>)
    requires
        distinct_starts(s),
    ensures
        strictly_desc(sort_edits(s)),
    decreases s.len(),
{
    broadcast use vstd::seq_lib::to_multiset_contains;
    if s.len() > 0 {
        let t = s.drop_last();
        assert forall|i: int, j: int| 0 <= i < j < t.len() implies !same_start(
            #[trigger] t[i],
            #[trigger] t[j],
        ) by {
            assert(t[i] == s[i] && t[j] == s[j]);
        }
        lemma_sort_edits_desc(t);
        let v = sort_edits(t);
        lemma_sort_edits_multiset(t);
        assert forall|i: int| 0 <= i < v.len() implies !same_start(#[trigger] v[i], s.last()) by {
            assert(v.to_multiset().count(v[i]) > 0);
            assert(t.to_multiset().count(v[i]) > 0);
            let j = choose|j: int| 0 <= j < t.len() && t[j] == v[i];
            assert(s[j] == t[j]);
            assert(!same_start(s[j], s[s.len() - 1]));
        }
        lemma_insert_edit_desc(v, s.last());
    }
}

proof fn lemma_desc_unique(a: Seq<EditView>, b: Seq<EditView>)
    requires
        strictly_desc(a),
        strictly_desc(b),
        a.to_multiset() == b.to_multiset(),
    ensures
        a == b,
    decreases a.len(),
{
    broadcast use vstd::seq_lib::to_multiset_contains, vstd::seq_lib::to_multiset_len;
    broadcast use vstd::seq_lib::to_multiset_remove;
    assert(a.to_multiset().len() == a.len());
    assert(b.to_multiset().len() == b.len());
    if a.len() == 0 {
        assert(a =~= b);
    } else {
        let x = a.last();
        let y = b.last();
        assert(a[a.len() - 1] == x);
        assert(b[b.len() - 1] == y);
        assert(a.to_multiset().count(x) > 0);
        assert(b.to_multiset().count(x) > 0);
        assert(b.to_multiset().count(y) > 0);
        assert(a.to_multiset().count(y) > 0);
        let j = choose|j: int| 0 <= j < b.len() && b[j] == x;
        let i = choose|i: int| 0 <= i < a.len() && a[i] == y;
        if x != y {
            if j < b.len() - 1 && i < a.len() - 1 {
                assert(start_before(y, x));
                assert(start_before(x, y));
            }
        }
        assert(x == y);
        let a2 = a.drop_last();
        let b2 = b.drop_last();
        assert(a2 =~= a.remove(a.len() - 1));
        assert(b2 =~= b.remove(b.len() - 1));
        lemma_desc_unique(a2, b2);
        assert(a =~= a2.push(x));
        assert(b =~= b2.push(y));
    }
}

proof fn lemma_collected_remove(s: Seq<DiagnosticView>, j: int)
    requires
        0 <= j < s.len(),
    ensures
        collected(s).to_multiset() == collected(s.remove(j)).to_multiset().add(
            edits_of(s[j]).to_multiset(),
        ),
    decreases s.len(),
{
    broadcast use vstd::seq_lib::lemma_multiset_commutative;
    broadcast use vstd::multiset::group_multiset_axioms;
    let t = s.drop_last();
    if j == s.len() - 1 {
        assert(s.remove(j) =~= t);
    } else {
        lemma_collected_remove(t, j);
        assert(s.remove(j).drop_last() =~= t.remove(j));
        assert(s.remove(j).last() == s.last());
        assert(t[j] == s[j]);
        let r = s.remove(j);
        assert(collected(r) == collected(t.remove(j)) + edits_of(s.last()));
        assert(collected(s).to_multiset() =~= collected(r).to_multiset().add(
            edits_of(s[j]).to_multiset(),
        ));
    }
}

proof fn lemma_collected_perm(a: Seq<DiagnosticView>, b: Seq<DiagnosticView>)
    requires
        a.to_multiset() == b.to_multiset(),
    ensures
        collected(a).to_multiset() == collected(b).to_multiset(),
    decreases a.len(),
{
    broadcast use vstd::seq_lib::to_multiset_contains, vstd::seq_lib::to_multiset_len;
    broadcast use vstd::seq_lib::to_multiset_remove, vstd::seq_lib::lemma_multiset_commutative;
    broadcast use vstd::multiset::group_multiset_axioms;
    assert(a.to_multiset().len() == a.len());
    assert(b.to_multiset().len() == b.len());
    if a.len() == 0 {
        assert(b =~= a);
    } else {
        let x = a.last();
        assert(a[a.len() - 1] == x);
        assert(a.to_multiset().count(x) > 0);
        assert(b.to_multiset().count(x) > 0);
        let j = choose|j: int| 0 <= j < b.len() && b[j] == x;
        let a2 = a.drop_last();
        let b2 = b.remove(j);
        assert(a2 =~= a.remove(a.len() - 1));
        assert(a2.to_multiset() =~= b2.to_multiset());
        lemma_collected_perm(a2, b2);
        lemma_collected_remove(b, j);
        assert(collected(a).to_multiset() =~= collected(b).to_multiset());
    }
}

/// The fix engine orders the edits itself: two lists that hold the same
/// diagnostics in any order fix a text the same way, provided the edits of
/// their qualifying diagnostics do not overlap one another.
pub proof fn lemma_fix_order_independent(
    content: Seq<char>,
    ds1: Seq<DiagnosticView>,
    ds2: Seq<DiagnosticView>,
)
    requires
        ds1.to_multiset() == ds2.to_multiset(),
        pairwise_disjoint(collected(ds1)),
        pairwise_disjoint(collected(ds2)),
    ensures
        fixed_text(content, ds1) == fixed_text(content, ds2),
{
    let c1 = collected(ds1);
    let c2 = collected(ds2);
    assert forall|i: int, j: int| 0 <= i < j < c1.len() implies !same_start(
        #[trigger] c1[i],
        #[trigger] c1[j],
    ) by {
        assert(edit_precedes(c1[i], c1[j]) || edit_precedes(c1[j], c1[i]));
    }
    assert forall|i: int, j: int| 0 <= i < j < c2.len() implies !same_start(
        #[trigger] c2[i],
        #[trigger] c2[j],
    ) by {
        assert(edit_precedes(c2[i], c2[j]) || edit_precedes(c2[j], c2[i]));
    }
    lemma_sort_edits_desc(c1);
    lemma_sort_edits_desc(c2);
    lemma_sort_edits_multiset(c1);
    lemma_sort_edits_multiset(c2);
    lemma_collected_perm(ds1, ds2);
    lemma_desc_unique(sort_edits(c1), sort_edits(c2));
}

/// Only qualifying diagnostics count: with none of them, the text comes back
/// exactly as it was, line terminators and a final newline included.
pub proof fn lemma_no_fix_keeps_text(content: Seq<char>, ds: Seq<DiagnosticView>)
    requires
        forall|i: int| 0 <= i < ds.len() ==> !is_fixable(#[trigger] ds[i]),
    ensures
        fixed_text(content, ds) == content,
    decreases ds.len(),
{
    if ds.len() > 0 {
        let t = ds.drop_last();
        assert forall|i: int| 0 <= i < t.len() implies !is_fixable(#[trigger] t[i]) by {
            assert(t[i] == ds[i]);
        }
        lemma_no_fix_keeps_text(content, t);
        assert(!is_fixable(ds[ds.len() - 1]));
        assert(collected(ds) =~= collected(t));
    }
}

/// The spans `(start, end, replacement)` that the fold applies, in the order it
/// applies them (highest first).
pub open spec fn applied(t: Seq<char>, es: Seq<EditView>) -> Seq<(int, int, Seq<char>)>
    decreases es.len(),
{
    if es.len() == 0 {
        Seq::empty()
    } else {
        let prev = applied(t, es.drop_last());
        let bound = apply_sorted(t, es.drop_last()).1;
        match span(t, es.last()) {
            Some((s, e)) => if e <= bound {
                prev.push((s, e, es.last().replacement))
            } else {
                prev
            },
            None => prev,
        }
    }
}

/// The start of the lowest applied span, or the end of the text.
pub open spec fn lowest(t: Seq<char>, sp: Seq<(int, int, Seq<char>)>) -> int {
    if sp.len() == 0 {
        t.len() as int
    } else {
        sp.last().0
    }
}

/// The result from the lowest applied span on: each replacement followed by
/// the original text up to the next span above it, or to the end.
pub open spec fn above(t: Seq<char>, sp: Seq<(int, int, Seq<char>)>) -> Seq<char>
    decreases sp.len(),
{
    if sp.len() == 0 {
        Seq::empty()
    } else {
        sp.last().2 + t.subrange(sp.last().1, lowest(t, sp.drop_last())) + above(
            t,
            sp.drop_last(),
        )
    }
}

/// The applied spans lie in the text, each well formed and below the one applied before it.
pub open spec fn spans_ordered(t: Seq<char>, sp: Seq<(int, int, Seq<char>)>) -> bool {
    forall|k: int|
        0 <= k < sp.len() ==> 0 <= (#[trigger] sp[k]).0 <= sp[k].1 <= lowest(t, sp.take(k))
}

proof fn lemma_nl_from_nonneg(t: Seq<char>, p: int)
    ensures
        nl_from(t, p) >= 0,
    decreases t.len() - p,
{
    if 0 <= p < t.len() && t[p] != '\n' {
        lemma_nl_from_nonneg(t, p + 1);
    }
}

proof fn lemma_line_start_nonneg(t: Seq<char>, k: nat)
    ensures
        line_start(t, k) >= 0,
    decreases k,
{
    if k > 0 {
        lemma_nl_from_nonneg(t, line_start(t, (k - 1) as nat));
    }
}

proof fn lemma_offset_nonneg(t: Seq<char>, k: nat, col: usize, clamp: bool)
    ensures
        offset(t, k, col, clamp) matches Some(x) ==> x >= 0,
{
    lemma_line_start_nonneg(t, k);
    lemma_index_at_byte_bounds(line_content(t, k), col_index(col), 0, 0, clamp);
}

proof fn lemma_span_nonneg(t: Seq<char>, e: EditView)
    ensures
        span(t, e) matches Some((a, b)) ==> 0 <= a <= b,
{
    if e.start_line > 0 && e.end_line >= e.start_line {
        let k = (e.start_line - 1) as nat;
        let j = if e.start_line == e.end_line {
            k
        } else {
            last_line_from(t, k, (e.end_line - 1) as nat)
        };
        lemma_offset_nonneg(t, k, e.start_column, e.start_line != e.end_line);
        lemma_offset_nonneg(t, j, e.end_column, true);
    }
}

proof fn lemma_fold_shape(t: Seq<char>, es: Seq<EditView>)
    ensures
        apply_sorted(t, es).1 == lowest(t, applied(t, es)),
        apply_sorted(t, es).0 == t.take(apply_sorted(t, es).1) + above(t, applied(t, es)),
        spans_ordered(t, applied(t, es)),
        0 <= apply_sorted(t, es).1 <= t.len(),
    decreases es.len(),
{
    if es.len() == 0 {
        assert(t.take(t.len() as int) =~= t);
        assert(t =~= t + Seq::<char>::empty());
    } else {
        let pe = es.drop_last();
        lemma_fold_shape(t, pe);
        let (cur, bound) = apply_sorted(t, pe);
        let prev = applied(t, pe);
        lemma_span_nonneg(t, es.last());
        match span(t, es.last()) {
            Some((s, e)) => {
                if e <= bound {
                    let sp = prev.push((s, e, es.last().replacement));
                    assert(sp.drop_last() =~= prev);
                    assert(cur.take(s) =~= t.take(s));
                    assert(cur.skip(e) =~= t.subrange(e, bound) + above(t, prev));
                    assert(apply_sorted(t, es).0 =~= t.take(s) + above(t, sp));
                    assert forall|k: int| 0 <= k < sp.len() implies 0 <= (#[trigger] sp[k]).0
                        <= sp[k].1 <= lowest(t, sp.take(k)) by {
                        if k < prev.len() {
                            assert(sp[k] == prev[k]);
                            assert(sp.take(k) =~= prev.take(k));
                        } else {
                            assert(sp.take(k) =~= prev);
                        }
                    }
                }
            },
            None => {},
        }
    }
}

/// Text outside the applied edits comes through unchanged and in order: the
/// fixed text is the original up to the lowest applied span, then each applied
/// span's replacement followed by the original text between that span and the
/// next one above it (or the end of the text). The applied spans are disjoint,
/// in the original text, and read from the bottom up in this form.
pub proof fn lemma_outside_kept(content: Seq<char>, ds: Seq<DiagnosticView>)
    ensures
        ({
            let sp = applied(content, sort_edits(collected(ds)));
            &&& spans_ordered(content, sp)
            &&& fixed_text(content, ds) == content.take(lowest(content, sp)) + above(content, sp)
        }),
{
    lemma_fold_shape(content, sort_edits(collected(ds)));
}

pub open spec fn qualifies() -> spec_fn(DiagnosticView) -> bool {
    |d: DiagnosticView| is_fixable(d)
}

proof fn lemma_collected_filter(ds: Seq<DiagnosticView>)
    ensures
        collected(ds) == collected(ds.filter(qualifies())),
    decreases ds.len(),
{
    if ds.len() > 0 {
        let t = ds.drop_last();
        lemma_collected_filter(t);
        assert(ds =~= t.push(ds.last()));
        t.lemma_filter_push(ds.last(), qualifies());
        let f = t.filter(qualifies());
        if is_fixable(ds.last()) {
            assert(f.push(ds.last()).drop_last() =~= f);
        } else {
            assert(collected(ds) =~= collected(t) + Seq::<EditView>::empty());
        }
    }
}

/// Diagnostics that are not fixable, or carry no fix, play no part: fixing by
/// the qualifying diagnostics alone gives the same text.
pub proof fn lemma_only_fixable_count(content: Seq<char>, ds: Seq<DiagnosticView>)
    ensures
        fixed_text(content, ds) == fixed_text(content, ds.filter(qualifies())),
{
    lemma_collected_filter(ds);
}

} // verus!
