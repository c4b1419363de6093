//! The structured model that the parser recovers from a Makefile.
use vstd::prelude::*;
use crate::text::{same_chars, strings_view};

verus! {

#[derive(Debug, Clone, Copy, PartialEq, Eq, Structural)]
pub enum AssignmentType {
    /// `=`
    Simple,
    /// `:=`
    Recursive,
    /// `?=`
    Conditional,
    /// `+=`
    Append,
}

#[derive(Debug, Clone)]
pub struct Recipe {
    pub command: String,
    pub silent: bool,
    pub ignore_error: bool,
    pub line: usize,
    pub column: usize,
    pub indentation: String,
}

#[derive(Debug, Clone)]
pub struct Rule {
    pub targets: Vec<String>,
    pub prerequisites: Vec<String>,
    pub recipes: Vec<Recipe>,
    pub line: usize,
    pub column: usize,
}

#[derive(Debug, Clone)]
pub struct Variable {
    pub name: String,
    pub value: String,
    pub assignment_type: AssignmentType,
    pub line: usize,
    pub column: usize,
    pub export: bool,
}

#[derive(Debug, Clone)]
pub struct Include {
    pub path: String,
    pub optional: bool,
    pub line: usize,
    pub column: usize,
}

#[derive(Debug, Clone)]
pub struct Comment {
    pub text: String,
    pub line: usize,
    pub column: usize,
}

/// The variables of a Makefile by name: one entry per name, the last
/// assignment to a name wins, and names stay in the order of first assignment.
#[derive(Debug, Clone)]
pub struct VariableTable {
    entries: Vec<Variable>,
}

#[derive(Debug, Clone)]
pub struct Makefile {
    pub rules: Vec<Rule>,
    pub variables: VariableTable,
    pub includes: Vec<Include>,
    pub exports: Vec<String>,
    pub phonies: Vec<String>,
    pub comments: Vec<Comment>,
}

pub struct RecipeView {
    pub command: Seq<char>,
    pub silent: bool,
    pub ignore_error: bool,
    pub line: usize,
    pub column: usize,
    pub indentation: Seq<char>,
}

pub struct RuleView {
    pub targets: Seq<Seq<char>>,
    pub prerequisites: Seq<Seq<char>>,
    pub recipes: Seq<RecipeView>,
    pub line: usize,
    pub column: usize,
}

pub struct VariableView {
    pub name: Seq<char>,
    pub value: Seq<char>,
    pub assignment_type: AssignmentType,
    pub line: usize,
    pub column: usize,
    pub export: bool,
}

pub struct IncludeView {
    pub path: Seq<char>,
    pub optional: bool,
    pub line: usize,
    pub column: usize,
}

pub struct CommentView {
    pub text: Seq<char>,
    pub line: usize,
    pub column: usize,
}

pub struct MakefileView {
    pub rules: Seq<RuleView>,
    pub variables: Seq<VariableView>,
    pub includes: Seq<IncludeView>,
    pub exports: Seq<Seq<char>>,
    pub phonies: Seq<Seq<char>>,
    pub comments: Seq<CommentView>,
}

impl View for Recipe {
    type V = RecipeView;

    open spec fn view(&self) -> RecipeView {
        RecipeView {
            command: self.command@,
            silent: self.silent,
            ignore_error: self.ignore_error,
            line: self.line,
            column: self.column,
            indentation: self.indentation@,
        }
    }
}

pub open spec fn recipes_view(s: Seq<Recipe>) -> Seq<RecipeView> {
    s.map_values(|r: Recipe| r@)
}

impl View for Rule {
    type V = RuleView;

    open spec fn view(&self) -> RuleView {
        RuleView {
            targets: strings_view(self.targets@),
            prerequisites: strings_view(self.prerequisites@),
            recipes: recipes_view(self.recipes@),
            line: self.line,
            column: self.column,
        }
    }
}

pub open spec fn rules_view(s: Seq<Rule>) -> Seq<RuleView> {
    s.map_values(|r: Rule| r@)
}

impl View for Variable {
    type V = VariableView;

    open spec fn view(&self) -> VariableView {
        VariableView {
            name: self.name@,
            value: self.value@,
            assignment_type: self.assignment_type,
            line: self.line,
            column: self.column,
            export: self.export,
        }
    }
}

pub open spec fn variables_view(s: Seq<Variable>) -> Seq<VariableView> {
    s.map_values(|v: Variable| v@)
}

impl View for Include {
    type V = IncludeView;

    open spec fn view(&self) -> IncludeView {
        IncludeView {
            path: self.path@,
            optional: self.optional,
            line: self.line,
            column: self.column,
        }
    }
}

pub open spec fn includes_view(s: Seq<Include>) -> Seq<IncludeView> {
    s.map_values(|v: Include| v@)
}

impl View for Comment {
    type V = CommentView;

    open spec fn view(&self) -> CommentView {
        CommentView { text: self.text@, line: self.line, column: self.column }
    }
}

pub open spec fn comments_view(s: Seq<Comment>) -> Seq<CommentView> {
    s.map_values(|v: Comment| v@)
}

/// The index of the entry named `name` at or after `i`, or -1.
pub open spec fn name_index_from(vs: Seq<VariableView>, name: Seq<char>, i: int) -> int
    decreases vs.len() - i,
{
    if i < 0 || i >= vs.len() {
        -1
    } else if vs[i].name == name {
        i
    } else {
        name_index_from(vs, name, i + 1)
    }
}

pub open spec fn name_index(vs: Seq<VariableView>, name: Seq<char>) -> int {
    name_index_from(vs, name, 0)
}

/// `v` stored under its name: it replaces the entry of that name, if there is
/// one, and is added at the end otherwise.
pub open spec fn var_insert(vs: Seq<VariableView>, v: VariableView) -> Seq<VariableView> {
    let i = name_index(vs, v.name);
    if i >= 0 {
        vs.update(i, v)
    } else {
        vs.push(v)
    }
}

/// No two entries share a name.
pub open spec fn names_unique(vs: Seq<VariableView>) -> bool {
    forall|i: int, j: int| 0 <= i < j < vs.len() ==> vs[i].name != vs[j].name
}

pub proof fn lemma_name_index_from(vs: Seq<VariableView>, name: Seq<char>, i: int)
    requires
        0 <= i <= vs.len(),
    ensures
        name_index_from(vs, name, i) == -1 || (i <= name_index_from(vs, name, i) < vs.len()
            && vs[name_index_from(vs, name, i)].name == name),
        name_index_from(vs, name, i) == -1 ==> forall|j: int|
            i <= j < vs.len() ==> vs[j].name != name,
    decreases vs.len() - i,
{
    if i < vs.len() && vs[i].name != name {
        lemma_name_index_from(vs, name, i + 1);
    }
}

/// Inserting by name keeps names unique.
pub proof fn lemma_var_insert_unique(vs: Seq<VariableView>, v: VariableView)
    requires
        names_unique(vs),
    ensures
        names_unique(var_insert(vs, v)),
{
    lemma_name_index_from(vs, v.name, 0);
}

impl View for VariableTable {
    type V = Seq<VariableView>;

    closed spec fn view(&self) -> Seq<VariableView> {
        variables_view(self.entries@)
    }
}

impl VariableTable {
    pub closed spec fn wf(&self) -> bool {
        names_unique(self@)
    }

    pub fn new() -> (r: Self)
        ensures
            r@ == Seq::<VariableView>::empty(),
            r.wf(),
    {
        let t = VariableTable { entries: Vec::new() };
        assert(t@ =~= Seq::<VariableView>::empty());
        t
    }

    pub fn len(&self) -> (r: usize)
        ensures
            r == self@.len(),
    {
        self.entries.len()
    }

    pub fn is_empty(&self) -> (r: bool)
        ensures
            r == (self@.len() == 0),
    {
        self.entries.len() == 0
    }

    /// The entries, in order of first assignment.
    pub fn values(&self) -> (r: &Vec<Variable>)
        ensures
            variables_view(r@) == self@,
    {
        &self.entries
    }

    fn index_of(&self, name: &str) -> (r: Option<usize>)
        ensures
            match r {
                Some(i) => name_index(self@, name@) == i && i < self@.len(),
                None => name_index(self@, name@) == -1,
            },
    {
        let mut i: usize = 0;
        while i < self.entries.len()
            invariant
                i <= self.entries@.len(),
                name_index_from(self@, name@, i as int) == name_index(self@, name@),
            decreases self.entries.len() - i,
        {
            if same_chars(self.entries[i].name.as_str(), name) {
                return Some(i);
            }
            i += 1;
        }
        None
    }

    pub fn contains_key(&self, name: &str) -> (r: bool)
        ensures
            r == (name_index(self@, name@) >= 0),
    {
        self.index_of(name).is_some()
    }

    pub fn get(&self, name: &str) -> (r: Option<&Variable>)
        ensures
            match r {
                Some(v) => name_index(self@, name@) >= 0 && v@ == self@[name_index(
                    self@,
                    name@,
                )],
                None => name_index(self@, name@) == -1,
            },
    {
        match self.index_of(name) {
            Some(i) => Some(&self.entries[i]),
            None => None,
        }
    }

    /// Stores `v` under its name; the last assignment to a name wins.
    pub fn insert(&mut self, v: Variable)
        requires
            old(self).wf(),
        ensures
            final(self)@ == var_insert(old(self)@, v@),
            final(self).wf(),
    {
        proof {
            lemma_var_insert_unique(self@, v@);
        }
        let ghost prev = self@;
        match self.index_of(v.name.as_str()) {
            Some(i) => {
                self.entries.set(i, v);
                assert(self@ =~= prev.update(i as int, v@));
            },
            None => {
                self.entries.push(v);
                assert(self@ =~= prev.push(v@));
            },
        }
    }
}

impl View for Makefile {
    type V = MakefileView;

    open spec fn view(&self) -> MakefileView {
        MakefileView {
            rules: rules_view(self.rules@),
            variables: self.variables@,
            includes: includes_view(self.includes@),
            exports: strings_view(self.exports@),
            phonies: strings_view(self.phonies@),
            comments: comments_view(self.comments@),
        }
    }
}

pub open spec fn empty_model() -> MakefileView {
    MakefileView {
        rules: Seq::empty(),
        variables: Seq::empty(),
        includes: Seq::empty(),
        exports: Seq::empty(),
        phonies: Seq::empty(),
        comments: Seq::empty(),
    }
}

impl Makefile {
    pub fn new() -> (r: Self)
        ensures
            r@ == empty_model(),
            r.variables.wf(),
    {
        let m = Makefile {
            rules: Vec::new(),
            variables: VariableTable::new(),
            includes: Vec::new(),
            exports: Vec::new(),
            phonies: Vec::new(),
            comments: Vec::new(),
        };
        assert(m@.rules =~= Seq::<RuleView>::empty());
        assert(m@.includes =~= Seq::<IncludeView>::empty());
        assert(m@.exports =~= Seq::<Seq<char>>::empty());
        assert(m@.phonies =~= Seq::<Seq<char>>::empty());
        assert(m@.comments =~= Seq::<CommentView>::empty());
        m
    }
}

} // verus!
