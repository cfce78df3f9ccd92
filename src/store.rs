//! The project store: for each project name, its list of annotations.
use vstd::prelude::*;
use crate::codemark::{duplicate_marks, marks_view, Codemark, MarkView};
use crate::filter::{has_binary_extension, ignored_by_patterns, patterns_view, should_ignore_file};
use crate::matcher::{lines_view, scan_lines_spec, AnnotationMatcher};
use crate::reconcile::{reconcile, reconcile_spec, unique_keys, lemma_reconcile_idempotent};

verus! {

/// The model of a store: (project name, annotations) pairs in insertion order.
pub type StoreView = Seq<(Seq<char>, Seq<MarkView>)>;

/// No two projects of `s` share a name.
pub open spec fn unique_names(s: StoreView) -> bool {
    forall|i: int, j: int|
        0 <= i < s.len() && 0 <= j < s.len() && i != j ==> (#[trigger] s[i]).0 != (#[trigger] s[j]).0
}

/// `i` is the index of the project `name` in `s`.
pub open spec fn is_name_at(s: StoreView, name: Seq<char>, i: int) -> bool {
    0 <= i < s.len() && s[i].0 == name
}

/// The index of the project `name` in `s`, if it is there.
pub open spec fn name_index(s: StoreView, name: Seq<char>) -> Option<int> {
    if exists|i: int| is_name_at(s, name, i) {
        Some(choose|i: int| is_name_at(s, name, i))
    } else {
        None
    }
}

/// The annotations of the project `name`, if it is in `s`.
pub open spec fn lookup(s: StoreView, name: Seq<char>) -> Option<Seq<MarkView>> {
    match name_index(s, name) {
        Some(i) => Some(s[i].1),
        None => None,
    }
}

/// `s` with the project `name` holding `marks`: replaced in place when it is
/// there, appended otherwise.
pub open spec fn store_put(s: StoreView, name: Seq<char>, marks: Seq<MarkView>) -> StoreView {
    match name_index(s, name) {
        Some(i) => s.update(i, (name, marks)),
        None => s.push((name, marks)),
    }
}

/// The number of unresolved entries of `marks`.
pub open spec fn unresolved_count(marks: Seq<MarkView>) -> nat
    decreases marks.len(),
{
    if marks.len() == 0 {
        0
    } else {
        unresolved_count(marks.drop_last()) + if marks.last().resolved { 0nat } else { 1nat }
    }
}

/// The number of resolved entries of `marks`.
pub open spec fn resolved_count(marks: Seq<MarkView>) -> nat
    decreases marks.len(),
{
    if marks.len() == 0 {
        0
    } else {
        resolved_count(marks.drop_last()) + if marks.last().resolved { 1nat } else { 0nat }
    }
}

/// The number of unresolved entries over every project of `s`.
pub open spec fn total_unresolved(s: StoreView) -> nat
    decreases s.len(),
{
    if s.len() == 0 {
        0
    } else {
        total_unresolved(s.drop_last()) + unresolved_count(s.last().1)
    }
}

/// `n`, or the largest `usize` where `n` exceeds it.
pub open spec fn capped(n: nat) -> nat {
    if n <= usize::MAX {
        n
    } else {
        usize::MAX as nat
    }
}

/// The store after a full scan of the project `name` that found `fresh`.
pub open spec fn scan_spec(s: StoreView, name: Seq<char>, fresh: Seq<MarkView>) -> StoreView {
    let existing = match lookup(s, name) {
        Some(m) => m,
        None => Seq::<MarkView>::empty(),
    };
    store_put(s, name, reconcile_spec(existing, fresh))
}

/// The unresolved entries of `marks`, in order.
pub open spec fn unresolved_only(marks: Seq<MarkView>) -> Seq<MarkView> {
    marks.filter(|m: MarkView| !m.resolved)
}

/// The clean-up applies to the project `name` under `filter`.
pub open spec fn filter_selects(filter: Option<Seq<char>>, name: Seq<char>) -> bool {
    match filter {
        Some(f) => f == name,
        None => true,
    }
}

/// The store after removing the resolved entries of the projects that
/// `filter` selects; a selected project left without entries is dropped.
pub open spec fn clean_spec(s: StoreView, filter: Option<Seq<char>>) -> StoreView
    decreases s.len(),
{
    if s.len() == 0 {
        s
    } else {
        let prev = clean_spec(s.drop_last(), filter);
        let (name, marks) = s.last();
        if filter_selects(filter, name) {
            let kept = unresolved_only(marks);
            if kept.len() == 0 {
                prev
            } else {
                prev.push((name, kept))
            }
        } else {
            prev.push((name, marks))
        }
    }
}

/// The entries of `marks` that do not belong to `file`, in order.
pub open spec fn without_file(marks: Seq<MarkView>, file: Seq<char>) -> Seq<MarkView> {
    marks.filter(|m: MarkView| m.file != file)
}

/// The store after the watched file `file` of project `name` was scanned
/// again and found `fresh`: the project's entries for that file are replaced
/// by `fresh`. A missing project is created only when `fresh` is not empty.
pub open spec fn replace_file_spec(
    s: StoreView,
    name: Seq<char>,
    file: Seq<char>,
    fresh: Seq<MarkView>,
) -> StoreView {
    match lookup(s, name) {
        Some(m) => store_put(s, name, without_file(m, file) + fresh),
        None => if fresh.len() == 0 {
            s
        } else {
            s.push((name, fresh))
        },
    }
}

/// Counts the unresolved entries of `marks`.
pub fn count_unresolved(marks: &Vec<Codemark>) -> (r: usize)
    ensures
        r == unresolved_count(marks_view(marks@)),
{
    let ghost mv = marks_view(marks@);
    let mut n: usize = 0;
    let mut i: usize = 0;
    while i < marks.len()
        invariant
            i <= marks.len(),
            mv == marks_view(marks@),
            n <= i,
            n == unresolved_count(mv.take(i as int)),
        decreases marks.len() - i,
    {
        proof {
            assert(mv.take(i + 1).drop_last() =~= mv.take(i as int));
        }
        if !marks[i].resolved {
            n += 1;
        }
        i += 1;
    }
    proof {
        assert(mv.take(marks.len() as int) =~= mv);
    }
    n
}

/// Counts the resolved entries of `marks`.
pub fn count_resolved(marks: &Vec<Codemark>) -> (r: usize)
    ensures
        r == resolved_count(marks_view(marks@)),
{
    let ghost mv = marks_view(marks@);
    let mut n: usize = 0;
    let mut i: usize = 0;
    while i < marks.len()
        invariant
            i <= marks.len(),
            mv == marks_view(marks@),
            n <= i,
            n == resolved_count(mv.take(i as int)),
        decreases marks.len() - i,
    {
        proof {
            assert(mv.take(i + 1).drop_last() =~= mv.take(i as int));
        }
        if marks[i].resolved {
            n += 1;
        }
        i += 1;
    }
    proof {
        assert(mv.take(marks.len() as int) =~= mv);
    }
    n
}

/// The unresolved entries of `marks`, in order.
pub fn keep_unresolved(marks: &Vec<Codemark>) -> (r: Vec<Codemark>)
    ensures
        marks_view(r@) == unresolved_only(marks_view(marks@)),
{
    let ghost mv = marks_view(marks@);
    let mut out: Vec<Codemark> = Vec::new();
    let mut i: usize = 0;
    proof {
        assert(mv.take(0) =~= Seq::<MarkView>::empty());
        assert(marks_view(out@) =~= Seq::<MarkView>::empty());
        reveal(Seq::filter);
    }
    while i < marks.len()
        invariant
            i <= marks.len(),
            mv == marks_view(marks@),
            marks_view(out@) == unresolved_only(mv.take(i as int)),
        decreases marks.len() - i,
    {
        proof {
            assert(mv.take(i + 1).drop_last() =~= mv.take(i as int));
            reveal(Seq::filter);
        }
        if !marks[i].resolved {
            let ghost before = out@;
            out.push(marks[i].duplicate());
            proof {
                assert(marks_view(out@) =~= marks_view(before).push(mv[i as int]));
            }
        }
        i += 1;
    }
    proof {
        assert(mv.take(marks.len() as int) =~= mv);
    }
    out
}

/// The entries of `marks` that do not belong to `file`, in order.
pub fn marks_without_file(marks: &Vec<Codemark>, file: &String) -> (r: Vec<Codemark>)
    ensures
        marks_view(r@) == without_file(marks_view(marks@), file@),
        r.len() <= marks.len(),
{
    let ghost mv = marks_view(marks@);
    let mut out: Vec<Codemark> = Vec::new();
    let mut i: usize = 0;
    proof {
        assert(mv.take(0) =~= Seq::<MarkView>::empty());
        assert(marks_view(out@) =~= Seq::<MarkView>::empty());
        reveal(Seq::filter);
    }
    while i < marks.len()
        invariant
            i <= marks.len(),
            out.len() <= i,
            mv == marks_view(marks@),
            marks_view(out@) == without_file(mv.take(i as int), file@),
        decreases marks.len() - i,
    {
        proof {
            assert(mv.take(i + 1).drop_last() =~= mv.take(i as int));
            reveal(Seq::filter);
        }
        if !(marks[i].file == *file) {
            let ghost before = out@;
            out.push(marks[i].duplicate());
            proof {
                assert(marks_view(out@) =~= marks_view(before).push(mv[i as int]));
            }
        }
        i += 1;
    }
    proof {
        assert(mv.take(marks.len() as int) =~= mv);
    }
    out
}

/// The names of the projects of a cleaned store are names of the input store,
/// and stay unique.
proof fn lemma_clean_names(s: StoreView, filter: Option<Seq<char>>)
    requires
        unique_names(s),
    ensures
        unique_names(clean_spec(s, filter)),
        forall|k: int|
            0 <= k < clean_spec(s, filter).len() ==> exists|j: int|
                0 <= j < s.len() && (#[trigger] clean_spec(s, filter)[k]).0 == s[j].0,
    decreases s.len(),
{
    if s.len() > 0 {
        let p = s.drop_last();
        assert(unique_names(p)) by {
            assert forall|a: int, b: int|
                0 <= a < p.len() && 0 <= b < p.len() && a != b implies (#[trigger] p[a]).0
                != (#[trigger] p[b]).0 by {
                assert(s[a] == p[a] && s[b] == p[b]);
            }
        }
        lemma_clean_names(p, filter);
        let prev = clean_spec(p, filter);
        let r = clean_spec(s, filter);
        let last = s.last();
        assert forall|k: int| 0 <= k < prev.len() implies (#[trigger] prev[k]).0 != last.0 by {
            let j = choose|j: int| 0 <= j < p.len() && prev[k].0 == p[j].0;
            assert(s[j] == p[j]);
            assert(s[j].0 != s[s.len() - 1].0);
        }
        assert forall|k: int| 0 <= k < r.len() implies exists|j: int|
            0 <= j < s.len() && (#[trigger] r[k]).0 == s[j].0 by {
            if k < prev.len() {
                assert(r[k] == prev[k]);
                let j = choose|j: int| 0 <= j < p.len() && prev[k].0 == p[j].0;
                assert(s[j] == p[j]);
            } else {
                assert(r[k].0 == s[s.len() - 1].0);
            }
        }
        assert forall|a: int, b: int|
            0 <= a < r.len() && 0 <= b < r.len() && a != b implies (#[trigger] r[a]).0
            != (#[trigger] r[b]).0 by {
            if a < prev.len() && b < prev.len() {
                assert(r[a] == prev[a] && r[b] == prev[b]);
            } else if a < prev.len() {
                assert(r[a] == prev[a]);
            } else {
                assert(r[b] == prev[b]);
            }
        }
    }
}

/// The database of every scanned project.
#[derive(Debug, Clone)]
pub struct ProjectsDatabase {
    projects: Vec<(String, Vec<Codemark>)>,
}

impl View for ProjectsDatabase {
    type V = StoreView;

    closed spec fn view(&self) -> StoreView {
        self.projects@.map_values(|p: (String, Vec<Codemark>)| (p.0@, marks_view(p.1@)))
    }
}

proof fn lemma_name_at(s: StoreView, name: Seq<char>, i: int)
    requires
        unique_names(s),
        is_name_at(s, name, i),
    ensures
        name_index(s, name) == Some(i),
{
    let k = choose|k: int| is_name_at(s, name, k);
    assert(is_name_at(s, name, k));
    assert(s[k].0 == s[i].0);
}

proof fn lemma_store_put_unique(s: StoreView, name: Seq<char>, marks: Seq<MarkView>)
    requires
        unique_names(s),
    ensures
        unique_names(store_put(s, name, marks)),
        lookup(store_put(s, name, marks), name) == Some(marks),
{
    let r = store_put(s, name, marks);
    match name_index(s, name) {
        Some(i) => {
            let k = choose|k: int| is_name_at(s, name, k);
            assert(is_name_at(s, name, k));
            assert(r[k].0 == name);
            assert forall|a: int, b: int|
                0 <= a < r.len() && 0 <= b < r.len() && a != b implies (#[trigger] r[a]).0
                != (#[trigger] r[b]).0 by {
                if a != k && b != k {
                    assert(r[a] == s[a] && r[b] == s[b]);
                } else if a == k {
                    assert(r[b] == s[b]);
                    assert(s[b].0 != s[k].0);
                } else {
                    assert(r[a] == s[a]);
                    assert(s[a].0 != s[k].0);
                }
            }
            lemma_name_at(r, name, k);
        },
        None => {
            assert forall|a: int| 0 <= a < s.len() implies (#[trigger] s[a]).0 != name by {
                if s[a].0 == name {
                    assert(is_name_at(s, name, a));
                }
            }
            assert forall|a: int, b: int|
                0 <= a < r.len() && 0 <= b < r.len() && a != b implies (#[trigger] r[a]).0
                != (#[trigger] r[b]).0 by {
                if a < s.len() && b < s.len() {
                    assert(r[a] == s[a] && r[b] == s[b]);
                } else if a < s.len() {
                    assert(r[a] == s[a]);
                } else {
                    assert(r[b] == s[b]);
                }
            }
            lemma_name_at(r, name, s.len() as int);
        },
    }
}

impl ProjectsDatabase {
    /// Well-formedness: no two projects share a name.
    pub open spec fn wf(&self) -> bool {
        unique_names(self@)
    }

    /// An empty database.
    pub fn new() -> (r: ProjectsDatabase)
        ensures
            r.wf(),
            r@ == Seq::<(Seq<char>, Seq<MarkView>)>::empty(),
    {
        let r = ProjectsDatabase { projects: Vec::new() };
        assert(r@ =~= Seq::<(Seq<char>, Seq<MarkView>)>::empty());
        r
    }

    /// The number of projects.
    pub fn len(&self) -> (r: usize)
        ensures
            r == self@.len(),
    {
        self.projects.len()
    }

    /// Whether the database holds no project.
    pub fn is_empty(&self) -> (r: bool)
        ensures
            r == (self@.len() == 0),
    {
        self.projects.len() == 0
    }

    /// The index of the project `name`.
    fn index_of(&self, name: &String) -> (r: Option<usize>)
        requires
            self.wf(),
        ensures
            match r {
                Some(i) => name_index(self@, name@) == Some(i as int) && i < self@.len(),
                None => name_index(self@, name@) is None,
            },
    {
        let mut i: usize = 0;
        while i < self.projects.len()
            invariant
                i <= self.projects.len(),
                unique_names(self@),
                forall|j: int| 0 <= j < i ==> (#[trigger] self@[j]).0 != name@,
            decreases self.projects.len() - i,
        {
            assert(self@[i as int].0 == self.projects@[i as int].0@);
            if self.projects[i].0 == *name {
                proof {
                    lemma_name_at(self@, name@, i as int);
                }
                return Some(i);
            }
            i += 1;
        }
        proof {
            if name_index(self@, name@) is Some {
                let k = choose|k: int| is_name_at(self@, name@, k);
                assert(is_name_at(self@, name@, k));
            }
        }
        None
    }

    /// Whether the project `name` is in the database.
    pub fn contains_key(&self, name: &str) -> (r: bool)
        requires
            self.wf(),
        ensures
            r == (lookup(self@, name@) is Some),
    {
        let n = String::from_str(name);
        self.index_of(&n).is_some()
    }

    /// The annotations of the project `name`.
    pub fn get(&self, name: &str) -> (r: Option<&Vec<Codemark>>)
        requires
            self.wf(),
        ensures
            match r {
                Some(v) => lookup(self@, name@) == Some(marks_view(v@)),
                None => lookup(self@, name@) is None,
            },
    {
        let n = String::from_str(name);
        match self.index_of(&n) {
            Some(i) => Some(&self.projects[i].1),
            None => None,
        }
    }

    /// Sets the annotations of the project `name`, replacing what it held.
    pub fn insert(&mut self, name: String, marks: Vec<Codemark>)
        requires
            old(self).wf(),
        ensures
            final(self).wf(),
            final(self)@ == store_put(old(self)@, name@, marks_view(marks@)),
    {
        proof {
            lemma_store_put_unique(self@, name@, marks_view(marks@));
        }
        let ghost before = self@;
        match self.index_of(&name) {
            Some(i) => {
                self.projects.set(i, (name, marks));
                assert(self@ =~= store_put(before, name@, marks_view(marks@)));
            },
            None => {
                self.projects.push((name, marks));
                assert(self@ =~= store_put(before, name@, marks_view(marks@)));
            },
        }
    }

    /// The number of unresolved entries over every project, or the largest
    /// `usize` where that number exceeds it.
    pub fn total_unresolved(&self) -> (r: usize)
        ensures
            r == capped(total_unresolved(self@)),
    {
        let ghost sv = self@;
        let mut n: usize = 0;
        let mut i: usize = 0;
        while i < self.projects.len()
            invariant
                i <= self.projects.len(),
                sv == self@,
                n == capped(total_unresolved(sv.take(i as int))),
            decreases self.projects.len() - i,
        {
            proof {
                assert(sv.take(i + 1).drop_last() =~= sv.take(i as int));
                assert(sv[i as int].1 == marks_view(self.projects@[i as int].1@));
            }
            let c = count_unresolved(&self.projects[i].1);
            n = n.saturating_add(c);
            i += 1;
        }
        proof {
            assert(sv.take(self.projects.len() as int) =~= sv);
        }
        n
    }

    /// Records a full scan of the project `name` that found `fresh`, and
    /// returns the number of unresolved entries over the whole database (capped
    /// at the largest `usize`).
    pub fn scan_project(&mut self, name: &str, fresh: &Vec<Codemark>) -> (r: usize)
        requires
            old(self).wf(),
        ensures
            final(self).wf(),
            final(self)@ == scan_spec(old(self)@, name@, marks_view(fresh@)),
            r == capped(total_unresolved(final(self)@)),
    {
        let n = String::from_str(name);
        let merged = match self.get(name) {
            Some(existing) => reconcile(existing, fresh),
            None => {
                let empty: Vec<Codemark> = Vec::new();
                proof {
                    assert(marks_view(empty@) =~= Seq::<MarkView>::empty());
                }
                reconcile(&empty, fresh)
            },
        };
        self.insert(n, merged);
        self.total_unresolved()
    }

    /// The database without the resolved entries of the projects that
    /// `filter` selects (every project when it is `None`); a selected project
    /// left without entries is dropped.
    pub fn cleaned(&self, filter: &Option<String>) -> (r: ProjectsDatabase)
        requires
            self.wf(),
        ensures
            r.wf(),
            r@ == clean_spec(self@, opt_view(*filter)),
    {
        let ghost sv = self@;
        let ghost fv = opt_view(*filter);
        let mut out: Vec<(String, Vec<Codemark>)> = Vec::new();
        let mut i: usize = 0;
        proof {
            assert(sv.take(0) =~= Seq::<(Seq<char>, Seq<MarkView>)>::empty());
        }
        while i < self.projects.len()
            invariant
                i <= self.projects.len(),
                sv == self@,
                fv == opt_view(*filter),
                (ProjectsDatabase { projects: out })@ == clean_spec(sv.take(i as int), fv),
            decreases self.projects.len() - i,
        {
            proof {
                assert(sv.take(i + 1).drop_last() =~= sv.take(i as int));
                assert(sv[i as int].1 == marks_view(self.projects@[i as int].1@));
                assert(sv[i as int].0 == self.projects@[i as int].0@);
            }
            let ghost before = out@;
            let selected = match filter {
                Some(f) => self.projects[i].0 == *f,
                None => true,
            };
            if selected {
                let kept = keep_unresolved(&self.projects[i].1);
                if kept.len() > 0 {
                    out.push((self.projects[i].0.clone(), kept));
                }
            } else {
                out.push((self.projects[i].0.clone(), duplicate_marks(&self.projects[i].1)));
            }
            proof {
                assert((ProjectsDatabase { projects: out })@ =~= clean_spec(
                    sv.take(i + 1),
                    fv,
                ));
            }
            i += 1;
        }
        proof {
            assert(sv.take(self.projects.len() as int) =~= sv);
            lemma_clean_names(sv, fv);
        }
        ProjectsDatabase { projects: out }
    }

    /// Replaces the entries of the project `name` that belong to `file` by
    /// `fresh` (a watched file was scanned again), and returns the number of
    /// entries removed. A missing project is created only when `fresh` is not
    /// empty.
    pub fn replace_file_marks(&mut self, name: &str, file: &str, fresh: Vec<Codemark>) -> (r: usize)
        requires
            old(self).wf(),
        ensures
            final(self).wf(),
            final(self)@ == replace_file_spec(old(self)@, name@, file@, marks_view(fresh@)),
            r == match lookup(old(self)@, name@) {
                Some(m) => m.len() - without_file(m, file@).len(),
                None => 0,
            },
    {
        let n = String::from_str(name);
        let f = String::from_str(file);
        let mut fresh = fresh;
        match self.index_of(&n) {
            Some(i) => {
                let old_len = self.projects[i].1.len();
                let mut kept = marks_without_file(&self.projects[i].1, &f);
                let removed = old_len - kept.len();
                let ghost k = kept@;
                let ghost fr = fresh@;
                kept.append(&mut fresh);
                proof {
                    assert(marks_view(kept@) =~= marks_view(k) + marks_view(fr));
                    assert(self@[i as int].1 == marks_view(self.projects@[i as int].1@));
                }
                self.insert(n, kept);
                removed
            },
            None => {
                if fresh.len() > 0 {
                    self.insert(n, fresh);
                }
                0
            },
        }
    }

    /// Watch mode: the file `file` of project `project` changed and now reads
    /// `lines`. Unless the file is skipped (an ignore pattern occurs in its
    /// path, or it has a binary extension), its entries are replaced by the
    /// annotations its lines hold. Returns the number of those annotations
    /// (0 for a skipped file, which changes nothing).
    pub fn update_file(
        &mut self,
        matcher: &AnnotationMatcher,
        ignore_patterns: &[String],
        project: &str,
        file: &str,
        lines: &Vec<String>,
    ) -> (r: usize)
        requires
            old(self).wf(),
        ensures
            final(self).wf(),
            ({
                let skipped = ignored_by_patterns(file@, patterns_view(ignore_patterns@))
                    || has_binary_extension(file@);
                let found = scan_lines_spec(matcher@, file@, lines_view(lines@));
                &&& skipped ==> final(self)@ == old(self)@ && r == 0
                &&& !skipped ==> final(self)@ == replace_file_spec(old(self)@, project@, file@, found)
                    && r == found.len()
            }),
    {
        if should_ignore_file(file, ignore_patterns) {
            return 0;
        }
        let marks = matcher.scan_lines(file, lines);
        let n = marks.len();
        proof {
            assert(n == marks_view(marks@).len());
        }
        self.replace_file_marks(project, file, marks);
        n
    }

    /// The (name, annotations) pairs, in insertion order.
    pub fn entries(&self) -> (r: &Vec<(String, Vec<Codemark>)>)
        ensures
            r@.len() == self@.len(),
            forall|i: int|
                0 <= i < r@.len() ==> (#[trigger] r@[i]).0@ == self@[i].0 && marks_view(r@[i].1@)
                    == self@[i].1,
    {
        &self.projects
    }
}

/// The model of an optional string.
pub open spec fn opt_view(o: Option<String>) -> Option<Seq<char>> {
    match o {
        Some(s) => Some(s@),
        None => None,
    }
}

/// Idempotence: a second scan of a project that found the same annotations
/// leaves the database as the first left it, so the unresolved count is the
/// same both times, and the project holds no two entries with one identity.
pub proof fn lemma_scan_idempotent(s: StoreView, name: Seq<char>, fresh: Seq<MarkView>)
    requires
        unique_names(s),
        lookup(s, name) matches Some(m) ==> unique_keys(m),
    ensures
        scan_spec(scan_spec(s, name, fresh), name, fresh) == scan_spec(s, name, fresh),
        total_unresolved(scan_spec(scan_spec(s, name, fresh), name, fresh)) == total_unresolved(
            scan_spec(s, name, fresh),
        ),
        lookup(scan_spec(s, name, fresh), name) matches Some(m) && unique_keys(m),
{
    let existing = match lookup(s, name) {
        Some(m) => m,
        None => Seq::<MarkView>::empty(),
    };
    let r1 = reconcile_spec(existing, fresh);
    let s1 = scan_spec(s, name, fresh);
    lemma_store_put_unique(s, name, r1);
    assert(lookup(s1, name) == Some(r1));
    lemma_reconcile_idempotent(existing, fresh);
    crate::reconcile::lemma_reconcile_unique(existing, fresh);
    let k = choose|k: int| is_name_at(s1, name, k);
    assert(is_name_at(s1, name, k));
    lemma_name_at(s1, name, k);
    assert(s1[k] == (name, r1));
    assert(scan_spec(s1, name, fresh) =~= s1);
}

/// What a clean-up leaves of the project `name` of `s`.
pub open spec fn cleaned_project(s: StoreView, filter: Option<Seq<char>>, name: Seq<char>) -> Option<Seq<MarkView>> {
    if filter_selects(filter, name) {
        match lookup(s, name) {
            Some(m) => if unresolved_only(m).len() == 0 {
                None
            } else {
                Some(unresolved_only(m))
            },
            None => None,
        }
    } else {
        lookup(s, name)
    }
}

proof fn lemma_lookup_push(p: StoreView, n: Seq<char>, x: Seq<MarkView>, name: Seq<char>)
    requires
        unique_names(p),
        forall|k: int| 0 <= k < p.len() ==> (#[trigger] p[k]).0 != n,
    ensures
        lookup(p.push((n, x)), name) == if name == n {
            Some(x)
        } else {
            lookup(p, name)
        },
{
    let q = p.push((n, x));
    if name == n {
        assert(is_name_at(q, name, p.len() as int));
        let k = choose|k: int| is_name_at(q, name, k);
        assert(is_name_at(q, name, k));
        if k < p.len() {
            assert(q[k] == p[k]);
        }
    } else {
        if exists|k: int| is_name_at(q, name, k) {
            let k = choose|k: int| is_name_at(q, name, k);
            assert(is_name_at(q, name, k));
            assert(q[k] == p[k]);
            assert(is_name_at(p, name, k));
            lemma_name_at(p, name, k);
        } else {
            assert forall|k: int| !is_name_at(p, name, k) by {
                if is_name_at(p, name, k) {
                    assert(q[k] == p[k]);
                    assert(is_name_at(q, name, k));
                }
            }
        }
    }
}

/// Clean-up: a project that the filter selects keeps exactly its unresolved
/// entries, in order, and disappears when none is left; every other project is
/// left as it was.
pub proof fn lemma_clean_exact(s: StoreView, filter: Option<Seq<char>>, name: Seq<char>)
    requires
        unique_names(s),
    ensures
        lookup(clean_spec(s, filter), name) == cleaned_project(s, filter, name),
    decreases s.len(),
{
    if s.len() == 0 {
        assert(!(exists|k: int| is_name_at(s, name, k)));
        assert(!(exists|k: int| is_name_at(clean_spec(s, filter), name, k)));
    } else {
        let p = s.drop_last();
        let (n, ms) = s.last();
        assert(unique_names(p)) by {
            assert forall|a: int, b: int|
                0 <= a < p.len() && 0 <= b < p.len() && a != b implies (#[trigger] p[a]).0
                != (#[trigger] p[b]).0 by {
                assert(s[a] == p[a] && s[b] == p[b]);
            }
        }
        assert forall|k: int| 0 <= k < p.len() implies (#[trigger] p[k]).0 != n by {
            assert(s[k] == p[k]);
            assert(s[k].0 != s[s.len() - 1].0);
        }
        assert(s =~= p.push((n, ms)));
        lemma_lookup_push(p, n, ms, name);
        lemma_clean_exact(p, filter, name);
        lemma_clean_names(p, filter);
        let prev = clean_spec(p, filter);
        assert forall|k: int| 0 <= k < prev.len() implies (#[trigger] prev[k]).0 != n by {
            let j = choose|j: int| 0 <= j < p.len() && prev[k].0 == p[j].0;
        }
        if filter_selects(filter, n) {
            if unresolved_only(ms).len() != 0 {
                lemma_lookup_push(prev, n, unresolved_only(ms), name);
            } else if name == n {
                assert(p.len() < s.len());
                if lookup(p, name) is Some {
                    let k = choose|k: int| is_name_at(p, name, k);
                    assert(is_name_at(p, name, k));
                }
                assert(lookup(p, name) is None);
            }
        } else {
            lemma_lookup_push(prev, n, ms, name);
        }
        if name == n && lookup(p, name) is Some {
            let k = choose|k: int| is_name_at(p, name, k);
            assert(is_name_at(p, name, k));
        }
    }
}

/// The marker that a listing puts before an entry: a check mark for a resolved
/// entry, blanks of the same width otherwise.
pub fn resolved_prefix(resolved: bool) -> (r: &'static str)
    ensures
        r@ == if resolved { "\u{2705} "@ } else { "   "@ },
{
    if resolved {
        "\u{2705} "
    } else {
        "   "
    }
}

} // verus!
