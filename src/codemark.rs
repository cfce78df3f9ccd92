use vstd::prelude::*;

verus! {

/// One matched annotation line.
#[derive(Debug, Clone)]
pub struct Codemark {
    /// Path of the file, relative to the scanned root.
    pub file: String,
    /// 1-based line number at the time the annotation was last seen.
    pub line_number: usize,
    /// The annotation text.
    pub description: String,
    /// Set when the annotation was seen before but not found by the latest scan.
    pub resolved: bool,
}

/// The mathematical model of a [`Codemark`].
pub struct MarkView {
    pub file: Seq<char>,
    pub line: nat,
    pub text: Seq<char>,
    pub resolved: bool,
}

impl View for Codemark {
    type V = MarkView;

    open spec fn view(&self) -> MarkView {
        MarkView {
            file: self.file@,
            line: self.line_number as nat,
            text: self.description@,
            resolved: self.resolved,
        }
    }
}

/// The models of a sequence of annotations.
pub open spec fn marks_view(s: Seq<Codemark>) -> Seq<MarkView> {
    s.map_values(|c: Codemark| c@)
}

impl Codemark {
    /// A copy of this annotation with the same model.
    pub fn duplicate(&self) -> (r: Codemark)
        ensures
            r@ == self@,
    {
        Codemark {
            file: self.file.clone(),
            line_number: self.line_number,
            description: self.description.clone(),
            resolved: self.resolved,
        }
    }
}

/// Copies a vector of annotations, keeping each model.
pub fn duplicate_marks(v: &Vec<Codemark>) -> (r: Vec<Codemark>)
    ensures
        marks_view(r@) == marks_view(v@),
{
    let mut r: Vec<Codemark> = Vec::new();
    let mut i: usize = 0;
    while i < v.len()
        invariant
            i <= v.len(),
            r.len() == i,
            forall|j: int| 0 <= j < i ==> (#[trigger] r@[j])@ == v@[j]@,
        decreases v.len() - i,
    {
        r.push(v[i].duplicate());
        i += 1;
    }
    proof {
        assert(marks_view(r@) =~= marks_view(v@));
    }
    r
}

/// The compiled-in annotation pattern: a comment leader (`//`, `#`, `<!--`
/// or `*`), then `TODO`, `FIXME` or `HACK` in any case, an optional colon,
/// and the remainder of the line as the first capture group.
pub open spec fn default_pattern_text() -> Seq<char> {
    "(?i)(?://|#|<!--|\\*)\\s*(?:TODO|FIXME|HACK)\\s*:?\\s*(.*)$"@
}

/// Returns the compiled-in annotation pattern.
pub fn default_annotation_pattern() -> (r: String)
    ensures
        r@ == default_pattern_text(),
{
    let r = String::from_str("(?i)(?://|#|<!--|\\*)\\s*(?:TODO|FIXME|HACK)\\s*:?\\s*(.*)$");
    r
}

/// The configuration: the pattern used to recognise annotation lines.
#[derive(Debug, Clone)]
pub struct CodemarksConfig {
    pub annotation_pattern: String,
}

impl Default for CodemarksConfig {
    fn default() -> (r: CodemarksConfig)
        ensures
            r.annotation_pattern@ == default_pattern_text(),
    {
        CodemarksConfig { annotation_pattern: default_annotation_pattern() }
    }
}

} // verus!
