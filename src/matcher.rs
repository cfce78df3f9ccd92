//! Recognising annotation lines with a regular expression.
use vstd::prelude::*;
use crate::codemark::{marks_view, Codemark, CodemarksConfig, MarkView};
use crate::text::{contains_text, is_substring, trim_of, trim_text};

verus! {

#[verifier::external_type_specification]
#[verifier::external_body]
pub struct ExRegex(regex::Regex);

/// Whether the regex engine accepts `pattern`.
pub uninterp spec fn regex_is_valid(pattern: Seq<char>) -> bool;

/// What the regex engine finds in `line` for the valid `pattern`: `None` when
/// it does not match; otherwise the text of the first capture group, or `None`
/// when that group did not take part in the match (or does not exist).
pub uninterp spec fn regex_captures(pattern: Seq<char>, line: Seq<char>) -> Option<Option<Seq<char>>>;

/// Relies on `regex::Regex::new`: it compiles the pattern or reports it as
/// invalid, and which of the two depends on the pattern alone. The error is
/// kept as its message.
#[verifier::external_body]
fn compile_regex(pattern: &str) -> (r: Result<regex::Regex, String>)
    ensures
        r is Ok <==> regex_is_valid(pattern@),
{
    match regex::Regex::new(pattern) {
        Ok(re) => Ok(re),
        Err(e) => Err(e.to_string()),
    }
}

/// The longest description, in characters, that is accepted as an annotation.
pub const MAX_DESCRIPTION_CHARS: usize = 500;

/// A description that reproduces the syntax of a pattern (as when the tool
/// scans a file that holds annotation patterns), or that is implausibly long.
pub open spec fn looks_like_pattern(text: Seq<char>) -> bool {
    ||| text.len() > MAX_DESCRIPTION_CHARS
    ||| is_substring("(?:"@, text)
    ||| is_substring("(?i)"@, text)
    ||| is_substring("\\s*"@, text)
    ||| is_substring("(.*)"@, text)
}

/// The description recorded for `line` under `pattern`: the trimmed first
/// capture group (the trimmed line when the pattern has no such group), unless
/// the line does not match or the description looks like a pattern.
pub open spec fn description_of(pattern: Seq<char>, line: Seq<char>) -> Option<Seq<char>> {
    match regex_captures(pattern, line) {
        None => None,
        Some(group) => {
            let text = trim_of(
                match group {
                    Some(g) => g,
                    None => line,
                },
            );
            if looks_like_pattern(text) {
                None
            } else {
                Some(text)
            }
        },
    }
}

/// The annotations that `lines` of `file` hold under `pattern`, in order, each
/// at its 1-based line number and unresolved.
pub open spec fn scan_lines_spec(pattern: Seq<char>, file: Seq<char>, lines: Seq<Seq<char>>) -> Seq<MarkView>
    decreases lines.len(),
{
    if lines.len() == 0 {
        Seq::empty()
    } else {
        let prev = scan_lines_spec(pattern, file, lines.drop_last());
        match description_of(pattern, lines.last()) {
            Some(d) => prev.push(MarkView { file, line: lines.len(), text: d, resolved: false }),
            None => prev,
        }
    }
}

/// The models of a vector of lines.
pub open spec fn lines_view(lines: Seq<String>) -> Seq<Seq<char>> {
    lines.map_values(|l: String| l@)
}

/// The model of an optional text.
pub open spec fn opt_text(o: Option<String>) -> Option<Seq<char>> {
    match o {
        Some(s) => Some(s@),
        None => None,
    }
}

/// Whether `text` is accepted as the description of an annotation.
pub fn is_plausible_description(text: &str) -> (r: bool)
    ensures
        r == !looks_like_pattern(text@),
{
    text.unicode_len() <= MAX_DESCRIPTION_CHARS && !contains_text(text, "(?:") && !contains_text(
        text,
        "(?i)",
    ) && !contains_text(text, "\\s*") && !contains_text(text, "(.*)")
}

/// A compiled annotation pattern.
pub struct AnnotationMatcher {
    pattern: String,
    regex: regex::Regex,
}

impl View for AnnotationMatcher {
    type V = Seq<char>;

    closed spec fn view(&self) -> Seq<char> {
        self.pattern@
    }
}

impl AnnotationMatcher {
    /// Compiles `pattern`; fails with the engine's message when it is invalid.
    pub fn new(pattern: &str) -> (r: Result<AnnotationMatcher, String>)
        ensures
            r is Ok <==> regex_is_valid(pattern@),
            r matches Ok(m) ==> m@ == pattern@,
    {
        match compile_regex(pattern) {
            Ok(regex) => Ok(AnnotationMatcher { pattern: String::from_str(pattern), regex }),
            Err(e) => Err(e),
        }
    }

    /// The pattern text.
    pub fn pattern(&self) -> (r: &String)
        ensures
            r@ == self@,
    {
        &self.pattern
    }

    /// Relies on `regex::Regex::captures` and `regex::Captures::get`: `None`
    /// when the line does not match, else the text of capture group 1 when it
    /// took part in the match. The regex was compiled from `self.pattern` (the
    /// only constructor does so and the fields are private).
    #[verifier::external_body]
    fn first_group(&self, line: &str) -> (r: Option<Option<String>>)
        ensures
            match r {
                None => regex_captures(self@, line@) is None,
                Some(g) => regex_captures(self@, line@) == Some(opt_text(g)),
            },
    {
        match self.regex.captures(line) {
            Some(caps) => Some(caps.get(1).map(|g| g.as_str().to_string())),
            None => None,
        }
    }

    /// The description that `line` gives as an annotation, if it is one.
    pub fn describe(&self, line: &str) -> (r: Option<String>)
        ensures
            opt_text(r) == description_of(self@, line@),
    {
        match self.first_group(line) {
            None => None,
            Some(group) => {
                let text = match group {
                    Some(g) => trim_text(g.as_str()),
                    None => trim_text(line),
                };
                if is_plausible_description(text.as_str()) {
                    Some(text)
                } else {
                    None
                }
            },
        }
    }

    /// The annotations in the `lines` of `file`, in order, each at its 1-based
    /// line number and unresolved.
    pub fn scan_lines(&self, file: &str, lines: &Vec<String>) -> (r: Vec<Codemark>)
        ensures
            marks_view(r@) == scan_lines_spec(self@, file@, lines_view(lines@)),
    {
        let ghost lv = lines_view(lines@);
        let mut out: Vec<Codemark> = Vec::new();
        let mut i: usize = 0;
        proof {
            assert(lv.take(0) =~= Seq::<Seq<char>>::empty());
            assert(marks_view(out@) =~= Seq::<MarkView>::empty());
        }
        while i < lines.len()
            invariant
                i <= lines.len(),
                lv == lines_view(lines@),
                marks_view(out@) == scan_lines_spec(self@, file@, lv.take(i as int)),
            decreases lines.len() - i,
        {
            proof {
                assert(lv.take(i + 1).drop_last() =~= lv.take(i as int));
            }
            match self.describe(lines[i].as_str()) {
                Some(d) => {
                    let ghost before = out@;
                    out.push(
                        Codemark {
                            file: String::from_str(file),
                            line_number: i + 1,
                            description: d,
                            resolved: false,
                        },
                    );
                    proof {
                        assert(marks_view(out@) =~= marks_view(before).push(
                            MarkView { file: file@, line: (i + 1) as nat, text: d@, resolved: false },
                        ));
                    }
                },
                None => {},
            }
            i += 1;
        }
        proof {
            assert(lv.take(lines.len() as int) =~= lv);
        }
        out
    }
}

impl CodemarksConfig {
    /// Sets the annotation pattern. An invalid pattern is rejected with the
    /// engine's message, and the configuration keeps its previous pattern.
    pub fn set_pattern(&mut self, pattern: &str) -> (r: Result<(), String>)
        ensures
            r is Ok <==> regex_is_valid(pattern@),
            r is Ok ==> final(self).annotation_pattern@ == pattern@,
            r is Err ==> final(self).annotation_pattern@ == old(self).annotation_pattern@,
    {
        match compile_regex(pattern) {
            Ok(_) => {
                self.annotation_pattern = String::from_str(pattern);
                Ok(())
            },
            Err(e) => Err(e),
        }
    }
}

} // verus!
