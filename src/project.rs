//! Naming a project after its build manifest (package name, module name, ...),
//! falling back to the name of its directory. Reading the manifest files is
//! left to the caller, which hands over their contents.
use vstd::prelude::*;
use crate::filter::{file_name_of, final_component};
use crate::matcher::{lines_view, opt_text};
use crate::parse::{
    text_chars, field_after, field_after_exec, find_from, find_text_from, split_lines, split_lines_spec,
    starts_with, starts_with_exec, strip_prefixes, strip_prefixes_exec, trim_char, trim_char_exec,
};
use crate::text::{trim_of, trim_text};

verus! {

/// What `serde_json` finds as the string value of the top-level field `field`
/// of the JSON document `content` (`None` when the document does not parse,
/// has no such field, or its value is not a string).
pub uninterp spec fn json_string_field(content: Seq<char>, field: Seq<char>) -> Option<Seq<char>>;

/// Relies on `serde_json::from_str` into a `serde_json::Value`, `Value::get`
/// and `Value::as_str`: the string value of a top-level field; the result
/// depends on the document and the field name alone.
#[verifier::external_body]
fn json_field(content: &str, field: &str) -> (r: Option<String>)
    ensures
        opt_text(r) == json_string_field(content@, field@),
{
    let value: serde_json::Value = match serde_json::from_str(content) {
        Ok(v) => v,
        Err(_) => return None,
    };
    match value.get(field) {
        Some(v) => match v.as_str() {
            Some(s) => Some(s.to_string()),
            None => None,
        },
        None => None,
    }
}

/// The kinds of build manifest that name a project, in order of preference.
#[derive(Debug, Clone, Copy, PartialEq, Eq)]
pub enum ManifestKind {
    CargoToml,
    PackageJson,
    GoMod,
    BuildSbt,
    PomXml,
    BuildGradle,
    BuildGradleKts,
    MixExs,
    PyprojectToml,
    SetupPy,
}

/// The file name of a manifest of kind `kind`.
pub open spec fn manifest_file_name(kind: ManifestKind) -> Seq<char> {
    match kind {
        ManifestKind::CargoToml => "Cargo.toml"@,
        ManifestKind::PackageJson => "package.json"@,
        ManifestKind::GoMod => "go.mod"@,
        ManifestKind::BuildSbt => "build.sbt"@,
        ManifestKind::PomXml => "pom.xml"@,
        ManifestKind::BuildGradle => "build.gradle"@,
        ManifestKind::BuildGradleKts => "build.gradle.kts"@,
        ManifestKind::MixExs => "mix.exs"@,
        ManifestKind::PyprojectToml => "pyproject.toml"@,
        ManifestKind::SetupPy => "setup.py"@,
    }
}

impl ManifestKind {
    /// The file name of the manifest.
    pub fn file_name(&self) -> (r: &'static str)
        ensures
            r@ == manifest_file_name(*self),
    {
        match self {
            ManifestKind::CargoToml => "Cargo.toml",
            ManifestKind::PackageJson => "package.json",
            ManifestKind::GoMod => "go.mod",
            ManifestKind::BuildSbt => "build.sbt",
            ManifestKind::PomXml => "pom.xml",
            ManifestKind::BuildGradle => "build.gradle",
            ManifestKind::BuildGradleKts => "build.gradle.kts",
            ManifestKind::MixExs => "mix.exs",
            ManifestKind::PyprojectToml => "pyproject.toml",
            ManifestKind::SetupPy => "setup.py",
        }
    }
}

/// The value of an assignment line `prefix ... sep value` (after trimming the
/// line), if the line is one.
pub open spec fn line_value(line: Seq<char>, prefix: Seq<char>, sep: Seq<char>) -> Option<Seq<char>> {
    let t = trim_of(line);
    if starts_with(t, prefix) {
        field_after(t, sep)
    } else {
        None
    }
}

/// The first result of `f` that is not `None`, over `lines` in order.
pub open spec fn first_some(lines: Seq<Seq<char>>, f: spec_fn(Seq<char>) -> Option<Seq<char>>) -> Option<Seq<char>>
    decreases lines.len(),
{
    if lines.len() == 0 {
        None
    } else {
        match f(lines[0]) {
            Some(v) => Some(v),
            None => first_some(lines.drop_first(), f),
        }
    }
}

/// `line_value` for the given prefix and separator.
pub open spec fn assignment_fn(prefix: Seq<char>, sep: Seq<char>) -> spec_fn(Seq<char>) -> Option<Seq<char>> {
    |l: Seq<char>| line_value(l, prefix, sep)
}

/// The value of the first assignment line `prefix ... sep value` of `content`.
pub open spec fn first_assignment(content: Seq<char>, prefix: Seq<char>, sep: Seq<char>) -> Option<Seq<char>> {
    first_some(split_lines_spec(content), assignment_fn(prefix, sep))
}

/// The application name of a `mix.exs` line `app: :name,`, if the line is one.
pub open spec fn mix_line_value(line: Seq<char>) -> Option<Seq<char>> {
    let t = trim_of(line);
    if starts_with(t, "app:"@) {
        let v = trim_of(trim_char(trim_of(t.skip(4)), ','));
        if starts_with(v, ":"@) {
            Some(strip_prefixes(v, ":"@))
        } else {
            None
        }
    } else {
        None
    }
}

/// `mix_line_value` as a function value.
pub open spec fn mix_fn() -> spec_fn(Seq<char>) -> Option<Seq<char>> {
    |l: Seq<char>| mix_line_value(l)
}

/// The module name of a `go.mod`: the last path segment of the module path
/// on its first line.
pub open spec fn go_module_name(content: Seq<char>) -> Option<Seq<char>> {
    let first = split_lines_spec(content)[0];
    if starts_with(first, "module "@) {
        Some(file_name_of(trim_of(strip_prefixes(first, "module "@))))
    } else {
        None
    }
}

/// The text of the first `<artifactId>` element of a `pom.xml`, trimmed,
/// when it is not empty.
pub open spec fn pom_artifact(content: Seq<char>) -> Option<Seq<char>> {
    match find_from(content, "<artifactId>"@, 0) {
        Some(start) => match find_from(content, "</artifactId>"@, start) {
            Some(end) => if end > start + 12 {
                Some(trim_of(content.subrange(start + 12, end)))
            } else {
                None
            },
            None => None,
        },
        None => None,
    }
}

/// The quoted text after the first `name=` of a `setup.py`: the quote is the
/// first `"` after it, or else the first `'`, and the text runs up to the
/// next such quote.
pub open spec fn setup_py_name(content: Seq<char>) -> Option<Seq<char>> {
    match find_from(content, "name="@, 0) {
        Some(ns) => {
            let after = content.skip(ns + 5);
            let quote = match find_from(after, "\""@, 0) {
                Some(i) => Some(i),
                None => find_from(after, "'"@, 0),
            };
            match quote {
                Some(q) => {
                    let rest = after.skip(q + 1);
                    match find_from(rest, seq![after[q]], 0) {
                        Some(e) => Some(rest.take(e)),
                        None => None,
                    }
                },
                None => None,
            }
        },
        None => None,
    }
}

/// The project name that a manifest of kind `kind` with text `content` gives.
/// Assignment values are trimmed and lose their surrounding quotes; in
/// `build.sbt` a trailing comma after the quoted name is dropped as well.
pub open spec fn manifest_name_spec(kind: ManifestKind, content: Seq<char>) -> Option<Seq<char>> {
    match kind {
        ManifestKind::CargoToml => match first_assignment(content, "name"@, "="@) {
            Some(v) => Some(trim_char(trim_of(v), '"')),
            None => None,
        },
        ManifestKind::PackageJson => json_string_field(content, "name"@),
        ManifestKind::GoMod => go_module_name(content),
        ManifestKind::BuildSbt => match first_assignment(content, "name :="@, ":="@) {
            Some(v) => Some(trim_of(trim_char(trim_of(trim_char(trim_of(v), ',')), '"'))),
            None => None,
        },
        ManifestKind::PomXml => pom_artifact(content),
        ManifestKind::BuildGradle | ManifestKind::BuildGradleKts => match first_assignment(
            content,
            "rootProject.name"@,
            "="@,
        ) {
            Some(v) => Some(trim_char(trim_char(trim_of(v), '"'), '\'')),
            None => None,
        },
        ManifestKind::MixExs => first_some(split_lines_spec(content), mix_fn()),
        ManifestKind::PyprojectToml => match first_assignment(content, "name ="@, "="@) {
            Some(v) => Some(trim_char(trim_char(trim_of(v), '"'), '\'')),
            None => None,
        },
        ManifestKind::SetupPy => setup_py_name(content),
    }
}

/// The value of `line` as an assignment line `prefix ... sep value`.
fn assignment_in_line(line: &str, prefix: &str, sep: &str) -> (r: Option<String>)
    ensures
        opt_text(r) == line_value(line@, prefix@, sep@),
{
    let t = trim_text(line);
    if starts_with_exec(&text_chars(t.as_str()), &text_chars(prefix)) {
        field_after_exec(t.as_str(), sep)
    } else {
        None
    }
}

/// The value of the first assignment line `prefix ... sep value` of `content`.
fn first_assignment_exec(content: &str, prefix: &str, sep: &str) -> (r: Option<String>)
    ensures
        opt_text(r) == first_assignment(content@, prefix@, sep@),
{
    let lines = split_lines(content);
    let ghost lv = lines_view(lines@);
    let ghost f = assignment_fn(prefix@, sep@);
    let mut i: usize = 0;
    proof {
        assert(lv.skip(0) =~= lv);
    }
    while i < lines.len()
        invariant
            i <= lines.len(),
            lv == lines_view(lines@),
            lv == split_lines_spec(content@),
            f == assignment_fn(prefix@, sep@),
            first_some(lv, f) == first_some(lv.skip(i as int), f),
        decreases lines.len() - i,
    {
        proof {
            assert(lv.skip(i as int)[0] == lines@[i as int]@);
            assert(lv.skip(i as int).drop_first() =~= lv.skip(i + 1));
        }
        match assignment_in_line(lines[i].as_str(), prefix, sep) {
            Some(v) => {
                return Some(v);
            },
            None => {},
        }
        i += 1;
    }
    None
}

/// The application name of a `mix.exs` line `app: :name,`.
fn mix_line(line: &str) -> (r: Option<String>)
    ensures
        opt_text(r) == mix_line_value(line@),
{
    let t = trim_text(line);
    let tc = text_chars(t.as_str());
    proof {
        reveal_strlit("app:");
    }
    if starts_with_exec(&tc, &text_chars("app:")) {
        let after = t.as_str().substring_char(4, tc.len());
        proof {
            assert(after@ =~= t@.skip(4));
        }
        let inner = trim_text(after);
        let no_commas = trim_char_exec(inner.as_str(), ',');
        let v = trim_text(no_commas.as_str());
        if starts_with_exec(&text_chars(v.as_str()), &text_chars(":")) {
            Some(strip_prefixes_exec(v.as_str(), ":"))
        } else {
            None
        }
    } else {
        None
    }
}

/// The application name of a `mix.exs`.
fn mix_name(content: &str) -> (r: Option<String>)
    ensures
        opt_text(r) == first_some(split_lines_spec(content@), mix_fn()),
{
    let lines = split_lines(content);
    let ghost lv = lines_view(lines@);
    let mut i: usize = 0;
    proof {
        assert(lv.skip(0) =~= lv);
    }
    while i < lines.len()
        invariant
            i <= lines.len(),
            lv == lines_view(lines@),
            lv == split_lines_spec(content@),
            first_some(lv, mix_fn()) == first_some(lv.skip(i as int), mix_fn()),
        decreases lines.len() - i,
    {
        proof {
            assert(lv.skip(i as int)[0] == lines@[i as int]@);
            assert(lv.skip(i as int).drop_first() =~= lv.skip(i + 1));
        }
        match mix_line(lines[i].as_str()) {
            Some(v) => {
                return Some(v);
            },
            None => {},
        }
        i += 1;
    }
    None
}

/// The module name of a `go.mod`.
fn go_name(content: &str) -> (r: Option<String>)
    ensures
        opt_text(r) == go_module_name(content@),
{
    let lines = split_lines(content);
    proof {
        assert(lines_view(lines@).len() == lines@.len());
    }
    let first = lines[0].as_str();
    proof {
        assert(first@ == split_lines_spec(content@)[0]);
    }
    if starts_with_exec(&text_chars(first), &text_chars("module ")) {
        let stripped = strip_prefixes_exec(first, "module ");
        let m = trim_text(stripped.as_str());
        Some(String::from_str(final_component(m.as_str())))
    } else {
        None
    }
}

/// The first `<artifactId>` of a `pom.xml`.
fn pom_name(content: &str) -> (r: Option<String>)
    ensures
        opt_text(r) == pom_artifact(content@),
{
    let cs = text_chars(content);
    let open = text_chars("<artifactId>");
    let close = text_chars("</artifactId>");
    proof {
        reveal_strlit("<artifactId>");
    }
    match find_text_from(&cs, &open, 0) {
        Some(start) => match find_text_from(&cs, &close, start) {
            Some(end) => {
                let olen = open.len();
                assert(start + olen <= cs.len());
                let from = start + olen;
                if end > from {
                    Some(trim_text(content.substring_char(from, end)))
                } else {
                    None
                }
            },
            None => None,
        },
        None => None,
    }
}

/// The quoted name after the first `name=` of a `setup.py`.
fn setup_name(content: &str) -> (r: Option<String>)
    ensures
        opt_text(r) == setup_py_name(content@),
{
    let cs = text_chars(content);
    let key = text_chars("name=");
    proof {
        reveal_strlit("name=");
        reveal_strlit("\"");
        reveal_strlit("'");
    }
    match find_text_from(&cs, &key, 0) {
        Some(ns) => {
            let klen = key.len();
            assert(ns + klen <= cs.len());
            let after = content.substring_char(ns + klen, cs.len());
            proof {
                assert(after@ =~= content@.skip(ns + 5));
            }
            let ac = text_chars(after);
            let dq = text_chars("\"");
            let sq = text_chars("'");
            let quote = match find_text_from(&ac, &dq, 0) {
                Some(i) => {
                    assert(i + dq.len() <= ac.len());
                    Some(i)
                },
                None => {
                    let found = find_text_from(&ac, &sq, 0);
                    if let Some(i) = found {
                        assert(i + sq.len() <= ac.len());
                    }
                    found
                },
            };
            match quote {
                Some(q) => {
                    let qc = ac[q];
                    let rest = after.substring_char(q + 1, ac.len());
                    proof {
                        assert(rest@ =~= after@.skip(q + 1));
                    }
                    let rc = text_chars(rest);
                    let qv: Vec<char> = vec![qc];
                    proof {
                        assert(qv@ =~= seq![after@[q as int]]);
                    }
                    match find_text_from(&rc, &qv, 0) {
                        Some(e) => {
                            let name = rest.substring_char(0, e);
                            proof {
                                assert(name@ =~= rest@.take(e as int));
                            }
                            Some(String::from_str(name))
                        },
                        None => None,
                    }
                },
                None => None,
            }
        },
        None => None,
    }
}

/// The project name that the manifest of kind `kind` with text `content`
/// gives, if any.
pub fn manifest_name(kind: ManifestKind, content: &str) -> (r: Option<String>)
    ensures
        opt_text(r) == manifest_name_spec(kind, content@),
{
    match kind {
        ManifestKind::CargoToml => match first_assignment_exec(content, "name", "=") {
            Some(v) => {
                let t = trim_text(v.as_str());
                Some(trim_char_exec(t.as_str(), '"'))
            },
            None => None,
        },
        ManifestKind::PackageJson => json_field(content, "name"),
        ManifestKind::GoMod => go_name(content),
        ManifestKind::BuildSbt => match first_assignment_exec(content, "name :=", ":=") {
            Some(v) => {
                let t = trim_text(v.as_str());
                let no_comma = trim_char_exec(t.as_str(), ',');
                let t2 = trim_text(no_comma.as_str());
                let u = trim_char_exec(t2.as_str(), '"');
                Some(trim_text(u.as_str()))
            },
            None => None,
        },
        ManifestKind::PomXml => pom_name(content),
        ManifestKind::BuildGradle | ManifestKind::BuildGradleKts => match first_assignment_exec(
            content,
            "rootProject.name",
            "=",
        ) {
            Some(v) => {
                let t = trim_text(v.as_str());
                let u = trim_char_exec(t.as_str(), '"');
                Some(trim_char_exec(u.as_str(), '\''))
            },
            None => None,
        },
        ManifestKind::MixExs => mix_name(content),
        ManifestKind::PyprojectToml => match first_assignment_exec(content, "name =", "=") {
            Some(v) => {
                let t = trim_text(v.as_str());
                let u = trim_char_exec(t.as_str(), '"');
                Some(trim_char_exec(u.as_str(), '\''))
            },
            None => None,
        },
        ManifestKind::SetupPy => setup_name(content),
    }
}

/// The contents of the manifest files found in a project directory (`None`
/// for a file that is missing or unreadable).
pub struct ManifestFiles {
    pub cargo_toml: Option<String>,
    pub package_json: Option<String>,
    pub go_mod: Option<String>,
    pub build_sbt: Option<String>,
    pub pom_xml: Option<String>,
    pub build_gradle: Option<String>,
    pub build_gradle_kts: Option<String>,
    pub mix_exs: Option<String>,
    pub pyproject_toml: Option<String>,
    pub setup_py: Option<String>,
}

/// The name that the manifest text `content`, if present, gives.
pub open spec fn found_name(kind: ManifestKind, content: Option<String>) -> Option<Seq<char>> {
    match content {
        Some(c) => manifest_name_spec(kind, c@),
        None => None,
    }
}

/// `a` when it is a name, else `rest`.
pub open spec fn pick(a: Option<Seq<char>>, rest: Seq<char>) -> Seq<char> {
    match a {
        Some(n) => n,
        None => rest,
    }
}

/// The project name: the first that the manifests give, in order of
/// preference, else the directory name, else `unknown`.
pub open spec fn detect_spec(m: ManifestFiles, dir_name: Option<Seq<char>>) -> Seq<char> {
    let fallback = match dir_name {
        Some(d) => d,
        None => "unknown"@,
    };
    pick(
        found_name(ManifestKind::CargoToml, m.cargo_toml),
        pick(
            found_name(ManifestKind::PackageJson, m.package_json),
            pick(
                found_name(ManifestKind::GoMod, m.go_mod),
                pick(
                    found_name(ManifestKind::BuildSbt, m.build_sbt),
                    pick(
                        found_name(ManifestKind::PomXml, m.pom_xml),
                        pick(
                            found_name(ManifestKind::BuildGradle, m.build_gradle),
                            pick(
                                found_name(ManifestKind::BuildGradleKts, m.build_gradle_kts),
                                pick(
                                    found_name(ManifestKind::MixExs, m.mix_exs),
                                    pick(
                                        found_name(ManifestKind::PyprojectToml, m.pyproject_toml),
                                        pick(found_name(ManifestKind::SetupPy, m.setup_py), fallback),
                                    ),
                                ),
                            ),
                        ),
                    ),
                ),
            ),
        ),
    )
}

/// The name that an optional manifest text gives.
fn name_from(kind: ManifestKind, content: &Option<String>) -> (r: Option<String>)
    ensures
        opt_text(r) == found_name(kind, *content),
{
    match content {
        Some(c) => manifest_name(kind, c.as_str()),
        None => None,
    }
}

/// Names a project after its manifests, in order of preference (Cargo.toml,
/// package.json, go.mod, build.sbt, pom.xml, build.gradle, build.gradle.kts,
/// mix.exs, pyproject.toml, setup.py), else after its directory, else
/// `unknown`.
pub fn detect_project_name(manifests: &ManifestFiles, dir_name: &Option<String>) -> (r: String)
    ensures
        r@ == detect_spec(*manifests, opt_text(*dir_name)),
{
    if let Some(n) = name_from(ManifestKind::CargoToml, &manifests.cargo_toml) {
        return n;
    }
    if let Some(n) = name_from(ManifestKind::PackageJson, &manifests.package_json) {
        return n;
    }
    if let Some(n) = name_from(ManifestKind::GoMod, &manifests.go_mod) {
        return n;
    }
    if let Some(n) = name_from(ManifestKind::BuildSbt, &manifests.build_sbt) {
        return n;
    }
    if let Some(n) = name_from(ManifestKind::PomXml, &manifests.pom_xml) {
        return n;
    }
    if let Some(n) = name_from(ManifestKind::BuildGradle, &manifests.build_gradle) {
        return n;
    }
    if let Some(n) = name_from(ManifestKind::BuildGradleKts, &manifests.build_gradle_kts) {
        return n;
    }
    if let Some(n) = name_from(ManifestKind::MixExs, &manifests.mix_exs) {
        return n;
    }
    if let Some(n) = name_from(ManifestKind::PyprojectToml, &manifests.pyproject_toml) {
        return n;
    }
    if let Some(n) = name_from(ManifestKind::SetupPy, &manifests.setup_py) {
        return n;
    }
    match dir_name {
        Some(d) => d.clone(),
        None => String::from_str("unknown"),
    }
}

} // verus!
