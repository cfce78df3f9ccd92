//! Reconciliation of a fresh scan against the stored annotations of a project.
//!
//! Identity is the pair (file, text): the line number is not part of it, so a
//! comment that moves keeps its entry. Every stored entry starts out resolved;
//! each fresh annotation revives the first stored entry with its identity (and
//! takes over its line number), or is appended when there is none. A project's
//! entries are thus a set keyed by (file, text): repeated fresh lines with one
//! identity fold into a single entry, which carries the line of the last one.
use vstd::prelude::*;
use crate::codemark::{marks_view, Codemark, MarkView};

verus! {

/// `m` has the identity (file, text).
pub open spec fn same_key(m: MarkView, file: Seq<char>, text: Seq<char>) -> bool {
    m.file == file && m.text == text
}

/// Some entry of `s` has the identity (file, text).
pub open spec fn has_key(s: Seq<MarkView>, file: Seq<char>, text: Seq<char>) -> bool {
    exists|j: int| 0 <= j < s.len() && same_key(#[trigger] s[j], file, text)
}

/// No two entries of `s` share an identity.
pub open spec fn unique_keys(s: Seq<MarkView>) -> bool {
    forall|i: int, j: int|
        0 <= i < s.len() && 0 <= j < s.len() && i != j ==> !same_key(
            #[trigger] s[i],
            (#[trigger] s[j]).file,
            s[j].text,
        )
}

/// `i` is the first index of an entry of `s` with the identity (file, text).
pub open spec fn is_first_key(s: Seq<MarkView>, file: Seq<char>, text: Seq<char>, i: int) -> bool {
    &&& 0 <= i < s.len()
    &&& same_key(s[i], file, text)
    &&& forall|j: int| 0 <= j < i ==> !same_key(#[trigger] s[j], file, text)
}

/// The first index of an entry with the identity (file, text), if any.
pub open spec fn first_key_index(s: Seq<MarkView>, file: Seq<char>, text: Seq<char>) -> Option<int> {
    if exists|i: int| is_first_key(s, file, text, i) {
        Some(choose|i: int| is_first_key(s, file, text, i))
    } else {
        None
    }
}

/// The entry `m`, marked resolved.
pub open spec fn mark_resolved(m: MarkView) -> MarkView {
    MarkView { file: m.file, line: m.line, text: m.text, resolved: true }
}

/// Every entry of `s`, marked resolved.
pub open spec fn all_resolved(s: Seq<MarkView>) -> Seq<MarkView> {
    s.map_values(|m: MarkView| mark_resolved(m))
}

/// The entry `m`, seen again at `line`.
pub open spec fn refresh(m: MarkView, line: nat) -> MarkView {
    MarkView { file: m.file, line: line, text: m.text, resolved: false }
}

/// The fresh annotation `f` as a new, unresolved entry.
pub open spec fn as_new(f: MarkView) -> MarkView {
    MarkView { file: f.file, line: f.line, text: f.text, resolved: false }
}

/// One fresh annotation applied to the entries `acc`.
pub open spec fn apply_fresh_mark(acc: Seq<MarkView>, f: MarkView) -> Seq<MarkView> {
    match first_key_index(acc, f.file, f.text) {
        Some(i) => acc.update(i, refresh(acc[i], f.line)),
        None => acc.push(as_new(f)),
    }
}

/// The fresh annotations applied, in order, to the entries `acc`.
pub open spec fn apply_fresh(acc: Seq<MarkView>, fresh: Seq<MarkView>) -> Seq<MarkView>
    decreases fresh.len(),
{
    if fresh.len() == 0 {
        acc
    } else {
        apply_fresh_mark(apply_fresh(acc, fresh.drop_last()), fresh.last())
    }
}

/// The entries after a scan that found `fresh`, given the stored `existing`.
pub open spec fn reconcile_spec(existing: Seq<MarkView>, fresh: Seq<MarkView>) -> Seq<MarkView> {
    apply_fresh(all_resolved(existing), fresh)
}

/// The line at which the last annotation of `fresh` with the identity
/// (file, text) stands.
pub open spec fn last_line(fresh: Seq<MarkView>, file: Seq<char>, text: Seq<char>) -> nat
    decreases fresh.len(),
{
    if fresh.len() == 0 {
        0
    } else if same_key(fresh.last(), file, text) {
        fresh.last().line
    } else {
        last_line(fresh.drop_last(), file, text)
    }
}

proof fn lemma_first_key_unique(s: Seq<MarkView>, file: Seq<char>, text: Seq<char>, i: int)
    requires
        is_first_key(s, file, text, i),
    ensures
        first_key_index(s, file, text) == Some(i),
{
    let k = choose|k: int| is_first_key(s, file, text, k);
    assert(is_first_key(s, file, text, k));
    if k < i {
        assert(!same_key(s[k], file, text));
    } else if i < k {
        assert(!same_key(s[i], file, text));
    }
}

proof fn lemma_first_key_exists(s: Seq<MarkView>, file: Seq<char>, text: Seq<char>, j: int)
    requires
        0 <= j < s.len(),
        same_key(s[j], file, text),
    ensures
        first_key_index(s, file, text) is Some,
    decreases j,
{
    if forall|k: int| 0 <= k < j ==> !same_key(#[trigger] s[k], file, text) {
        assert(is_first_key(s, file, text, j));
    } else {
        let k = choose|k: int| 0 <= k < j && same_key(#[trigger] s[k], file, text);
        lemma_first_key_exists(s, file, text, k);
    }
}

/// A missing identity has no first index; a present one has.
proof fn lemma_first_key_none(s: Seq<MarkView>, file: Seq<char>, text: Seq<char>)
    ensures
        first_key_index(s, file, text) is None <==> !has_key(s, file, text),
{
    if has_key(s, file, text) {
        let j = choose|j: int| 0 <= j < s.len() && same_key(#[trigger] s[j], file, text);
        lemma_first_key_exists(s, file, text, j);
    } else {
        if first_key_index(s, file, text) is Some {
            let k = choose|k: int| is_first_key(s, file, text, k);
            assert(is_first_key(s, file, text, k));
            assert(same_key(s[k], file, text));
        }
    }
}

/// Looks up the first entry of `acc` with the identity (file, text).
fn find_key(acc: &Vec<Codemark>, file: &String, text: &String) -> (r: Option<usize>)
    ensures
        match r {
            Some(i) => first_key_index(marks_view(acc@), file@, text@) == Some(i as int),
            None => first_key_index(marks_view(acc@), file@, text@) is None,
        },
{
    let ghost s = marks_view(acc@);
    let mut i: usize = 0;
    while i < acc.len()
        invariant
            i <= acc.len(),
            s == marks_view(acc@),
            forall|j: int| 0 <= j < i ==> !same_key(#[trigger] s[j], file@, text@),
        decreases acc.len() - i,
    {
        if acc[i].file == *file && acc[i].description == *text {
            proof {
                lemma_first_key_unique(s, file@, text@, i as int);
            }
            return Some(i);
        }
        i += 1;
    }
    proof {
        lemma_first_key_none(s, file@, text@);
    }
    None
}

/// Applies one fresh annotation to the working entries.
fn apply_one(acc: &mut Vec<Codemark>, f: &Codemark)
    ensures
        marks_view(final(acc)@) == apply_fresh_mark(marks_view(old(acc)@), f@),
{
    match find_key(acc, &f.file, &f.description) {
        Some(i) => {
            let mut c = acc[i].duplicate();
            c.resolved = false;
            c.line_number = f.line_number;
            let ghost before = acc@;
            acc.set(i, c);
            proof {
                assert(marks_view(acc@) =~= marks_view(before).update(
                    i as int,
                    refresh(marks_view(before)[i as int], f@.line),
                ));
            }
        },
        None => {
            let mut c = f.duplicate();
            c.resolved = false;
            let ghost before = acc@;
            acc.push(c);
            proof {
                assert(marks_view(acc@) =~= marks_view(before).push(as_new(f@)));
            }
        },
    }
}

/// Reconciles the stored annotations of a project with a fresh scan of it:
/// stored entries that the scan found again are revived at their new line,
/// the others are marked resolved, and new identities are appended.
pub fn reconcile(existing: &Vec<Codemark>, fresh: &Vec<Codemark>) -> (r: Vec<Codemark>)
    ensures
        marks_view(r@) == reconcile_spec(marks_view(existing@), marks_view(fresh@)),
{
    let mut acc: Vec<Codemark> = Vec::new();
    let mut i: usize = 0;
    while i < existing.len()
        invariant
            i <= existing.len(),
            acc.len() == i,
            forall|j: int|
                0 <= j < i ==> (#[trigger] acc@[j])@ == mark_resolved(existing@[j]@),
        decreases existing.len() - i,
    {
        let mut c = existing[i].duplicate();
        c.resolved = true;
        acc.push(c);
        i += 1;
    }
    let ghost fv = marks_view(fresh@);
    proof {
        assert(marks_view(acc@) =~= all_resolved(marks_view(existing@)));
        assert(fv.take(0) =~= Seq::<MarkView>::empty());
    }
    let mut k: usize = 0;
    while k < fresh.len()
        invariant
            k <= fresh.len(),
            fv == marks_view(fresh@),
            marks_view(acc@) == apply_fresh(all_resolved(marks_view(existing@)), fv.take(k as int)),
        decreases fresh.len() - k,
    {
        apply_one(&mut acc, &fresh[k]);
        proof {
            assert(fv.take(k + 1).drop_last() =~= fv.take(k as int));
            assert(fv.take(k + 1).last() == fresh@[k as int]@);
        }
        k += 1;
    }
    proof {
        assert(fv.take(fresh.len() as int) =~= fv);
    }
    acc
}

/// What a sequence of fresh annotations does to entries with unique identities:
/// identities stay unique and in place; each entry whose identity the fresh
/// annotations hold is unresolved at the last line they give for it; every
/// other entry is one of `acc`, unchanged; every fresh identity is present.
proof fn lemma_apply_fresh(acc: Seq<MarkView>, fresh: Seq<MarkView>)
    requires
        unique_keys(acc),
    ensures
        ({
            let r = apply_fresh(acc, fresh);
            &&& unique_keys(r)
            &&& r.len() >= acc.len()
            &&& forall|i: int|
                0 <= i < acc.len() ==> (#[trigger] r[i]).file == acc[i].file && r[i].text
                    == acc[i].text
            &&& forall|i: int|
                0 <= i < r.len() ==> if has_key(fresh, (#[trigger] r[i]).file, r[i].text) {
                    !r[i].resolved && r[i].line == last_line(fresh, r[i].file, r[i].text)
                } else {
                    i < acc.len() && r[i] == acc[i]
                }
            &&& forall|j: int|
                0 <= j < fresh.len() ==> has_key(r, (#[trigger] fresh[j]).file, fresh[j].text)
        }),
    decreases fresh.len(),
{
    if fresh.len() == 0 {
        return;
    }
    let fp = fresh.drop_last();
    let x = fresh.last();
    lemma_apply_fresh(acc, fp);
    let prev = apply_fresh(acc, fp);
    let r = apply_fresh(acc, fresh);
    assert(r == apply_fresh_mark(prev, x));
    assert forall|file: Seq<char>, text: Seq<char>|
        has_key(fresh, file, text) <==> (has_key(fp, file, text) || same_key(x, file, text)) by {
        if has_key(fresh, file, text) && !same_key(x, file, text) {
            let j = choose|j: int| 0 <= j < fresh.len() && same_key(#[trigger] fresh[j], file, text);
            assert(j < fp.len());
            assert(fp[j] == fresh[j]);
        }
        if has_key(fp, file, text) {
            let j = choose|j: int| 0 <= j < fp.len() && same_key(#[trigger] fp[j], file, text);
            assert(fresh[j] == fp[j]);
        }
        if same_key(x, file, text) {
            assert(fresh[fresh.len() - 1] == x);
        }
    }
    lemma_first_key_none(prev, x.file, x.text);
    match first_key_index(prev, x.file, x.text) {
        Some(m) => {
            let k = choose|k: int| is_first_key(prev, x.file, x.text, k);
            assert(is_first_key(prev, x.file, x.text, k));
            assert(m == k);
            assert(r == prev.update(m, refresh(prev[m], x.line)));
            assert forall|i: int| 0 <= i < r.len() && i != m implies !same_key(
                #[trigger] r[i],
                x.file,
                x.text,
            ) by {
                assert(r[i] == prev[i]);
            }
            assert forall|i: int|
                0 <= i < r.len() implies if has_key(fresh, (#[trigger] r[i]).file, r[i].text) {
                !r[i].resolved && r[i].line == last_line(fresh, r[i].file, r[i].text)
            } else {
                i < acc.len() && r[i] == acc[i]
            } by {
                if i != m {
                    assert(r[i] == prev[i]);
                }
            }
            assert forall|j: int| 0 <= j < fresh.len() implies has_key(
                r,
                (#[trigger] fresh[j]).file,
                fresh[j].text,
            ) by {
                if j < fp.len() {
                    assert(fp[j] == fresh[j]);
                    let w = choose|w: int|
                        0 <= w < prev.len() && same_key(#[trigger] prev[w], fp[j].file, fp[j].text);
                    assert(same_key(r[w], fresh[j].file, fresh[j].text));
                } else {
                    assert(same_key(r[m], fresh[j].file, fresh[j].text));
                }
            }
        },
        None => {
            assert(r == prev.push(as_new(x)));
            assert forall|i: int| 0 <= i < prev.len() implies !same_key(
                #[trigger] prev[i],
                x.file,
                x.text,
            ) by {}
            assert forall|i: int|
                0 <= i < r.len() implies if has_key(fresh, (#[trigger] r[i]).file, r[i].text) {
                !r[i].resolved && r[i].line == last_line(fresh, r[i].file, r[i].text)
            } else {
                i < acc.len() && r[i] == acc[i]
            } by {
                if i < prev.len() {
                    assert(r[i] == prev[i]);
                }
            }
            assert forall|j: int| 0 <= j < fresh.len() implies has_key(
                r,
                (#[trigger] fresh[j]).file,
                fresh[j].text,
            ) by {
                if j < fp.len() {
                    assert(fp[j] == fresh[j]);
                    let w = choose|w: int|
                        0 <= w < prev.len() && same_key(#[trigger] prev[w], fp[j].file, fp[j].text);
                    assert(same_key(r[w], fresh[j].file, fresh[j].text));
                } else {
                    assert(same_key(r[prev.len() as int], fresh[j].file, fresh[j].text));
                }
            }
        },
    }
}

proof fn lemma_all_resolved_unique(s: Seq<MarkView>)
    requires
        unique_keys(s),
    ensures
        unique_keys(all_resolved(s)),
{
    let a = all_resolved(s);
    assert forall|i: int, j: int|
        0 <= i < a.len() && 0 <= j < a.len() && i != j implies !same_key(
            #[trigger] a[i],
            (#[trigger] a[j]).file,
            a[j].text,
        ) by {
        assert(!same_key(s[i], s[j].file, s[j].text));
    }
}

/// Reconciliation keeps identities unique: a scan never creates a duplicate
/// entry in a project whose entries were unique before it.
pub proof fn lemma_reconcile_unique(existing: Seq<MarkView>, fresh: Seq<MarkView>)
    requires
        unique_keys(existing),
    ensures
        unique_keys(reconcile_spec(existing, fresh)),
{
    lemma_all_resolved_unique(existing);
    lemma_apply_fresh(all_resolved(existing), fresh);
}

/// Resolution inference: a stored entry whose identity the fresh scan no longer
/// holds stays at its place with its line, file and text, and is now resolved.
pub proof fn lemma_missing_mark_resolves(existing: Seq<MarkView>, fresh: Seq<MarkView>, i: int)
    requires
        unique_keys(existing),
        0 <= i < existing.len(),
        !has_key(fresh, existing[i].file, existing[i].text),
    ensures
        reconcile_spec(existing, fresh).len() >= existing.len(),
        reconcile_spec(existing, fresh)[i] == mark_resolved(existing[i]),
{
    lemma_all_resolved_unique(existing);
    lemma_apply_fresh(all_resolved(existing), fresh);
    let r = reconcile_spec(existing, fresh);
    assert(r[i].file == existing[i].file && r[i].text == existing[i].text);
}

/// Line-shift tolerance: a stored entry whose identity the fresh scan holds
/// again stays at its place, unresolved, at the line where the scan last found
/// it, and it is the only entry with that identity.
pub proof fn lemma_moved_mark_tracked(existing: Seq<MarkView>, fresh: Seq<MarkView>, i: int)
    requires
        unique_keys(existing),
        0 <= i < existing.len(),
        has_key(fresh, existing[i].file, existing[i].text),
    ensures
        ({
            let r = reconcile_spec(existing, fresh);
            &&& r.len() >= existing.len()
            &&& r[i] == refresh(existing[i], last_line(fresh, existing[i].file, existing[i].text))
            &&& forall|j: int|
                0 <= j < r.len() && j != i ==> !same_key(
                    #[trigger] r[j],
                    existing[i].file,
                    existing[i].text,
                )
        }),
{
    lemma_all_resolved_unique(existing);
    lemma_apply_fresh(all_resolved(existing), fresh);
    let r = reconcile_spec(existing, fresh);
    assert(r[i].file == existing[i].file && r[i].text == existing[i].text);
    assert forall|j: int| 0 <= j < r.len() && j != i implies !same_key(
        #[trigger] r[j],
        existing[i].file,
        existing[i].text,
    ) by {
        assert(!same_key(r[j], r[i].file, r[i].text));
    }
}

/// Idempotence: reconciling the result of a scan with the same findings again
/// changes nothing.
pub proof fn lemma_reconcile_idempotent(existing: Seq<MarkView>, fresh: Seq<MarkView>)
    requires
        unique_keys(existing),
    ensures
        reconcile_spec(reconcile_spec(existing, fresh), fresh) == reconcile_spec(existing, fresh),
{
    let e = all_resolved(existing);
    lemma_all_resolved_unique(existing);
    lemma_apply_fresh(e, fresh);
    let r = reconcile_spec(existing, fresh);
    let a = all_resolved(r);
    lemma_all_resolved_unique(r);
    lemma_apply_fresh(a, fresh);
    let r2 = apply_fresh(a, fresh);
    assert(r2.len() == r.len()) by {
        if r2.len() > r.len() {
            let i = r.len() as int;
            assert(has_key(fresh, r2[i].file, r2[i].text));
            let j = choose|j: int| 0 <= j < fresh.len() && same_key(#[trigger] fresh[j], r2[i].file, r2[i].text);
            let w = choose|w: int| 0 <= w < r.len() && same_key(#[trigger] r[w], fresh[j].file, fresh[j].text);
            assert(same_key(r2[w], r2[i].file, r2[i].text));
        }
    }
    assert forall|i: int| 0 <= i < r.len() implies #[trigger] r2[i] == r[i] by {
        assert(r2[i].file == r[i].file && r2[i].text == r[i].text);
        if !has_key(fresh, r[i].file, r[i].text) {
            assert(r[i] == e[i]);
        }
    }
    assert(r2 =~= r);
}

} // verus!
