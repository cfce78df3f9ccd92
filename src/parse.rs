//! Small text-scanning operations, over the characters of a text.
use vstd::prelude::*;
use crate::matcher::{lines_view, opt_text};

verus! {

/// The characters of `s`, in order.
pub fn text_chars(s: &str) -> (r: Vec<char>)
    ensures
        r@ == s@,
{
    let mut v: Vec<char> = Vec::new();
    for c in it: s.chars()
        invariant
            v@ == it.seq().take(it.index() as int),
    {
        v.push(c);
    }
    v
}

/// `pat` occurs in `s` at index `i`.
pub open spec fn occurs_at(s: Seq<char>, pat: Seq<char>, i: int) -> bool {
    0 <= i && i + pat.len() <= s.len() && s.subrange(i, i + pat.len()) == pat
}

/// `i` is the first index at or after `from` where `pat` occurs in `s`.
pub open spec fn is_first_occurrence(s: Seq<char>, pat: Seq<char>, from: int, i: int) -> bool {
    &&& from <= i
    &&& occurs_at(s, pat, i)
    &&& forall|j: int| from <= j < i ==> !#[trigger] occurs_at(s, pat, j)
}

/// The first index at or after `from` where `pat` occurs in `s`, if any.
pub open spec fn find_from(s: Seq<char>, pat: Seq<char>, from: int) -> Option<int> {
    if exists|i: int| is_first_occurrence(s, pat, from, i) {
        Some(choose|i: int| is_first_occurrence(s, pat, from, i))
    } else {
        None
    }
}

/// `s` begins with `p`.
pub open spec fn starts_with(s: Seq<char>, p: Seq<char>) -> bool {
    p.len() <= s.len() && s.take(p.len() as int) == p
}

/// The second field of `s` split at `sep`: the text between the first and the
/// second occurrence of `sep`, or up to the end when there is no second one.
pub open spec fn field_after(s: Seq<char>, sep: Seq<char>) -> Option<Seq<char>> {
    match find_from(s, sep, 0) {
        Some(i) => {
            let start = i + sep.len();
            match find_from(s, sep, start) {
                Some(j) => Some(s.subrange(start, j)),
                None => Some(s.subrange(start, s.len() as int)),
            }
        },
        None => None,
    }
}

/// The pieces of `s` between the line feeds, in order (a text without line
/// feeds is one piece).
pub open spec fn split_lines_spec(s: Seq<char>) -> Seq<Seq<char>>
    decreases s.len(),
{
    match find_from(s, seq!['\n'], 0) {
        Some(i) => if 0 <= i < s.len() {
            seq![s.take(i)] + split_lines_spec(s.skip(i + 1))
        } else {
            seq![s]
        },
        None => seq![s],
    }
}

/// The index of the first character of `s` that is not `c` (`s.len()` when
/// there is none).
pub open spec fn lead_end(s: Seq<char>, c: char) -> int {
    if exists|i: int| 0 <= i < s.len() && s[i] != c && forall|j: int| 0 <= j < i ==> #[trigger] s[j] == c {
        choose|i: int| 0 <= i < s.len() && s[i] != c && forall|j: int| 0 <= j < i ==> #[trigger] s[j] == c
    } else {
        s.len() as int
    }
}

/// `s` without its leading and trailing runs of `c`.
pub open spec fn trim_char(s: Seq<char>, c: char) -> Seq<char> {
    let lo = lead_end(s, c);
    let rev = s.reverse();
    let hi = s.len() - lead_end(rev, c);
    if lo >= hi {
        Seq::empty()
    } else {
        s.subrange(lo, hi)
    }
}

/// `s` without every repetition of the prefix `p` at its start.
pub open spec fn strip_prefixes(s: Seq<char>, p: Seq<char>) -> Seq<char>
    decreases s.len(),
{
    if p.len() > 0 && starts_with(s, p) {
        strip_prefixes(s.skip(p.len() as int), p)
    } else {
        s
    }
}

proof fn lemma_first_occurrence_unique(s: Seq<char>, pat: Seq<char>, from: int, i: int)
    requires
        is_first_occurrence(s, pat, from, i),
    ensures
        find_from(s, pat, from) == Some(i),
{
    let k = choose|k: int| is_first_occurrence(s, pat, from, k);
    assert(is_first_occurrence(s, pat, from, k));
    if k < i {
        assert(!occurs_at(s, pat, k));
    } else if i < k {
        assert(!occurs_at(s, pat, i));
    }
}

/// Whether `pat` occurs in `s` at index `i`.
fn occurs_at_exec(s: &Vec<char>, pat: &Vec<char>, i: usize) -> (r: bool)
    ensures
        r == occurs_at(s@, pat@, i as int),
{
    if pat.len() > s.len() || i > s.len() - pat.len() {
        return false;
    }
    let mut k: usize = 0;
    while k < pat.len()
        invariant
            k <= pat.len(),
            i + pat.len() <= s.len(),
            forall|j: int| 0 <= j < k ==> s@[i + j] == pat@[j],
        decreases pat.len() - k,
    {
        if s[i + k] != pat[k] {
            proof {
                assert(s@.subrange(i as int, i + pat.len())[k as int] != pat@[k as int]);
            }
            return false;
        }
        k += 1;
    }
    assert(s@.subrange(i as int, i + pat.len()) =~= pat@);
    true
}

/// The first index at or after `from` where `pat` occurs in `s`.
pub fn find_text_from(s: &Vec<char>, pat: &Vec<char>, from: usize) -> (r: Option<usize>)
    ensures
        match r {
            Some(i) => find_from(s@, pat@, from as int) == Some(i as int) && from <= i && i
                + pat@.len() <= s@.len(),
            None => find_from(s@, pat@, from as int) is None,
        },
{
    let mut i: usize = from;
    while i < s.len()
        invariant
            from <= i,
            forall|j: int| from <= j < i ==> !#[trigger] occurs_at(s@, pat@, j),
        decreases s.len() - i,
    {
        if occurs_at_exec(s, pat, i) {
            proof {
                lemma_first_occurrence_unique(s@, pat@, from as int, i as int);
            }
            return Some(i);
        }
        i += 1;
    }
    if i == s.len() && occurs_at_exec(s, pat, i) {
        proof {
            lemma_first_occurrence_unique(s@, pat@, from as int, i as int);
        }
        return Some(i);
    }
    proof {
        if exists|k: int| is_first_occurrence(s@, pat@, from as int, k) {
            let k = choose|k: int| is_first_occurrence(s@, pat@, from as int, k);
            assert(is_first_occurrence(s@, pat@, from as int, k));
            assert(occurs_at(s@, pat@, k));
        }
    }
    None
}

/// Whether `s` begins with `p`.
pub fn starts_with_exec(s: &Vec<char>, p: &Vec<char>) -> (r: bool)
    ensures
        r == starts_with(s@, p@),
{
    if p.len() > s.len() {
        return false;
    }
    let r = occurs_at_exec(s, p, 0);
    proof {
        assert(s@.subrange(0, p.len() as int) == s@.take(p.len() as int));
    }
    r
}

/// The pieces of `s` between the line feeds, in order.
pub fn split_lines(s: &str) -> (r: Vec<String>)
    ensures
        lines_view(r@) == split_lines_spec(s@),
{
    let cs = text_chars(s);
    let ghost sv = s@;
    let n = cs.len();
    let mut out: Vec<String> = Vec::new();
    let mut start: usize = 0;
    let mut i: usize = 0;
    let ghost nl = seq!['\n'];
    proof {
        assert(lines_view(out@) =~= Seq::<Seq<char>>::empty());
        assert(sv.skip(0) =~= sv);
    }
    while i < n
        invariant
            n == cs.len() == sv.len(),
            cs@ == sv,
            sv == s@,
            nl == seq!['\n'],
            start <= i <= n,
            forall|j: int| start <= j < i ==> #[trigger] sv[j] != '\n',
            split_lines_spec(sv) == lines_view(out@) + split_lines_spec(sv.skip(start as int)),
        decreases n - i,
    {
        if cs[i] == '\n' {
            let ghost rest = sv.skip(start as int);
            let ghost k = (i - start) as int;
            proof {
                assert(rest.subrange(k, k + 1) =~= nl);
                assert forall|j: int| 0 <= j < k implies !#[trigger] occurs_at(rest, nl, j) by {
                    if occurs_at(rest, nl, j) {
                        assert(rest.subrange(j, j + 1)[0] == sv[start + j]);
                    }
                }
                lemma_first_occurrence_unique(rest, nl, 0, k);
                assert(rest.take(k) =~= sv.subrange(start as int, i as int));
                assert(rest.skip(k + 1) =~= sv.skip(i + 1));
            }
            let piece = String::from_str(s.substring_char(start, i));
            let ghost before = out@;
            out.push(piece);
            proof {
                assert(lines_view(out@) =~= lines_view(before).push(sv.subrange(start as int, i as int)));
                assert(split_lines_spec(rest) == seq![rest.take(k)] + split_lines_spec(rest.skip(k + 1)));
                assert(lines_view(out@) + split_lines_spec(sv.skip(i + 1)) =~= lines_view(before) + (
                seq![rest.take(k)] + split_lines_spec(rest.skip(k + 1))));
            }
            start = i + 1;
        }
        i += 1;
    }
    let ghost rest = sv.skip(start as int);
    proof {
        if exists|k: int| is_first_occurrence(rest, nl, 0, k) {
            let k = choose|k: int| is_first_occurrence(rest, nl, 0, k);
            assert(is_first_occurrence(rest, nl, 0, k));
            assert(rest.subrange(k, k + 1)[0] == sv[start + k]);
        }
        assert(split_lines_spec(rest) == seq![rest]);
        assert(rest =~= sv.subrange(start as int, n as int));
    }
    let piece = String::from_str(s.substring_char(start, n));
    let ghost before = out@;
    out.push(piece);
    proof {
        assert(lines_view(out@) =~= lines_view(before) + seq![rest]);
    }
    out
}

/// The second field of `s` split at `sep`.
pub fn field_after_exec(s: &str, sep: &str) -> (r: Option<String>)
    ensures
        opt_text(r) == field_after(s@, sep@),
{
    let cs = text_chars(s);
    let ps = text_chars(sep);
    match find_text_from(&cs, &ps, 0) {
        Some(i) => {
            let plen = ps.len();
            assert(i + plen <= cs.len());
            let start = i + plen;
            match find_text_from(&cs, &ps, start) {
                Some(j) => Some(String::from_str(s.substring_char(start, j))),
                None => Some(String::from_str(s.substring_char(start, cs.len()))),
            }
        },
        None => None,
    }
}

proof fn lemma_lead_end(s: Seq<char>, c: char, lo: int)
    requires
        0 <= lo <= s.len(),
        forall|j: int| 0 <= j < lo ==> #[trigger] s[j] == c,
        lo < s.len() ==> s[lo] != c,
    ensures
        lead_end(s, c) == lo,
{
    if lo < s.len() {
        assert(0 <= lo < s.len() && s[lo] != c && forall|j: int| 0 <= j < lo ==> #[trigger] s[j] == c);
        let k = choose|k: int| 0 <= k < s.len() && s[k] != c && forall|j: int| 0 <= j < k ==> #[trigger] s[j] == c;
        if k < lo {
            assert(s[k] == c);
        } else if lo < k {
            assert(s[lo] == c);
        }
    } else {
        if exists|i: int| 0 <= i < s.len() && s[i] != c && forall|j: int| 0 <= j < i ==> #[trigger] s[j] == c {
            let k = choose|i: int| 0 <= i < s.len() && s[i] != c && forall|j: int| 0 <= j < i ==> #[trigger] s[j] == c;
            assert(s[k] == c);
        }
    }
}

/// `s` without its leading and trailing runs of `c`.
pub fn trim_char_exec(s: &str, c: char) -> (r: String)
    ensures
        r@ == trim_char(s@, c),
{
    let cs = text_chars(s);
    let n = cs.len();
    let mut lo: usize = 0;
    while lo < n && cs[lo] == c
        invariant
            lo <= n == cs.len(),
            forall|j: int| 0 <= j < lo ==> #[trigger] cs@[j] == c,
        decreases n - lo,
    {
        lo += 1;
    }
    let mut t: usize = 0;
    while t < n && cs[n - 1 - t] == c
        invariant
            t <= n == cs.len(),
            forall|j: int| 0 <= j < t ==> #[trigger] cs@.reverse()[j] == c,
        decreases n - t,
    {
        t += 1;
    }
    proof {
        lemma_lead_end(s@, c, lo as int);
        lemma_lead_end(s@.reverse(), c, t as int);
    }
    if lo >= n - t {
        String::new()
    } else {
        String::from_str(s.substring_char(lo, n - t))
    }
}

/// `s` without every repetition of the prefix `p` at its start.
pub fn strip_prefixes_exec(s: &str, p: &str) -> (r: String)
    ensures
        r@ == strip_prefixes(s@, p@),
{
    let cs = text_chars(s);
    let ps = text_chars(p);
    let n = cs.len();
    let mut k: usize = 0;
    proof {
        assert(s@.skip(0) =~= s@);
    }
    while ps.len() > 0 && occurs_at_exec(&cs, &ps, k)
        invariant
            k <= n == cs.len(),
            cs@ == s@,
            ps@ == p@,
            strip_prefixes(s@, p@) == strip_prefixes(s@.skip(k as int), p@),
        decreases n - k,
    {
        proof {
            assert(s@.skip(k as int).take(p@.len() as int) =~= s@.subrange(k as int, k + p@.len()));
            assert(s@.skip(k as int).skip(p@.len() as int) =~= s@.skip(k + p@.len()));
        }
        k = k + ps.len();
    }
    proof {
        if p@.len() > 0 && starts_with(s@.skip(k as int), p@) {
            assert(s@.skip(k as int).take(p@.len() as int) =~= s@.subrange(k as int, k + p@.len()));
        }
        assert(s@.skip(k as int) =~= s@.subrange(k as int, n as int));
    }
    String::from_str(s.substring_char(k, n))
}

} // verus!
