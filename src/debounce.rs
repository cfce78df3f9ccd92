//! Debouncing of file-change events in watch mode: a path is processed at most
//! once per debounce window. The caller supplies the time, in milliseconds.
use vstd::prelude::*;

verus! {

/// The model of the debouncer's memory: (path, time last processed) pairs.
pub type SeenView = Seq<(Seq<char>, u64)>;

/// No path occurs twice.
pub open spec fn unique_paths(s: SeenView) -> bool {
    forall|i: int, j: int|
        0 <= i < s.len() && 0 <= j < s.len() && i != j ==> (#[trigger] s[i]).0 != (#[trigger] s[j]).0
}

/// `i` is the index of `path`.
pub open spec fn is_path_at(s: SeenView, path: Seq<char>, i: int) -> bool {
    0 <= i < s.len() && s[i].0 == path
}

/// The index of `path`, if it was processed before.
pub open spec fn path_index(s: SeenView, path: Seq<char>) -> Option<int> {
    if exists|i: int| is_path_at(s, path, i) {
        Some(choose|i: int| is_path_at(s, path, i))
    } else {
        None
    }
}

/// `now - then`, or 0 when `then` is later.
pub open spec fn elapsed(now: u64, then: u64) -> nat {
    if now >= then {
        (now - then) as nat
    } else {
        0
    }
}

/// An event for `path` at `now` is processed: the path was not processed
/// before, or at least `window` milliseconds ago.
pub open spec fn is_due(s: SeenView, path: Seq<char>, now: u64, window: u64) -> bool {
    match path_index(s, path) {
        Some(i) => elapsed(now, s[i].1) >= window,
        None => true,
    }
}

/// `s` with `path` recorded as processed at `now`.
pub open spec fn record(s: SeenView, path: Seq<char>, now: u64) -> SeenView {
    match path_index(s, path) {
        Some(i) => s.update(i, (path, now)),
        None => s.push((path, now)),
    }
}

/// The entries that are kept at `now`: processed less than two windows ago.
pub open spec fn prune_spec(s: SeenView, now: u64, window: u64) -> SeenView {
    s.filter(|e: (Seq<char>, u64)| elapsed(now, e.1) < 2 * window)
}

/// Remembers when each path was last processed.
pub struct Debouncer {
    window_ms: u64,
    last_seen: Vec<(String, u64)>,
}

proof fn lemma_path_at(s: SeenView, path: Seq<char>, i: int)
    requires
        unique_paths(s),
        is_path_at(s, path, i),
    ensures
        path_index(s, path) == Some(i),
{
    let k = choose|k: int| is_path_at(s, path, k);
    assert(is_path_at(s, path, k));
    assert(s[k].0 == s[i].0);
}

impl Debouncer {
    /// The processing times.
    pub closed spec fn seen(&self) -> SeenView {
        self.last_seen@.map_values(|e: (String, u64)| (e.0@, e.1))
    }

    /// The debounce window, in milliseconds.
    pub closed spec fn window(&self) -> u64 {
        self.window_ms
    }

    /// Well-formedness: each path is remembered once.
    pub open spec fn wf(&self) -> bool {
        unique_paths(self.seen())
    }

    /// A debouncer with the given window and no path processed yet.
    pub fn new(window_ms: u64) -> (r: Debouncer)
        ensures
            r.wf(),
            r.window() == window_ms,
            r.seen() == Seq::<(Seq<char>, u64)>::empty(),
    {
        let r = Debouncer { window_ms, last_seen: Vec::new() };
        assert(r.seen() =~= Seq::<(Seq<char>, u64)>::empty());
        r
    }

    /// The debounce window, in milliseconds.
    pub fn window_ms(&self) -> (r: u64)
        ensures
            r == self.window(),
    {
        self.window_ms
    }

    fn index_of(&self, path: &String) -> (r: Option<usize>)
        requires
            self.wf(),
        ensures
            match r {
                Some(i) => path_index(self.seen(), path@) == Some(i as int) && i < self.seen().len(),
                None => path_index(self.seen(), path@) is None,
            },
    {
        let ghost s = self.seen();
        let mut i: usize = 0;
        while i < self.last_seen.len()
            invariant
                i <= self.last_seen.len(),
                s == self.seen(),
                unique_paths(s),
                forall|j: int| 0 <= j < i ==> (#[trigger] s[j]).0 != path@,
            decreases self.last_seen.len() - i,
        {
            assert(s[i as int].0 == self.last_seen@[i as int].0@);
            if self.last_seen[i].0 == *path {
                proof {
                    lemma_path_at(s, path@, i as int);
                }
                return Some(i);
            }
            i += 1;
        }
        proof {
            if path_index(s, path@) is Some {
                let k = choose|k: int| is_path_at(s, path@, k);
                assert(is_path_at(s, path@, k));
            }
        }
        None
    }

    /// Decides whether a change event for `path` at time `now_ms` is
    /// processed, and if so records it.
    pub fn should_process(&mut self, path: &str, now_ms: u64) -> (r: bool)
        requires
            old(self).wf(),
        ensures
            final(self).wf(),
            final(self).window() == old(self).window(),
            r == is_due(old(self).seen(), path@, now_ms, old(self).window()),
            r ==> final(self).seen() == record(old(self).seen(), path@, now_ms),
            !r ==> final(self).seen() == old(self).seen(),
    {
        let p = String::from_str(path);
        let ghost before = self.seen();
        match self.index_of(&p) {
            Some(i) => {
                let then = self.last_seen[i].1;
                let age = if now_ms >= then {
                    now_ms - then
                } else {
                    0
                };
                if age < self.window_ms {
                    return false;
                }
                self.last_seen.set(i, (p, now_ms));
                proof {
                    assert(self.seen() =~= record(before, path@, now_ms));
                    assert forall|a: int, b: int|
                        0 <= a < self.seen().len() && 0 <= b < self.seen().len() && a != b implies (
                        #[trigger] self.seen()[a]).0 != (#[trigger] self.seen()[b]).0 by {
                        if a != i && b != i {
                            assert(before[a].0 != before[b].0);
                        } else if a == i {
                            assert(before[b].0 != before[a].0);
                        } else {
                            assert(before[a].0 != before[b].0);
                        }
                    }
                }
                true
            },
            None => {
                self.last_seen.push((p, now_ms));
                proof {
                    assert(self.seen() =~= record(before, path@, now_ms));
                    assert forall|a: int| 0 <= a < before.len() implies (#[trigger] before[a]).0
                        != path@ by {
                        if before[a].0 == path@ {
                            assert(is_path_at(before, path@, a));
                        }
                    }
                    assert forall|a: int, b: int|
                        0 <= a < self.seen().len() && 0 <= b < self.seen().len() && a != b implies (
                        #[trigger] self.seen()[a]).0 != (#[trigger] self.seen()[b]).0 by {
                        if a < before.len() && b < before.len() {
                            assert(before[a].0 != before[b].0);
                        } else if a < before.len() {
                            assert(self.seen()[a] == before[a]);
                        } else {
                            assert(self.seen()[b] == before[b]);
                        }
                    }
                }
                true
            },
        }
    }

    /// Forgets the paths processed two windows or more before `now_ms`.
    pub fn prune(&mut self, now_ms: u64)
        requires
            old(self).wf(),
        ensures
            final(self).wf(),
            final(self).window() == old(self).window(),
            final(self).seen() == prune_spec(old(self).seen(), now_ms, old(self).window()),
    {
        let ghost s = self.seen();
        let mut kept: Vec<(String, u64)> = Vec::new();
        let mut i: usize = 0;
        proof {
            reveal(Seq::filter);
            assert(s.take(0) =~= Seq::<(Seq<char>, u64)>::empty());
        }
        while i < self.last_seen.len()
            invariant
                i <= self.last_seen.len(),
                s == self.seen(),
                unique_paths(s),
                (Debouncer { window_ms: self.window_ms, last_seen: kept }).seen() == prune_spec(
                    s.take(i as int),
                    now_ms,
                    self.window_ms,
                ),
                forall|k: int|
                    0 <= k < kept@.len() ==> exists|j: int|
                        0 <= j < i && (#[trigger] kept@[k]).0@ == s[j].0,
                unique_paths((Debouncer { window_ms: self.window_ms, last_seen: kept }).seen()),
            decreases self.last_seen.len() - i,
        {
            proof {
                reveal(Seq::filter);
                assert(s.take(i + 1).drop_last() =~= s.take(i as int));
                assert(s[i as int] == (self.last_seen@[i as int].0@, self.last_seen@[i as int].1));
            }
            let then = self.last_seen[i].1;
            let age: u64 = if now_ms >= then {
                now_ms - then
            } else {
                0
            };
            if (age as u128) < 2 * (self.window_ms as u128) {
                let ghost before = kept@;
                kept.push((self.last_seen[i].0.clone(), then));
                proof {
                    let kv = (Debouncer { window_ms: self.window_ms, last_seen: kept }).seen();
                    let bv = before.map_values(|e: (String, u64)| (e.0@, e.1));
                    assert(kv =~= bv.push(s[i as int]));
                    assert forall|k: int| 0 <= k < kept@.len() implies exists|j: int|
                        0 <= j < i + 1 && (#[trigger] kept@[k]).0@ == s[j].0 by {
                        if k < before.len() {
                            assert(kept@[k] == before[k]);
                            let j = choose|j: int| 0 <= j < i && before[k].0@ == s[j].0;
                        }
                    }
                    assert forall|a: int, b: int|
                        0 <= a < kv.len() && 0 <= b < kv.len() && a != b implies (#[trigger] kv[a]).0
                        != (#[trigger] kv[b]).0 by {
                        if a < bv.len() && b < bv.len() {
                            assert(kv[a] == bv[a] && kv[b] == bv[b]);
                        } else if a < bv.len() {
                            assert(kv[a] == bv[a]);
                            let j = choose|j: int| 0 <= j < i && before[a].0@ == s[j].0;
                            assert(s[j].0 != s[i as int].0);
                        } else {
                            assert(kv[b] == bv[b]);
                            let j = choose|j: int| 0 <= j < i && before[b].0@ == s[j].0;
                            assert(s[j].0 != s[i as int].0);
                        }
                    }
                }
            }
            i += 1;
        }
        proof {
            assert(s.take(self.last_seen.len() as int) =~= s);
        }
        self.last_seen = kept;
    }
}

/// At most once per window: after an event for `path` was processed at `then`,
/// no event for it at a time `now` less than `window` later is processed.
pub proof fn lemma_once_per_window(s: SeenView, path: Seq<char>, then: u64, now: u64, window: u64)
    requires
        unique_paths(s),
        then <= now,
        now - then < window,
    ensures
        !is_due(record(s, path, then), path, now, window),
{
    let r = record(s, path, then);
    let k = match path_index(s, path) {
        Some(i) => {
            let c = choose|c: int| is_path_at(s, path, c);
            assert(is_path_at(s, path, c));
            i
        },
        None => s.len() as int,
    };
    assert(r[k] == (path, then));
    assert(is_path_at(r, path, k));
    let c = choose|c: int| is_path_at(r, path, c);
    assert(is_path_at(r, path, c));
    if c != k {
        assert(r[c] == s[c]);
        if path_index(s, path) is None {
            assert(is_path_at(s, path, c));
        } else {
            assert(s[c].0 != s[k].0);
        }
    }
}

} // verus!
