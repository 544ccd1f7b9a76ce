//! The anti-feedback-loop registry: short-lived suppression entries that
//! prevent a just-written file from being re-reported as an external change.
//!
//! Each entry maps a canonical relative path to an expiry instant (engine
//! time, milliseconds). An unexpired entry suppresses exactly the watcher's
//! observation of this process's own write; entries are lazily evicted when
//! they are looked up after expiry.

use vstd::prelude::*;
use crate::strutil::str_eq;

verus! {

broadcast use vstd::set::group_set_axioms;

/// A `(relative path, expiry instant)` suppression entry, as spec values.
pub type IgnorePair = (Seq<char>, u64);

struct IgnoreEntry {
    path: String,
    expiry_ms: u64,
}

/// The registry after recording path `p` with expiry `e`: any prior entry
/// for `p` is replaced.
pub open spec fn spec_ignore_insert(s: Set<IgnorePair>, p: Seq<char>, e: u64) -> Set<IgnorePair> {
    s.filter(|x: IgnorePair| x.0 != p).insert((p, e))
}

/// The registry after evicting any entry for path `p`.
pub open spec fn spec_ignore_remove(s: Set<IgnorePair>, p: Seq<char>) -> Set<IgnorePair> {
    s.filter(|x: IgnorePair| x.0 != p)
}

/// Suppression entries for one session's bound directory.
pub struct IgnoreRegistry {
    entries: Vec<IgnoreEntry>,
}

impl IgnoreRegistry {
    spec fn entry_views(s: Seq<IgnoreEntry>) -> Seq<IgnorePair> {
        s.map_values(|e: IgnoreEntry| (e.path@, e.expiry_ms))
    }

    /// The set of live `(path, expiry)` entries.
    pub closed spec fn entry_set(self) -> Set<IgnorePair> {
        Self::entry_views(self.entries@).to_set()
    }

    /// At most one entry per path.
    pub closed spec fn wf(self) -> bool {
        forall|i: int, j: int|
            0 <= i < j < self.entries@.len() ==> self.entries@[i].path@ != self.entries@[j].path@
    }

    /// An unexpired entry for `p` exists at instant `now`.
    pub open spec fn suppressed(self, p: Seq<char>, now: u64) -> bool {
        exists|e: u64| self.entry_set().contains((p, e)) && now < e
    }

    /// A well-formed registry holds at most one expiry per path.
    pub proof fn lemma_wf_unique(self, p: Seq<char>, e1: u64, e2: u64)
        requires
            self.wf(),
            self.entry_set().contains((p, e1)),
            self.entry_set().contains((p, e2)),
        ensures
            e1 == e2,
    {
        let s = Self::entry_views(self.entries@);
        let i = choose|i: int| 0 <= i < s.len() && s[i] == (p, e1);
        let j = choose|j: int| 0 <= j < s.len() && s[j] == (p, e2);
        assert(self.entries@[i].path@ == p && self.entries@[j].path@ == p);
    }

    /// Creates an empty registry.
    pub fn new() -> (r: Self)
        ensures
            r.entry_set() == Set::<IgnorePair>::empty(),
            r.wf(),
    {
        let r = IgnoreRegistry { entries: Vec::new() };
        proof {
            assert(r.entry_set() =~= Set::<IgnorePair>::empty());
        }
        r
    }

    /// Records a suppression entry for `path` until `expiry_ms`, replacing
    /// any prior entry for the same path.
    pub fn insert(&mut self, path: String, expiry_ms: u64)
        requires
            old(self).wf(),
        ensures
            final(self).wf(),
            final(self).entry_set() == spec_ignore_insert(old(self).entry_set(), path@, expiry_ms),
    {
        let ghost p = path@;
        let ghost orig = self.entries@;
        let n = self.entries.len();
        let mut kept: Vec<IgnoreEntry> = Vec::new();
        let mut i: usize = 0;
        let ghost mut src: Seq<int> = Seq::<int>::empty();
        while i < n
            invariant
                i <= n,
                self.entries@ == orig,
                n == orig.len(),
                p == path@,
                old(self).wf(),
                kept@.len() == src.len(),
                forall|k: int| 0 <= k < src.len() ==> 0 <= #[trigger] src[k] < i,
                forall|k1: int, k2: int| 0 <= k1 < k2 < src.len() ==> src[k1] < src[k2],
                forall|k: int| 0 <= k < kept@.len() ==> #[trigger] kept@[k] == orig[src[k]],
                forall|k: int| 0 <= k < kept@.len() ==> #[trigger] kept@[k].path@ != p,
                forall|j: int| 0 <= j < i && orig[j].path@ != p ==> exists|k: int|
                    0 <= k < src.len() && #[trigger] src[k] == j,
            decreases n - i,
        {
            let e = &self.entries[i];
            if !str_eq(e.path.as_str(), path.as_str()) {
                proof {
                    let src0 = src;
                    src = src.push(i as int);
                    assert forall|j: int|
                        0 <= j < i + 1 && orig[j].path@ != p implies exists|k: int|
                        0 <= k < src.len() && #[trigger] src[k] == j by {
                        if j < i {
                            let k = choose|k: int| 0 <= k < src0.len() && src0[k] == j;
                            assert(src[k] == j);
                        } else {
                            assert(src[src.len() - 1] == j);
                        }
                    }
                }
                kept.push(IgnoreEntry { path: e.path.clone(), expiry_ms: e.expiry_ms });
            }
            i = i + 1;
        }
        kept.push(IgnoreEntry { path, expiry_ms });
        self.entries = kept;
        proof {
            let post = self.entry_set();
            let pre = old(self).entry_set();
            let postv = Self::entry_views(self.entries@);
            let prev = Self::entry_views(orig);
            assert forall|x: IgnorePair| #[trigger]
                post.contains(x) implies spec_ignore_insert(pre, p, expiry_ms).contains(x) by {
                let k = choose|k: int| 0 <= k < postv.len() && postv[k] == x;
                if k < postv.len() - 1 {
                    assert(self.entries@[k] == orig[src[k]]);
                    assert(prev[src[k]] == x);
                    assert(prev.contains(x));
                    assert(x.0 != p);
                } else {
                    assert(x == (p, expiry_ms));
                }
            }
            assert forall|x: IgnorePair| #[trigger]
                spec_ignore_insert(pre, p, expiry_ms).contains(x) implies post.contains(x) by {
                if x == (p, expiry_ms) {
                    assert(postv[postv.len() - 1] == x);
                    assert(postv.contains(x));
                } else {
                    assert(pre.contains(x) && x.0 != p);
                    let j = choose|j: int| 0 <= j < prev.len() && prev[j] == x;
                    assert(orig[j].path@ != p);
                    let k = choose|k: int| 0 <= k < src.len() && src[k] == j;
                    assert(postv[k] == x);
                    assert(postv.contains(x));
                }
            }
            assert(post =~= spec_ignore_insert(pre, p, expiry_ms));
            assert forall|a: int, b: int| 0 <= a < b < self.entries@.len() implies self.entries@[a].path@
                != self.entries@[b].path@ by {
                if b < self.entries@.len() - 1 {
                    assert(self.entries@[a] == orig[src[a]]);
                    assert(self.entries@[b] == orig[src[b]]);
                    assert(src[a] < src[b]);
                } else {
                    assert(self.entries@[a].path@ != p);
                }
            }
        }
    }

    /// Consults the registry for a watched event on `path` at instant `now`.
    ///
    /// Returns whether the event must be suppressed. An unexpired entry
    /// suppresses and is retained; an expired entry is evicted and the event
    /// proceeds; an absent entry lets the event proceed.
    pub fn check_event(&mut self, path: &str, now: u64) -> (suppress: bool)
        requires
            old(self).wf(),
        ensures
            final(self).wf(),
            suppress == old(self).suppressed(path@, now),
            suppress ==> *final(self) == *old(self),
            !suppress ==> final(self).entry_set() == spec_ignore_remove(
                old(self).entry_set(),
                path@,
            ),
    {
        let ghost p = path@;
        let ghost orig = self.entries@;
        let n = self.entries.len();
        let mut i: usize = 0;
        while i < n
            invariant
                i <= n,
                self.entries@ == orig,
                n == orig.len(),
                p == path@,
                old(self).wf(),
                *self == *old(self),
                forall|j: int| 0 <= j < i ==> #[trigger] orig[j].path@ != p,
            decreases n - i,
        {
            let e = &self.entries[i];
            if str_eq(e.path.as_str(), path) {
                let ghost x = (orig[i as int].path@, orig[i as int].expiry_ms);
                proof {
                    assert(Self::entry_views(orig)[i as int] == x);
                    assert(self.entry_set().contains(x));
                }
                if now < e.expiry_ms {
                    proof {
                        assert(self.suppressed(p, now));
                    }
                    return true;
                } else {
                    proof {
                        assert forall|e2: u64| self.entry_set().contains((p, e2)) implies !(now
                            < e2) by {
                            self.lemma_wf_unique(p, e2, orig[i as int].expiry_ms);
                        }
                    }
                    self.entries.remove(i);
                    proof {
                        let postv = Self::entry_views(self.entries@);
                        let prev = Self::entry_views(orig);
                        assert(self.entries@ == orig.remove(i as int));
                        assert forall|y: IgnorePair| #[trigger]
                            self.entry_set().contains(y) implies spec_ignore_remove(
                            old(self).entry_set(),
                            p,
                        ).contains(y) by {
                            let k = choose|k: int| 0 <= k < postv.len() && postv[k] == y;
                            let k0 = if k < i { k } else { k + 1 };
                            assert(orig[k0] == self.entries@[k]);
                            assert(prev[k0] == y);
                            assert(prev.contains(y));
                            assert(orig[k0].path@ != p);
                        }
                        assert forall|y: IgnorePair| #[trigger]
                            spec_ignore_remove(old(self).entry_set(), p).contains(y) implies self
                            .entry_set()
                            .contains(y) by {
                            let k0 = choose|k0: int| 0 <= k0 < prev.len() && prev[k0] == y;
                            assert(orig[k0].path@ != p);
                            let k = if k0 < i { k0 } else { k0 - 1 };
                            assert(self.entries@[k] == orig[k0]);
                            assert(postv[k] == y);
                            assert(postv.contains(y));
                        }
                        assert(self.entry_set() =~= spec_ignore_remove(
                            old(self).entry_set(),
                            p,
                        ));
                        assert forall|a: int, b: int|
                            0 <= a < b < self.entries@.len() implies self.entries@[a].path@
                            != self.entries@[b].path@ by {
                            let a0 = if a < i { a } else { a + 1 };
                            let b0 = if b < i { b } else { b + 1 };
                            assert(self.entries@[a] == orig[a0]);
                            assert(self.entries@[b] == orig[b0]);
                        }
                    }
                    return false;
                }
            }
            i = i + 1;
        }
        proof {
            assert forall|e2: u64| !(self.entry_set().contains((p, e2)) && now < e2) by {
                if self.entry_set().contains((p, e2)) {
                    let s = Self::entry_views(orig);
                    let k = choose|k: int| 0 <= k < s.len() && s[k] == (p, e2);
                    assert(orig[k].path@ == p);
                }
            }
            assert forall|y: IgnorePair| #[trigger]
                self.entry_set().contains(y) implies y.0 != p by {
                let s = Self::entry_views(orig);
                let k = choose|k: int| 0 <= k < s.len() && s[k] == y;
                assert(orig[k].path@ != p);
            }
            assert(self.entry_set() =~= spec_ignore_remove(old(self).entry_set(), p));
        }
        false
    }
}

/// Law (anti-loop window): when the registry holds an entry for path `p`
/// with expiry `e`, a watched event on `p` at instant `now` is suppressed
/// exactly when `now` is before `e`. After the expiry elapses, events on `p`
/// proceed again.
pub proof fn lemma_ignore_window(r: IgnoreRegistry, p: Seq<char>, e: u64, now: u64)
    requires
        r.wf(),
        r.entry_set().contains((p, e)),
    ensures
        r.suppressed(p, now) <==> now < e,
{
    if now < e {
        assert(r.suppressed(p, now));
    }
    if r.suppressed(p, now) {
        let e2 = choose|e2: u64| r.entry_set().contains((p, e2)) && now < e2;
        r.lemma_wf_unique(p, e2, e);
    }
}

} // verus!
