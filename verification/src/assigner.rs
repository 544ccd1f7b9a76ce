//! The identifier-to-path mapping engine for one bound directory.
//!
//! `NativeFileManager` keeps a two-way mapping between opaque node
//! identifiers and canonical relative paths. The mapping is a partial
//! bijection: no two live identifiers ever own the same path. An incoming
//! collision transfers ownership to the newer identifier instead of
//! generating uniqueness suffixes, which keeps the map bounded by the live
//! node count.

use vstd::prelude::*;
use vstd::string::StringExecFns;
use crate::errors::SyncError;
use crate::paths::{is_safe_relative, opt_str_view, resolve_rel_path, resolved_rel_path,
    safe_rel_path};

verus! {

broadcast use vstd::set::group_set_axioms;

/// A `(identifier, relative path)` pair, as character sequences.
pub type PathPair = (Seq<char>, Seq<char>);

struct PathEntry {
    guid: String,
    path: String,
}

impl PathEntry {
    fn dup(&self) -> (r: Self)
        ensures
            r == *self,
    {
        PathEntry { guid: self.guid.clone(), path: self.path.clone() }
    }
}

/// The mapping after assigning path `p` to identifier `g`: every pair that
/// shares the identifier or the path is dropped, and `(g, p)` is inserted.
pub open spec fn spec_assign(m: Set<PathPair>, g: Seq<char>, p: Seq<char>) -> Set<PathPair> {
    m.filter(|x: PathPair| x.0 != g && x.1 != p).insert((g, p))
}

/// Path assignment state for one bound directory.
pub struct NativeFileManager {
    pub root_dir: String,
    entries: Vec<PathEntry>,
}

impl NativeFileManager {
    spec fn entry_views(s: Seq<PathEntry>) -> Seq<PathPair> {
        s.map_values(|e: PathEntry| (e.guid@, e.path@))
    }

    /// The set of live `(identifier, path)` pairs.
    pub closed spec fn pairs(self) -> Set<PathPair> {
        Self::entry_views(self.entries@).to_set()
    }

    /// The bound directory this mapping belongs to.
    pub closed spec fn root_view(self) -> Seq<char> {
        self.root_dir@
    }

    /// The identifier `g` currently owns path `p`.
    pub open spec fn maps_to(self, g: Seq<char>, p: Seq<char>) -> bool {
        self.pairs().contains((g, p))
    }

    /// The mapping is a partial bijection: equal identifiers or equal paths
    /// imply the same pair.
    pub open spec fn wf(self) -> bool {
        forall|x: PathPair, y: PathPair|
            #![trigger self.pairs().contains(x), self.pairs().contains(y)]
            self.pairs().contains(x) && self.pairs().contains(y) && (x.0 == y.0 || x.1 == y.1)
                ==> x == y
    }

    /// Creates an empty mapping rooted at `root_dir`.
    pub fn new(root_dir: String) -> (r: Self)
        ensures
            r.root_view() == root_dir@,
            r.pairs() == Set::<PathPair>::empty(),
            r.wf(),
    {
        let r = NativeFileManager { root_dir, entries: Vec::new() };
        proof {
            assert(r.pairs() =~= Set::<PathPair>::empty());
        }
        r
    }

    /// Resolves the canonical relative path for an identifier and records
    /// ownership.
    ///
    /// The returned path is a function of the name, the script flag and the
    /// class hint alone — repeated calls with unchanged inputs return the
    /// identical path, whatever assignments happened in between. If the
    /// computed path was owned by a different identifier, ownership
    /// transfers to this one.
    pub fn assign_path(
        &mut self,
        guid: &str,
        instance_path: &str,
        is_script: bool,
        class_name: Option<&str>,
    ) -> (r: Option<String>)
        requires
            old(self).wf(),
        ensures
            final(self).wf(),
            final(self).root_view() == old(self).root_view(),
            r matches Some(pp) && pp@ == resolved_rel_path(
                instance_path@,
                is_script,
                opt_str_view(class_name),
            ),
            final(self).pairs() == spec_assign(
                old(self).pairs(),
                guid@,
                resolved_rel_path(instance_path@, is_script, opt_str_view(class_name)),
            ),
            final(self).maps_to(
                guid@,
                resolved_rel_path(instance_path@, is_script, opt_str_view(class_name)),
            ),
    {
        let path = resolve_rel_path(instance_path, is_script, class_name);
        let ghost g = guid@;
        let ghost p = path@;
        let ghost orig = self.entries@;
        let n = self.entries.len();
        let mut kept: Vec<PathEntry> = Vec::new();
        let mut i: usize = 0;
        while i < n
            invariant
                i <= n,
                self.entries@ == orig,
                n == orig.len(),
                g == guid@,
                p == path@,
                forall|x: PathPair| #[trigger]
                    Self::entry_views(kept@).contains(x) <==> (exists|j: int|
                        0 <= j < i && Self::entry_views(orig)[j] == x) && x.0 != g && x.1 != p,
            decreases n - i,
        {
            let e = &self.entries[i];
            let ghost prev = kept@;
            if !str_eq_entry(e, guid, &path) {
                kept.push(e.dup());
                proof {
                    assert(Self::entry_views(kept@) =~= Self::entry_views(prev).push(
                        (e.guid@, e.path@),
                    ));
                }
            }
            proof {
                let cur = (e.guid@, e.path@);
                assert(Self::entry_views(orig)[i as int] == cur);
                assert forall|x: PathPair|
                    #[trigger] Self::entry_views(kept@).contains(x) implies ((exists|j: int|
                    0 <= j < i + 1 && Self::entry_views(orig)[j] == x) && x.0 != g && x.1
                    != p) by {
                    if Self::entry_views(prev).contains(x) {
                        assert((exists|j: int| 0 <= j < i && Self::entry_views(orig)[j] == x)
                            && x.0 != g && x.1 != p);
                    } else {
                        assert(x == cur);
                        assert(Self::entry_views(orig)[i as int] == x);
                    }
                }
                assert forall|x: PathPair|
                    ((exists|j: int| 0 <= j < i + 1 && Self::entry_views(orig)[j] == x) && x.0
                        != g && x.1 != p) implies #[trigger] Self::entry_views(
                    kept@,
                ).contains(x) by {
                    let j = choose|j: int| 0 <= j < i + 1 && Self::entry_views(orig)[j] == x;
                    if j < i {
                        assert(Self::entry_views(prev).contains(x));
                        let k = choose|k: int|
                            0 <= k < Self::entry_views(prev).len() && Self::entry_views(prev)[k]
                                == x;
                        assert(Self::entry_views(kept@)[k] == x);
                        assert(Self::entry_views(kept@).contains(x));
                    } else {
                        assert(x == cur);
                        let last = Self::entry_views(kept@).len() - 1;
                        assert(Self::entry_views(kept@)[last] == x);
                        assert(Self::entry_views(kept@).contains(x));
                    }
                }
            }
            i = i + 1;
        }
        let ghost kept_views = Self::entry_views(kept@);
        let new_entry = PathEntry { guid: string_of(guid), path: path.clone() };
        kept.push(new_entry);
        self.entries = kept;
        proof {
            assert(Self::entry_views(self.entries@) =~= kept_views.push((g, p)));
            let post = self.pairs();
            let pre = old(self).pairs();
            assert forall|x: PathPair| #[trigger]
                post.contains(x) implies spec_assign(pre, g, p).contains(x) by {
                let s = Self::entry_views(self.entries@);
                let j = choose|j: int| 0 <= j < s.len() && s[j] == x;
                if j < s.len() - 1 {
                    assert(kept_views[j] == x);
                    assert(kept_views.contains(x));
                    let k = choose|k: int| 0 <= k < n && Self::entry_views(orig)[k] == x;
                    assert(Self::entry_views(orig).contains(x));
                    assert(pre.contains(x));
                } else {
                    assert(x == (g, p));
                }
            }
            assert forall|x: PathPair| #[trigger]
                spec_assign(pre, g, p).contains(x) implies post.contains(x) by {
                let s = Self::entry_views(self.entries@);
                if x == (g, p) {
                    assert(s.last() == x);
                    assert(s.contains(x));
                } else {
                    assert(pre.contains(x) && x.0 != g && x.1 != p);
                    let k = choose|k: int|
                        0 <= k < Self::entry_views(orig).len() && Self::entry_views(orig)[k] == x;
                    assert(kept_views.contains(x));
                    let j = choose|j: int| 0 <= j < kept_views.len() && kept_views[j] == x;
                    assert(s[j] == x);
                    assert(s.contains(x));
                }
            }
            assert(post =~= spec_assign(pre, g, p));
            assert forall|x: PathPair, y: PathPair|
                post.contains(x) && post.contains(y) && (x.0 == y.0 || x.1 == y.1) implies x
                == y by {
                if x != (g, p) && y != (g, p) {
                    assert(pre.contains(x) && pre.contains(y));
                } else if x == (g, p) && y != (g, p) {
                    assert(y.0 != g && y.1 != p);
                } else if x != (g, p) && y == (g, p) {
                    assert(x.0 != g && x.1 != p);
                }
            }
        }
        Some(path)
    }

    /// Resolves the path for an identifier and validates it for writing.
    ///
    /// Returns the relative path the caller must write the node's content
    /// to, or `AccessDenied` when the resolved path would escape the bound
    /// directory. The ownership transfer happens in either case, as
    /// resolution precedes validation.
    pub fn write_file_guid(
        &mut self,
        guid: &str,
        instance_path: &str,
        is_script: bool,
        class_name: Option<&str>,
    ) -> (r: Result<String, SyncError>)
        requires
            old(self).wf(),
        ensures
            final(self).wf(),
            final(self).root_view() == old(self).root_view(),
            ({
                let rel = resolved_rel_path(instance_path@, is_script, opt_str_view(class_name));
                &&& final(self).pairs() == spec_assign(old(self).pairs(), guid@, rel)
                &&& (r is Ok <==> safe_rel_path(rel))
                &&& (r matches Ok(pp) ==> pp@ == rel)
                &&& (r matches Err(e) ==> e == SyncError::AccessDenied)
            }),
    {
        let ropt = self.assign_path(guid, instance_path, is_script, class_name);
        let path = match ropt {
            Some(pp) => pp,
            None => {
                proof {
                    assert(false);
                }
                String::new()
            },
        };
        if is_safe_relative(path.as_str()) {
            Ok(path)
        } else {
            Err(SyncError::AccessDenied)
        }
    }
}

/// Law (collision transfer): if identifier `a` and then identifier `b` are
/// assigned the same path `p`, the mapping no longer associates `a` with `p`;
/// `b` is the unique owner of `p`.
pub proof fn lemma_collision_transfer(m: Set<PathPair>, a: Seq<char>, b: Seq<char>, p: Seq<char>)
    requires
        a != b,
    ensures
        ({
            let m2 = spec_assign(spec_assign(m, a, p), b, p);
            &&& !m2.contains((a, p))
            &&& m2.contains((b, p))
            &&& forall|g: Seq<char>| #[trigger] m2.contains((g, p)) ==> g == b
        }),
{
    broadcast use vstd::set::group_set_axioms;

    let m2 = spec_assign(spec_assign(m, a, p), b, p);
    assert forall|g: Seq<char>| #[trigger] m2.contains((g, p)) implies g == b by {
        if (g, p) != (b, p) {
            assert(spec_assign(m, a, p).contains((g, p)) && p != p);
        }
    }
}

fn str_eq_entry(e: &PathEntry, guid: &str, path: &String) -> (r: bool)
    ensures
        r == (e.guid@ == guid@ || e.path@ == path@),
{
    crate::strutil::str_eq(e.guid.as_str(), guid) || e.path == *path
}

fn string_of(s: &str) -> (r: String)
    ensures
        r@ == s@,
{
    String::from_str(s)
}

} // verus!
