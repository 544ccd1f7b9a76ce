//! The session table: registration, identity resolution, deduplication,
//! lifecycle (heartbeat, staleness, cleanup), staged uploads, inbound writes
//! and outbound polling.
//!
//! The table is keyed by ephemeral session id. Invariant: at most one live
//! session per resolved project id — registering a session whose resolved id
//! matches a live one evicts the prior session.

use vstd::prelude::*;
use vstd::string::StringExecFns;
use crate::assigner::{spec_assign, NativeFileManager, PathPair};
use crate::errors::SyncError;
use crate::paths::{is_safe_relative, opt_str_view, opt_string_view, resolved_rel_path,
    safe_rel_path};
use crate::records::{FileChange, ProjectFile, SessionIdentity, WriteCmd};
use crate::registry::{spec_ignore_insert, IgnorePair};
use crate::session::Session;
use crate::strutil::{push_char, str_eq};

verus! {

broadcast use vstd::seq_lib::group_seq_lib_default;

/// Heartbeat timeout: a session unseen for longer is stale.
pub const STALE_TIMEOUT_MS: u64 = 30000;

/// Lifetime of an anti-loop suppression entry.
pub const IGNORE_TTL_MS: u64 = 2000;

/// How often the background sweep should run.
pub const SWEEP_INTERVAL_MS: u64 = 10000;

/// The ephemeral session id of a session.
pub open spec fn sid_of(s: Session) -> Seq<char> {
    s.identity.session_id@
}

/// The session's resolved project id equals `pid`.
pub open spec fn proj_matches(s: Session, pid: Seq<char>) -> bool {
    match s.identity.project_id {
        Some(q) => q@ == pid,
        None => false,
    }
}

/// The session's heartbeat is older than the timeout at instant `now`.
pub open spec fn is_stale(s: Session, now: u64) -> bool {
    now - s.last_heartbeat > STALE_TIMEOUT_MS
}

/// Well-formedness of a session table: unique session ids, unique resolved
/// project ids, each session well-formed.
pub open spec fn sessions_ok(s: Seq<Session>) -> bool {
    &&& (forall|i: int, j: int|
        #![trigger s[i], s[j]]
        0 <= i < j < s.len() ==> sid_of(s[i]) != sid_of(s[j]))
    &&& (forall|i: int, j: int|
        #![trigger s[i], s[j]]
        0 <= i < j < s.len() ==> match (s[i].identity.project_id, s[j].identity.project_id) {
            (Some(a), Some(b)) => a@ != b@,
            _ => true,
        })
    &&& (forall|i: int| 0 <= i < s.len() ==> (#[trigger] s[i]).wf())
}

/// Well-formedness of the file-manager table: unique keys, each mapping
/// well-formed.
pub open spec fn fms_ok(s: Seq<(Seq<char>, NativeFileManager)>) -> bool {
    &&& (forall|i: int, j: int| #![trigger s[i], s[j]] 0 <= i < j < s.len() ==> s[i].0 != s[j].0)
    &&& (forall|i: int| 0 <= i < s.len() ==> (#[trigger] s[i]).1.wf())
}

/// Well-formedness of the staging table: unique keys.
pub open spec fn staging_ok(s: Seq<(Seq<char>, Seq<ProjectFile>)>) -> bool {
    forall|i: int, j: int| #![trigger s[i], s[j]] 0 <= i < j < s.len() ==> s[i].0 != s[j].0
}

struct FmEntry {
    session_id: String,
    manager: NativeFileManager,
}

struct StagedEntry {
    session_id: String,
    files: Vec<ProjectFile>,
}

/// The synchronization engine's shared state: all live sessions, their path
/// mappings, and uploads staged ahead of registration.
pub struct SessionManager {
    sessions: Vec<Session>,
    file_managers: Vec<FmEntry>,
    staging_files: Vec<StagedEntry>,
}

impl SessionManager {
    /// The live sessions, in table order.
    pub closed spec fn sessions_view(self) -> Seq<Session> {
        self.sessions@
    }

    /// The per-session path mappings, keyed by session id.
    pub closed spec fn fm_view(self) -> Seq<(Seq<char>, NativeFileManager)> {
        self.file_managers@.map_values(|e: FmEntry| (e.session_id@, e.manager))
    }

    /// The staged uploads, keyed by session id.
    pub closed spec fn staging_view(self) -> Seq<(Seq<char>, Seq<ProjectFile>)> {
        self.staging_files@.map_values(|e: StagedEntry| (e.session_id@, e.files@))
    }

    /// A session with this id is registered.
    pub open spec fn has_session(self, id: Seq<char>) -> bool {
        exists|i: int|
            0 <= i < self.sessions_view().len() && sid_of(#[trigger] self.sessions_view()[i]) == id
    }

    /// A path mapping for this session id exists.
    pub open spec fn has_fm(self, id: Seq<char>) -> bool {
        exists|i: int| 0 <= i < self.fm_view().len() && (#[trigger] self.fm_view()[i]).0 == id
    }

    /// Staged files for this session id exist.
    pub open spec fn has_staging(self, id: Seq<char>) -> bool {
        exists|i: int|
            0 <= i < self.staging_view().len() && (#[trigger] self.staging_view()[i]).0 == id
    }

    /// Structural invariant of the whole table.
    pub open spec fn wf(self) -> bool {
        &&& sessions_ok(self.sessions_view())
        &&& fms_ok(self.fm_view())
        &&& staging_ok(self.staging_view())
    }

    /// Creates an empty session table.
    pub fn new() -> (r: Self)
        ensures
            r.sessions_view() == Seq::<Session>::empty(),
            r.fm_view() == Seq::<(Seq<char>, NativeFileManager)>::empty(),
            r.staging_view() == Seq::<(Seq<char>, Seq<ProjectFile>)>::empty(),
            r.wf(),
    {
        let r = SessionManager {
            sessions: Vec::new(),
            file_managers: Vec::new(),
            staging_files: Vec::new(),
        };
        proof {
            assert(r.fm_view() =~= Seq::<(Seq<char>, NativeFileManager)>::empty());
            assert(r.staging_view() =~= Seq::<(Seq<char>, Seq<ProjectFile>)>::empty());
        }
        r
    }

    /// Accumulates files under a staging key ahead of registration: used when
    /// an upload is split into size-bounded chunks arriving before the final
    /// connect call. New files are appended after those already staged.
    pub fn stage_files(&mut self, session_id: String, files: Vec<ProjectFile>)
        requires
            old(self).wf(),
        ensures
            final(self).wf(),
            final(self).sessions_view() == old(self).sessions_view(),
            final(self).fm_view() == old(self).fm_view(),
            (old(self).has_staging(session_id@) ==> exists|k: int|
                0 <= k < old(self).staging_view().len() && (#[trigger] old(self).staging_view()[k]).0
                    == session_id@ && final(self).staging_view() == old(self).staging_view().update(
                    k,
                    (session_id@, old(self).staging_view()[k].1 + files@),
                )),
            (!old(self).has_staging(session_id@) ==> final(self).staging_view() == old(
                self,
            ).staging_view().push((session_id@, files@))),
    {
        let mut pending = files;
        let ghost files0 = pending@;
        let n = self.staging_files.len();
        let mut i: usize = 0;
        while i < n
            invariant
                i <= n,
                n == self.staging_files@.len(),
                *self == *old(self),
                old(self).wf(),
                pending@ == files0,
                files0 == files@,
                forall|k: int| 0 <= k < i ==> (#[trigger] self.staging_view()[k]).0 != session_id@,
            decreases n - i,
        {
            if str_eq(self.staging_files[i].session_id.as_str(), session_id.as_str()) {
                let e = &mut self.staging_files[i];
                e.files.append(&mut pending);
                proof {
                    assert(self.staging_view() =~= old(self).staging_view().update(
                        i as int,
                        (session_id@, old(self).staging_view()[i as int].1 + files0),
                    ));
                    assert(old(self).staging_view()[i as int].0 == session_id@);
                    assert forall|a: int, b: int|
                        #![trigger self.staging_view()[a], self.staging_view()[b]]
                        0 <= a < b < self.staging_view().len() implies self.staging_view()[a].0
                        != self.staging_view()[b].0 by {
                        assert(old(self).staging_view()[a].0 == self.staging_view()[a].0);
                        assert(old(self).staging_view()[b].0 == self.staging_view()[b].0);
                    }
                }
                return ;
            }
            i = i + 1;
        }
        proof {
            assert(!old(self).has_staging(session_id@));
        }
        self.staging_files.push(StagedEntry { session_id, files: pending });
        proof {
            assert(self.staging_view() =~= old(self).staging_view().push(
                (session_id@, files0),
            ));
            assert forall|a: int, b: int|
                #![trigger self.staging_view()[a], self.staging_view()[b]]
                0 <= a < b < self.staging_view().len() implies self.staging_view()[a].0
                != self.staging_view()[b].0 by {
                if b < self.staging_view().len() - 1 {
                    assert(old(self).staging_view()[a] == self.staging_view()[a]);
                    assert(old(self).staging_view()[b] == self.staging_view()[b]);
                } else {
                    assert(self.staging_view()[a] == old(self).staging_view()[a]);
                    assert(self.staging_view()[a].0 != session_id@);
                }
            }
        }
    }

    /// Removes a session and its path mapping. Unknown ids are a no-op.
    pub fn unregister_session(&mut self, session_id: &str)
        requires
            old(self).wf(),
        ensures
            final(self).wf(),
            final(self).sessions_view() == old(self).sessions_view().filter(
                |s: Session| sid_of(s) != session_id@,
            ),
            final(self).fm_view() == old(self).fm_view().filter(
                |x: (Seq<char>, NativeFileManager)| x.0 != session_id@,
            ),
            final(self).staging_view() == old(self).staging_view(),
    {
        let ghost sp = |s: Session| sid_of(s) != session_id@;
        let ghost sorig = self.sessions@;
        let mut i: usize = 0;
        let ghost mut j: int = 0;
        while i < self.sessions.len()
            invariant
                0 <= j <= sorig.len(),
                sp == (|s: Session| sid_of(s) != session_id@),
                i == sorig.take(j).filter(sp).len(),
                self.sessions@ == sorig.take(j).filter(sp) + sorig.skip(j),
                self.file_managers@ == old(self).file_managers@,
                self.staging_files@ == old(self).staging_files@,
                sessions_ok(sorig),
            decreases sorig.len() - j,
        {
            proof {
                assert(self.sessions@[i as int] == sorig.skip(j)[0]);
                assert(sorig.skip(j)[0] == sorig[j]);
                assert(sorig.take(j + 1) =~= sorig.take(j).push(sorig[j]));
                sorig.take(j).lemma_filter_push(sorig[j], sp);
                assert(sorig.skip(j).drop_first() =~= sorig.skip(j + 1));
            }
            if str_eq(self.sessions[i].identity.session_id.as_str(), session_id) {
                self.sessions.remove(i);
                proof {
                    assert(self.sessions@ =~= sorig.take(j + 1).filter(sp) + sorig.skip(j + 1));
                    j = j + 1;
                }
            } else {
                i = i + 1;
                proof {
                    assert(self.sessions@ =~= sorig.take(j + 1).filter(sp) + sorig.skip(j + 1));
                    j = j + 1;
                }
            }
        }
        proof {
            assert(sorig.take(sorig.len() as int) =~= sorig);
            assert(sorig.skip(sorig.len() as int) =~= Seq::<Session>::empty());
            assert(self.sessions@ =~= sorig.filter(sp));
            lemma_filter_sessions_ok(sorig, sp);
        }
        let ghost fp = |x: (Seq<char>, NativeFileManager)| x.0 != session_id@;
        let ghost forig = self.file_managers@;
        let ghost fvorig = self.fm_view();
        let mut fi: usize = 0;
        let ghost mut fj: int = 0;
        while fi < self.file_managers.len()
            invariant
                0 <= fj <= forig.len(),
                fp == (|x: (Seq<char>, NativeFileManager)| x.0 != session_id@),
                fvorig == fm_views(forig),
                fi == fm_views(forig.take(fj)).filter(fp).len(),
                fm_views(self.file_managers@) == fm_views(forig.take(fj)).filter(fp) + fm_views(
                    forig.skip(fj),
                ),
                self.file_managers@.len() == fm_views(self.file_managers@).len(),
                fi <= self.file_managers@.len(),
                fms_ok(fvorig),
                self.sessions@ == sorig.filter(sp),
                sp == (|s: Session| sid_of(s) != session_id@),
                self.staging_files@ == old(self).staging_files@,
            decreases forig.len() - fj,
        {
            proof {
                assert(fm_views(self.file_managers@)[fi as int] == fm_views(forig.skip(fj))[0]);
                assert(fm_views(forig.skip(fj))[0] == (forig[fj].session_id@, forig[fj].manager));
                assert(fm_views(forig.take(fj + 1)) =~= fm_views(forig.take(fj)).push(
                    (forig[fj].session_id@, forig[fj].manager),
                ));
                fm_views(forig.take(fj)).lemma_filter_push(
                    (forig[fj].session_id@, forig[fj].manager),
                    fp,
                );
                assert(fm_views(forig.skip(fj)).drop_first() =~= fm_views(forig.skip(fj + 1)));
            }
            if str_eq(self.file_managers[fi].session_id.as_str(), session_id) {
                let ghost prevraw = self.file_managers@;
                self.file_managers.remove(fi);
                proof {
                    assert(self.file_managers@ == prevraw.remove(fi as int));
                    assert(fm_views(self.file_managers@) =~= fm_views(prevraw).remove(fi as int));
                    assert(fm_views(prevraw).remove(fi as int) =~= fm_views(
                        forig.take(fj),
                    ).filter(fp) + fm_views(forig.skip(fj)).drop_first());
                    assert(fm_views(self.file_managers@) =~= fm_views(forig.take(fj + 1)).filter(fp)
                        + fm_views(forig.skip(fj + 1)));
                    fj = fj + 1;
                }
            } else {
                fi = fi + 1;
                proof {
                    assert(fm_views(self.file_managers@) =~= fm_views(forig.take(fj + 1)).filter(fp)
                        + fm_views(forig.skip(fj + 1)));
                    fj = fj + 1;
                }
            }
        }
        proof {
            assert(forig.take(forig.len() as int) =~= forig);
            assert(fm_views(forig.skip(forig.len() as int)) =~= Seq::<
                (Seq<char>, NativeFileManager),
            >::empty());
            assert(fm_views(forig.take(forig.len() as int)) =~= fvorig);
            assert(self.fm_view() =~= fvorig.filter(fp));
            lemma_filter_fms_ok(fvorig, fp);
            lemma_filter_sessions_ok(sorig, sp);
        }
    }

    /// Looks up a session by its ephemeral id.
    pub fn get_session(&self, session_id: &str) -> (r: Option<&Session>)
        ensures
            (r matches Some(s) ==> exists|i: int|
                0 <= i < self.sessions_view().len() && #[trigger] self.sessions_view()[i] == *s
                    && sid_of(*s) == session_id@),
            (r is None ==> !self.has_session(session_id@)),
    {
        let n = self.sessions.len();
        let mut i: usize = 0;
        while i < n
            invariant
                i <= n,
                n == self.sessions@.len(),
                forall|k: int| 0 <= k < i ==> sid_of(#[trigger] self.sessions@[k]) != session_id@,
            decreases n - i,
        {
            if str_eq(self.sessions[i].identity.session_id.as_str(), session_id) {
                proof {
                    assert(self.sessions_view()[i as int] == self.sessions@[i as int]);
                }
                return Some(&self.sessions[i]);
            }
            i = i + 1;
        }
        None
    }

    /// Looks up the path mapping of a session.
    pub fn get_file_manager(&self, session_id: &str) -> (r: Option<&NativeFileManager>)
        ensures
            (r matches Some(m) ==> exists|i: int|
                0 <= i < self.fm_view().len() && #[trigger] self.fm_view()[i] == (
                    session_id@,
                    *m,
                )),
            (r is None ==> !self.has_fm(session_id@)),
    {
        let n = self.file_managers.len();
        let mut i: usize = 0;
        while i < n
            invariant
                i <= n,
                n == self.file_managers@.len(),
                forall|k: int| 0 <= k < i ==> (#[trigger] self.fm_view()[k]).0 != session_id@,
            decreases n - i,
        {
            if str_eq(self.file_managers[i].session_id.as_str(), session_id) {
                proof {
                    assert(self.fm_view()[i as int] == (
                        session_id@,
                        self.file_managers@[i as int].manager,
                    ));
                }
                return Some(&self.file_managers[i].manager);
            }
            i = i + 1;
        }
        None
    }

    /// The identities of all live sessions, in table order.
    pub fn get_all_sessions_meta(&self) -> (r: Vec<SessionIdentity>)
        ensures
            r@.len() == self.sessions_view().len(),
            forall|i: int|
                0 <= i < r@.len() ==> r@[i] == (#[trigger] self.sessions_view()[i]).identity,
    {
        let n = self.sessions.len();
        let mut r: Vec<SessionIdentity> = Vec::new();
        let mut i: usize = 0;
        while i < n
            invariant
                i <= n,
                n == self.sessions@.len(),
                r@.len() == i,
                forall|k: int| 0 <= k < i ==> r@[k] == (#[trigger] self.sessions@[k]).identity,
            decreases n - i,
        {
            r.push(self.sessions[i].identity.duplicate());
            i = i + 1;
        }
        r
    }

    /// Updates a session's last-seen instant. Returns whether the session
    /// was known.
    pub fn refresh_session_ttl(&mut self, session_id: &str, now: u64) -> (known: bool)
        requires
            old(self).wf(),
        ensures
            final(self).wf(),
            known == old(self).has_session(session_id@),
            final(self).fm_view() == old(self).fm_view(),
            final(self).staging_view() == old(self).staging_view(),
            (!known ==> *final(self) == *old(self)),
            (known ==> exists|i: int|
                0 <= i < old(self).sessions_view().len() && sid_of(
                    #[trigger] old(self).sessions_view()[i],
                ) == session_id@ && final(self).sessions_view() == old(
                    self,
                ).sessions_view().update(
                    i,
                    Session { last_heartbeat: now, ..old(self).sessions_view()[i] },
                )),
    {
        let n = self.sessions.len();
        let mut i: usize = 0;
        while i < n
            invariant
                i <= n,
                n == self.sessions@.len(),
                *self == *old(self),
                old(self).wf(),
                forall|k: int| 0 <= k < i ==> sid_of(#[trigger] self.sessions@[k]) != session_id@,
            decreases n - i,
        {
            if str_eq(self.sessions[i].identity.session_id.as_str(), session_id) {
                let s = &mut self.sessions[i];
                s.last_heartbeat = now;
                proof {
                    let ns = Session { last_heartbeat: now, ..old(self).sessions@[i as int] };
                    assert(self.sessions@ =~= old(self).sessions@.update(i as int, ns));
                    lemma_update_sessions_ok(old(self).sessions@, i as int, ns);
                }
                return true;
            }
            i = i + 1;
        }
        false
    }

    /// Atomically empties and returns a session's outbound queue. An unknown
    /// session id yields an empty sequence: a poll must never treat "not yet
    /// registered" as fatal.
    pub fn drain_outbound(&mut self, session_id: &str) -> (r: Vec<FileChange>)
        requires
            old(self).wf(),
        ensures
            final(self).wf(),
            final(self).fm_view() == old(self).fm_view(),
            final(self).staging_view() == old(self).staging_view(),
            (!old(self).has_session(session_id@) ==> *final(self) == *old(self) && r@ == Seq::<
                FileChange,
            >::empty()),
            (old(self).has_session(session_id@) ==> exists|i: int|
                0 <= i < old(self).sessions_view().len() && sid_of(
                    #[trigger] old(self).sessions_view()[i],
                ) == session_id@ && r@ == old(self).sessions_view()[i].outbound_queue@
                    && final(self).sessions_view() == old(self).sessions_view().update(
                    i,
                    final(self).sessions_view()[i],
                ) && final(self).sessions_view()[i] == (Session {
                    outbound_queue: final(self).sessions_view()[i].outbound_queue,
                    ..old(self).sessions_view()[i]
                }) && final(self).sessions_view()[i].outbound_queue@ == Seq::<FileChange>::empty()),
    {
        let n = self.sessions.len();
        let mut i: usize = 0;
        while i < n
            invariant
                i <= n,
                n == self.sessions@.len(),
                *self == *old(self),
                old(self).wf(),
                forall|k: int| 0 <= k < i ==> sid_of(#[trigger] self.sessions@[k]) != session_id@,
            decreases n - i,
        {
            if str_eq(self.sessions[i].identity.session_id.as_str(), session_id) {
                let s = &mut self.sessions[i];
                let mut out: Vec<FileChange> = Vec::new();
                core::mem::swap(&mut s.outbound_queue, &mut out);
                proof {
                    let ns = self.sessions@[i as int];
                    assert(self.sessions@ =~= old(self).sessions@.update(i as int, ns));
                    assert(ns.identity == old(self).sessions@[i as int].identity);
                    assert(ns.wf() == old(self).sessions@[i as int].wf());
                    lemma_update_sessions_ok(old(self).sessions@, i as int, ns);
                }
                return out;
            }
            i = i + 1;
        }
        Vec::new()
    }

    /// Manually binds a session to a directory and gives it a fresh path
    /// mapping rooted there; any prior mapping for the session is replaced.
    /// Fails with `SessionNotFound` for unknown ids. The caller then starts
    /// the filesystem watcher over the directory.
    pub fn bind_folder(&mut self, session_id: &str, folder_path: String) -> (r: Result<
        (),
        SyncError,
    >)
        requires
            old(self).wf(),
        ensures
            final(self).wf(),
            final(self).staging_view() == old(self).staging_view(),
            (r matches Err(e) ==> e == SyncError::SessionNotFound && !old(self).has_session(
                session_id@,
            ) && *final(self) == *old(self)),
            (r is Ok ==> old(self).has_session(session_id@)),
            (r is Ok ==> exists|i: int|
                0 <= i < old(self).sessions_view().len() && sid_of(
                    #[trigger] old(self).sessions_view()[i],
                ) == session_id@ && final(self).sessions_view() == old(
                    self,
                ).sessions_view().update(
                    i,
                    Session { bound_folder: Some(folder_path), ..old(self).sessions_view()[i] },
                )),
            (r is Ok ==> {
                let fv = final(self).fm_view();
                &&& fv.len() > 0
                &&& fv == old(self).fm_view().filter(
                    |x: (Seq<char>, NativeFileManager)| x.0 != session_id@,
                ).push(fv.last())
                &&& fv.last().0 == session_id@
                &&& fv.last().1.pairs() == Set::<crate::assigner::PathPair>::empty()
                &&& fv.last().1.root_view() == folder_path@
            }),
    {
        let found = find_session_index(&self.sessions, session_id);
        let i = match found {
            Some(i) => i,
            None => {
                proof {
                    assert(!old(self).has_session(session_id@));
                }
                return Err(SyncError::SessionNotFound);
            },
        };
        let ghost idx = i as int;
        let s = &mut self.sessions[i];
        s.bound_folder = Some(folder_path.clone());
        proof {
            let ns = Session {
                bound_folder: Some(folder_path),
                ..old(self).sessions@[idx]
            };
            assert(self.sessions@ =~= old(self).sessions@.update(idx, ns));
            lemma_update_sessions_ok(old(self).sessions@, idx, ns);
        }
        let manager = NativeFileManager::new(folder_path);
        self.replace_fm(session_id, manager);
        Ok(())
    }

    /// Replaces (or installs) the path mapping for a session id.
    fn replace_fm(&mut self, session_id: &str, manager: NativeFileManager)
        requires
            fms_ok(old(self).fm_view()),
            manager.wf(),
        ensures
            final(self).sessions_view() == old(self).sessions_view(),
            final(self).staging_view() == old(self).staging_view(),
            fms_ok(final(self).fm_view()),
            ({
                let fv = final(self).fm_view();
                &&& fv.len() > 0
                &&& fv == old(self).fm_view().filter(
                    |x: (Seq<char>, NativeFileManager)| x.0 != session_id@,
                ).push(fv.last())
                &&& fv.last().0 == session_id@
                &&& fv.last().1 == manager
            }),
    {
        let ghost fp = |x: (Seq<char>, NativeFileManager)| x.0 != session_id@;
        let ghost forig = self.file_managers@;
        let ghost fvorig = self.fm_view();
        let mut fi: usize = 0;
        let ghost mut fj: int = 0;
        while fi < self.file_managers.len()
            invariant
                0 <= fj <= forig.len(),
                fp == (|x: (Seq<char>, NativeFileManager)| x.0 != session_id@),
                fvorig == fm_views(forig),
                fi == fm_views(forig.take(fj)).filter(fp).len(),
                fm_views(self.file_managers@) == fm_views(forig.take(fj)).filter(fp) + fm_views(
                    forig.skip(fj),
                ),
                self.file_managers@.len() == fm_views(self.file_managers@).len(),
                fi <= self.file_managers@.len(),
                self.sessions@ == old(self).sessions@,
                self.staging_files@ == old(self).staging_files@,
            decreases forig.len() - fj,
        {
            proof {
                assert(fm_views(self.file_managers@)[fi as int] == fm_views(forig.skip(fj))[0]);
                assert(fm_views(forig.skip(fj))[0] == (forig[fj].session_id@, forig[fj].manager));
                assert(fm_views(forig.take(fj + 1)) =~= fm_views(forig.take(fj)).push(
                    (forig[fj].session_id@, forig[fj].manager),
                ));
                fm_views(forig.take(fj)).lemma_filter_push(
                    (forig[fj].session_id@, forig[fj].manager),
                    fp,
                );
                assert(fm_views(forig.skip(fj)).drop_first() =~= fm_views(forig.skip(fj + 1)));
            }
            if str_eq(self.file_managers[fi].session_id.as_str(), session_id) {
                let ghost prevraw = self.file_managers@;
                self.file_managers.remove(fi);
                proof {
                    assert(self.file_managers@ == prevraw.remove(fi as int));
                    assert(fm_views(self.file_managers@) =~= fm_views(prevraw).remove(fi as int));
                    assert(fm_views(prevraw).remove(fi as int) =~= fm_views(
                        forig.take(fj),
                    ).filter(fp) + fm_views(forig.skip(fj)).drop_first());
                    assert(fm_views(self.file_managers@) =~= fm_views(forig.take(fj + 1)).filter(fp)
                        + fm_views(forig.skip(fj + 1)));
                    fj = fj + 1;
                }
            } else {
                fi = fi + 1;
                proof {
                    assert(fm_views(self.file_managers@) =~= fm_views(forig.take(fj + 1)).filter(fp)
                        + fm_views(forig.skip(fj + 1)));
                    fj = fj + 1;
                }
            }
        }
        proof {
            assert(forig.take(forig.len() as int) =~= forig);
            assert(fm_views(forig.skip(forig.len() as int)) =~= Seq::<
                (Seq<char>, NativeFileManager),
            >::empty());
            assert(fm_views(forig.take(forig.len() as int)) =~= fvorig);
            assert(fm_views(self.file_managers@) =~= fvorig.filter(fp));
        }
        let ghost filtered = self.fm_view();
        let ghost mgr = manager;
        self.file_managers.push(FmEntry { session_id: string_of(session_id), manager });
        proof {
            assert(self.fm_view() =~= filtered.push((session_id@, mgr)));
            lemma_filter_fms_ok(fvorig, fp);
            assert forall|a: int| 0 <= a < filtered.len() implies (#[trigger] filtered[a]).0
                != session_id@ by {
                assert(filtered.contains(filtered[a]));
                fvorig.lemma_filter_contains_rev(fp, filtered[a]);
            }
            assert forall|a: int, b: int|
                #![trigger self.fm_view()[a], self.fm_view()[b]]
                0 <= a < b < self.fm_view().len() implies self.fm_view()[a].0
                != self.fm_view()[b].0 by {
                if b < self.fm_view().len() - 1 {
                    assert(self.fm_view()[a] == filtered[a]);
                    assert(self.fm_view()[b] == filtered[b]);
                } else {
                    assert(self.fm_view()[a] == filtered[a]);
                }
            }
            assert forall|a: int| 0 <= a < self.fm_view().len() implies (#[trigger] self.fm_view()[a]).1.wf() by {
                if a < self.fm_view().len() - 1 {
                    assert(self.fm_view()[a] == filtered[a]);
                } else {
                    assert(self.fm_view()[a].1 == mgr);
                }
            }
        }
    }

    /// Removes every session whose last heartbeat is older than the timeout
    /// at instant `now`, together with its path mapping. Run by a periodic
    /// background sweep.
    pub fn cleanup_stale_sessions(&mut self, now: u64)
        requires
            old(self).wf(),
        ensures
            final(self).wf(),
            final(self).staging_view() == old(self).staging_view(),
            final(self).sessions_view() == old(self).sessions_view().filter(
                |s: Session| !is_stale(s, now),
            ),
            final(self).fm_view() == old(self).fm_view().filter(
                |x: (Seq<char>, NativeFileManager)|
                    !has_stale_owner(old(self).sessions_view(), x.0, now),
            ),
    {
        let ghost fp = |x: (Seq<char>, NativeFileManager)|
            !has_stale_owner(old(self).sessions_view(), x.0, now);
        let ghost forig = self.file_managers@;
        let ghost fvorig = self.fm_view();
        let mut fi: usize = 0;
        let ghost mut fj: int = 0;
        while fi < self.file_managers.len()
            invariant
                0 <= fj <= forig.len(),
                fp == (|x: (Seq<char>, NativeFileManager)|
                    !has_stale_owner(old(self).sessions_view(), x.0, now)),
                fvorig == fm_views(forig),
                fi == fm_views(forig.take(fj)).filter(fp).len(),
                fm_views(self.file_managers@) == fm_views(forig.take(fj)).filter(fp) + fm_views(
                    forig.skip(fj),
                ),
                self.file_managers@.len() == fm_views(self.file_managers@).len(),
                fi <= self.file_managers@.len(),
                self.sessions@ == old(self).sessions@,
                self.staging_files@ == old(self).staging_files@,
                old(self).wf(),
            decreases forig.len() - fj,
        {
            proof {
                assert(fm_views(self.file_managers@)[fi as int] == fm_views(forig.skip(fj))[0]);
                assert(fm_views(forig.skip(fj))[0] == (forig[fj].session_id@, forig[fj].manager));
                assert(fm_views(forig.take(fj + 1)) =~= fm_views(forig.take(fj)).push(
                    (forig[fj].session_id@, forig[fj].manager),
                ));
                fm_views(forig.take(fj)).lemma_filter_push(
                    (forig[fj].session_id@, forig[fj].manager),
                    fp,
                );
                assert(fm_views(forig.skip(fj)).drop_first() =~= fm_views(forig.skip(fj + 1)));
            }
            let key_stale = stale_owner_exists(
                &self.sessions,
                self.file_managers[fi].session_id.as_str(),
                now,
            );
            if key_stale {
                let ghost prevraw = self.file_managers@;
                self.file_managers.remove(fi);
                proof {
                    assert(self.file_managers@ == prevraw.remove(fi as int));
                    assert(fm_views(self.file_managers@) =~= fm_views(prevraw).remove(fi as int));
                    assert(fm_views(prevraw).remove(fi as int) =~= fm_views(
                        forig.take(fj),
                    ).filter(fp) + fm_views(forig.skip(fj)).drop_first());
                    assert(fm_views(self.file_managers@) =~= fm_views(forig.take(fj + 1)).filter(fp)
                        + fm_views(forig.skip(fj + 1)));
                    fj = fj + 1;
                }
            } else {
                fi = fi + 1;
                proof {
                    assert(fm_views(self.file_managers@) =~= fm_views(forig.take(fj + 1)).filter(fp)
                        + fm_views(forig.skip(fj + 1)));
                    fj = fj + 1;
                }
            }
        }
        proof {
            assert(forig.take(forig.len() as int) =~= forig);
            assert(fm_views(forig.skip(forig.len() as int)) =~= Seq::<
                (Seq<char>, NativeFileManager),
            >::empty());
            assert(fm_views(forig.take(forig.len() as int)) =~= fvorig);
            assert(fm_views(self.file_managers@) =~= fvorig.filter(fp));
            lemma_filter_fms_ok(fvorig, fp);
        }
        let ghost sp = |s: Session| !is_stale(s, now);
        let ghost sorig = self.sessions@;
        let ghost fmdone = self.file_managers@;
        let mut i: usize = 0;
        let ghost mut j: int = 0;
        while i < self.sessions.len()
            invariant
                0 <= j <= sorig.len(),
                sp == (|s: Session| !is_stale(s, now)),
                i == sorig.take(j).filter(sp).len(),
                self.sessions@ == sorig.take(j).filter(sp) + sorig.skip(j),
                self.file_managers@ == fmdone,
                self.staging_files@ == old(self).staging_files@,
                sessions_ok(sorig),
            decreases sorig.len() - j,
        {
            proof {
                assert(self.sessions@[i as int] == sorig.skip(j)[0]);
                assert(sorig.skip(j)[0] == sorig[j]);
                assert(sorig.take(j + 1) =~= sorig.take(j).push(sorig[j]));
                sorig.take(j).lemma_filter_push(sorig[j], sp);
                assert(sorig.skip(j).drop_first() =~= sorig.skip(j + 1));
            }
            let last = self.sessions[i].last_heartbeat;
            if now > last && now - last > STALE_TIMEOUT_MS {
                self.sessions.remove(i);
                proof {
                    assert(self.sessions@ =~= sorig.take(j + 1).filter(sp) + sorig.skip(j + 1));
                    j = j + 1;
                }
            } else {
                i = i + 1;
                proof {
                    assert(self.sessions@ =~= sorig.take(j + 1).filter(sp) + sorig.skip(j + 1));
                    j = j + 1;
                }
            }
        }
        proof {
            assert(sorig.take(sorig.len() as int) =~= sorig);
            assert(sorig.skip(sorig.len() as int) =~= Seq::<Session>::empty());
            assert(self.sessions@ =~= sorig.filter(sp));
            lemma_filter_sessions_ok(sorig, sp);
        }
    }

    /// Removes and returns the files staged under this session id.
    fn take_staged(&mut self, session_id: &str) -> (r: Vec<ProjectFile>)
        requires
            old(self).wf(),
        ensures
            final(self).wf(),
            final(self).sessions_view() == old(self).sessions_view(),
            final(self).fm_view() == old(self).fm_view(),
            final(self).staging_view() == old(self).staging_view().filter(
                |x: (Seq<char>, Seq<ProjectFile>)| x.0 != session_id@,
            ),
            r@ == staged_for(old(self).staging_view(), session_id@),
    {
        let ghost pred = |x: (Seq<char>, Seq<ProjectFile>)| x.0 != session_id@;
        let ghost orig = self.staging_view();
        let n = self.staging_files.len();
        let mut i: usize = 0;
        while i < n
            invariant
                i <= n,
                n == self.staging_files@.len(),
                *self == *old(self),
                old(self).wf(),
                orig == self.staging_view(),
                pred == (|x: (Seq<char>, Seq<ProjectFile>)| x.0 != session_id@),
                forall|k: int| 0 <= k < i ==> (#[trigger] self.staging_view()[k]).0 != session_id@,
            decreases n - i,
        {
            if str_eq(self.staging_files[i].session_id.as_str(), session_id) {
                let ghost prevraw = self.staging_files@;
                let e = self.staging_files.remove(i);
                proof {
                    assert(self.staging_files@ == prevraw.remove(i as int));
                    assert(self.staging_view() =~= orig.remove(i as int));
                    assert(orig[i as int].0 == session_id@);
                    lemma_unique_remove_is_filter(orig, i as int, pred);
                    lemma_staged_for_index(orig, session_id@, i as int);
                    lemma_filter_staging_ok(orig, pred);
                }
                return e.files;
            }
            i = i + 1;
        }
        proof {
            lemma_staged_for_absent(orig, session_id@);
            lemma_filter_all(orig, pred);
        }
        Vec::new()
    }

    /// Evicts the registering session's own id and every live session whose
    /// resolved project id matches, together with their path mappings.
    fn evict_for_registration(&mut self, session_id: &str, resolved_id: &str)
        requires
            old(self).wf(),
        ensures
            final(self).wf(),
            final(self).staging_view() == old(self).staging_view(),
            final(self).sessions_view() == old(self).sessions_view().filter(
                |s: Session| sid_of(s) != session_id@ && !proj_matches(s, resolved_id@),
            ),
            final(self).fm_view() == old(self).fm_view().filter(
                |x: (Seq<char>, NativeFileManager)|
                    !fm_evicted_at_register(
                        old(self).sessions_view(),
                        x.0,
                        session_id@,
                        resolved_id@,
                    ),
            ),
    {
        let ghost fp = |x: (Seq<char>, NativeFileManager)|
            !fm_evicted_at_register(old(self).sessions_view(), x.0, session_id@, resolved_id@);
        let ghost forig = self.file_managers@;
        let ghost fvorig = self.fm_view();
        let mut fi: usize = 0;
        let ghost mut fj: int = 0;
        while fi < self.file_managers.len()
            invariant
                0 <= fj <= forig.len(),
                fp == (|x: (Seq<char>, NativeFileManager)|
                    !fm_evicted_at_register(
                        old(self).sessions_view(),
                        x.0,
                        session_id@,
                        resolved_id@,
                    )),
                fvorig == fm_views(forig),
                fi == fm_views(forig.take(fj)).filter(fp).len(),
                fm_views(self.file_managers@) == fm_views(forig.take(fj)).filter(fp) + fm_views(
                    forig.skip(fj),
                ),
                self.file_managers@.len() == fm_views(self.file_managers@).len(),
                fi <= self.file_managers@.len(),
                self.sessions@ == old(self).sessions@,
                self.staging_files@ == old(self).staging_files@,
                old(self).wf(),
            decreases forig.len() - fj,
        {
            proof {
                assert(fm_views(self.file_managers@)[fi as int] == fm_views(forig.skip(fj))[0]);
                assert(fm_views(forig.skip(fj))[0] == (forig[fj].session_id@, forig[fj].manager));
                assert(fm_views(forig.take(fj + 1)) =~= fm_views(forig.take(fj)).push(
                    (forig[fj].session_id@, forig[fj].manager),
                ));
                fm_views(forig.take(fj)).lemma_filter_push(
                    (forig[fj].session_id@, forig[fj].manager),
                    fp,
                );
                assert(fm_views(forig.skip(fj)).drop_first() =~= fm_views(forig.skip(fj + 1)));
            }
            let key = &self.file_managers[fi].session_id;
            let gone = str_eq(key.as_str(), session_id) || evicted_owner_exists(
                &self.sessions,
                key.as_str(),
                resolved_id,
            );
            if gone {
                let ghost prevraw = self.file_managers@;
                self.file_managers.remove(fi);
                proof {
                    assert(self.file_managers@ == prevraw.remove(fi as int));
                    assert(fm_views(self.file_managers@) =~= fm_views(prevraw).remove(fi as int));
                    assert(fm_views(prevraw).remove(fi as int) =~= fm_views(
                        forig.take(fj),
                    ).filter(fp) + fm_views(forig.skip(fj)).drop_first());
                    assert(fm_views(self.file_managers@) =~= fm_views(forig.take(fj + 1)).filter(fp)
                        + fm_views(forig.skip(fj + 1)));
                    fj = fj + 1;
                }
            } else {
                fi = fi + 1;
                proof {
                    assert(fm_views(self.file_managers@) =~= fm_views(forig.take(fj + 1)).filter(fp)
                        + fm_views(forig.skip(fj + 1)));
                    fj = fj + 1;
                }
            }
        }
        proof {
            assert(forig.take(forig.len() as int) =~= forig);
            assert(fm_views(forig.skip(forig.len() as int)) =~= Seq::<
                (Seq<char>, NativeFileManager),
            >::empty());
            assert(fm_views(forig.take(forig.len() as int)) =~= fvorig);
            assert(fm_views(self.file_managers@) =~= fvorig.filter(fp));
            lemma_filter_fms_ok(fvorig, fp);
        }
        let ghost sp = |s: Session| sid_of(s) != session_id@ && !proj_matches(s, resolved_id@);
        let ghost sorig = self.sessions@;
        let ghost fmdone = self.file_managers@;
        let mut i: usize = 0;
        let ghost mut j: int = 0;
        while i < self.sessions.len()
            invariant
                0 <= j <= sorig.len(),
                sp == (|s: Session| sid_of(s) != session_id@ && !proj_matches(s, resolved_id@)),
                i == sorig.take(j).filter(sp).len(),
                self.sessions@ == sorig.take(j).filter(sp) + sorig.skip(j),
                self.file_managers@ == fmdone,
                self.staging_files@ == old(self).staging_files@,
                sessions_ok(sorig),
            decreases sorig.len() - j,
        {
            proof {
                assert(self.sessions@[i as int] == sorig.skip(j)[0]);
                assert(sorig.skip(j)[0] == sorig[j]);
                assert(sorig.take(j + 1) =~= sorig.take(j).push(sorig[j]));
                sorig.take(j).lemma_filter_push(sorig[j], sp);
                assert(sorig.skip(j).drop_first() =~= sorig.skip(j + 1));
            }
            let sid_matches = str_eq(
                self.sessions[i].identity.session_id.as_str(),
                session_id,
            );
            let proj_match = match &self.sessions[i].identity.project_id {
                Some(p) => str_eq(p.as_str(), resolved_id),
                None => false,
            };
            if sid_matches || proj_match {
                self.sessions.remove(i);
                proof {
                    assert(self.sessions@ =~= sorig.take(j + 1).filter(sp) + sorig.skip(j + 1));
                    j = j + 1;
                }
            } else {
                i = i + 1;
                proof {
                    assert(self.sessions@ =~= sorig.take(j + 1).filter(sp) + sorig.skip(j + 1));
                    j = j + 1;
                }
            }
        }
        proof {
            assert(sorig.take(sorig.len() as int) =~= sorig);
            assert(sorig.skip(sorig.len() as int) =~= Seq::<Session>::empty());
            assert(self.sessions@ =~= sorig.filter(sp));
            lemma_filter_sessions_ok(sorig, sp);
        }
    }

    /// Registers a session: merges any files staged under its ephemeral id
    /// ahead of those supplied here, evicts any live session holding the
    /// resolved project id (or reusing the ephemeral id), and stores the new
    /// session, bound to the directory the claim step produced (`None`
    /// degrades to editor-only operation). Returns the resolved id, which
    /// the caller persists for future reconnects.
    ///
    /// The caller resolves the id first (`resolve_project_id`), runs the
    /// directory claim on it, and afterwards writes the initial file
    /// snapshot and starts the watcher over the bound directory.
    pub fn register_session(
        &mut self,
        identity: SessionIdentity,
        files: Vec<ProjectFile>,
        resolved_id: String,
        bound_folder: Option<String>,
        now: u64,
    ) -> (r: String)
        requires
            old(self).wf(),
        ensures
            final(self).wf(),
            r == resolved_id,
            final(self).staging_view() == old(self).staging_view().filter(
                |x: (Seq<char>, Seq<ProjectFile>)| x.0 != identity.session_id@,
            ),
            ({
                let sv = final(self).sessions_view();
                &&& sv.len() > 0
                &&& sv == old(self).sessions_view().filter(
                    |s: Session| sid_of(s) != identity.session_id@ && !proj_matches(
                        s,
                        resolved_id@,
                    ),
                ).push(sv.last())
                &&& sv.last().identity.place_id == identity.place_id
                &&& sv.last().identity.place_name == identity.place_name
                &&& sv.last().identity.session_id == identity.session_id
                &&& (sv.last().identity.project_id matches Some(p) && p@ == resolved_id@)
                &&& sv.last().bound_folder == bound_folder
                &&& sv.last().outbound_queue@ == Seq::<FileChange>::empty()
                &&& sv.last().ignore_paths.entry_set() == Set::<
                    crate::registry::IgnorePair,
                >::empty()
                &&& sv.last().last_heartbeat == now
                &&& sv.last().files@ == staged_for(old(self).staging_view(), identity.session_id@)
                    + files@
            }),
            ({
                let fv = final(self).fm_view();
                let kept = old(self).fm_view().filter(
                    |x: (Seq<char>, NativeFileManager)|
                        !fm_evicted_at_register(
                            old(self).sessions_view(),
                            x.0,
                            identity.session_id@,
                            resolved_id@,
                        ),
                );
                &&& (bound_folder is None ==> fv == kept)
                &&& (bound_folder matches Some(b) ==> fv.len() > 0 && fv == kept.push(fv.last())
                    && fv.last().0 == identity.session_id@ && fv.last().1.pairs() == Set::<
                    crate::assigner::PathPair,
                >::empty() && fv.last().1.root_view() == b@)
            }),
    {
        let sid_str = identity.session_id.clone();
        let mut merged = self.take_staged(sid_str.as_str());
        let mut supplied = files;
        let ghost files0 = supplied@;
        merged.append(&mut supplied);
        self.evict_for_registration(sid_str.as_str(), resolved_id.as_str());
        let ghost evicted_state = *self;
        let identity2 = SessionIdentity {
            place_id: identity.place_id,
            place_name: identity.place_name,
            session_id: identity.session_id,
            project_id: Some(resolved_id.clone()),
        };
        let mut session = Session::new(identity2, merged, now);
        session.bound_folder = crate::records::dup_opt_string(&bound_folder);
        let ghost newsess = session;
        self.sessions.push(session);
        proof {
            let keep = |s: Session| sid_of(s) != identity.session_id@ && !proj_matches(
                s,
                resolved_id@,
            );
            let kept = old(self).sessions_view().filter(keep);
            assert(self.sessions@ =~= kept.push(newsess));
            assert forall|a: int| 0 <= a < kept.len() implies keep(#[trigger] kept[a]) by {
                old(self).sessions_view().lemma_filter_pred(keep, a);
            }
            assert forall|a: int, b: int|
                #![trigger self.sessions@[a], self.sessions@[b]]
                0 <= a < b < self.sessions@.len() implies sid_of(self.sessions@[a]) != sid_of(
                self.sessions@[b],
            ) && (match (
                self.sessions@[a].identity.project_id,
                self.sessions@[b].identity.project_id,
            ) {
                (Some(x), Some(y)) => x@ != y@,
                _ => true,
            }) by {
                if b == self.sessions@.len() - 1 {
                    assert(self.sessions@[a] == kept[a]);
                    assert(keep(kept[a]));
                    assert(self.sessions@[b] == newsess);
                } else {
                    assert(self.sessions@[a] == kept[a]);
                    assert(self.sessions@[b] == kept[b]);
                    assert(sessions_ok(kept));
                }
            }
            assert forall|a: int| 0 <= a < self.sessions@.len() implies (
            #[trigger] self.sessions@[a]).wf() by {
                if a == self.sessions@.len() - 1 {
                    assert(self.sessions@[a] == newsess);
                } else {
                    assert(self.sessions@[a] == kept[a]);
                    assert(sessions_ok(kept));
                }
            }
        }
        match bound_folder {
            Some(folder) => {
                let manager = NativeFileManager::new(folder);
                self.replace_fm(sid_str.as_str(), manager);
                proof {
                    let keepfm = |x: (Seq<char>, NativeFileManager)|
                        !fm_evicted_at_register(
                            old(self).sessions_view(),
                            x.0,
                            identity.session_id@,
                            resolved_id@,
                        );
                    let kept = old(self).fm_view().filter(keepfm);
                    let neq = |x: (Seq<char>, NativeFileManager)| x.0 != identity.session_id@;
                    assert forall|a: int| 0 <= a < kept.len() implies neq(#[trigger] kept[a]) by {
                        old(self).fm_view().lemma_filter_pred(keepfm, a);
                    }
                    lemma_filter_all(kept, neq);
                }
            },
            None => {},
        }
        resolved_id
    }

    /// Resolves the absolute target of a proxied write under a session's
    /// bound directory, rejecting paths that would escape it. The caller
    /// performs the write; the watcher then reports it to the editor.
    pub fn proxy_write(&self, session_id: &str, relative_path: &str) -> (r: Result<
        String,
        SyncError,
    >)
        requires
            self.wf(),
        ensures
            (!self.has_session(session_id@) ==> r == Err::<String, SyncError>(
                SyncError::SessionNotFound,
            )),
            (forall|i: int|
                0 <= i < self.sessions_view().len() && sid_of(#[trigger] self.sessions_view()[i])
                    == session_id@ ==> {
                    let s = self.sessions_view()[i];
                    &&& (s.bound_folder is None ==> r == Err::<String, SyncError>(
                        SyncError::NotBound,
                    ))
                    &&& (s.bound_folder is Some && !safe_rel_path(relative_path@) ==> r == Err::<
                        String,
                        SyncError,
                    >(SyncError::AccessDenied))
                    &&& (s.bound_folder is Some && safe_rel_path(relative_path@) ==> (r matches Ok(
                        full,
                    ) && full@ == s.bound_view() + seq!['/'] + relative_path@))
                }),
    {
        let i = match find_session_index(&self.sessions, session_id) {
            Some(i) => i,
            None => {
                return Err(SyncError::SessionNotFound);
            },
        };
        proof {
            assert forall|k: int|
                0 <= k < self.sessions_view().len() && sid_of(#[trigger] self.sessions_view()[k])
                    == session_id@ implies k == i as int by {
                if k != i as int {
                    assert(self.sessions@[k] == self.sessions@[k]);
                    assert(self.sessions@[i as int] == self.sessions@[i as int]);
                }
            }
        }
        let bound = match &self.sessions[i].bound_folder {
            Some(b) => b,
            None => {
                return Err(SyncError::NotBound);
            },
        };
        if !is_safe_relative(relative_path) {
            return Err(SyncError::AccessDenied);
        }
        let mut full = bound.clone();
        push_char(&mut full, '/');
        full.append(relative_path);
        proof {
            assert(full@ =~= self.sessions_view()[i as int].bound_view() + seq!['/']
                + relative_path@);
            assert forall|k: int|
                0 <= k < self.sessions_view().len() && sid_of(#[trigger] self.sessions_view()[k])
                    == session_id@ implies k == i as int by {
                if k != i as int {
                    assert(self.sessions@[k] == self.sessions@[k]);
                    assert(self.sessions@[i as int] == self.sessions@[i as int]);
                }
            }
        }
        Ok(full)
    }

    /// Routes one watched filesystem event under a session's bound directory
    /// to that session. Events for unknown or unbound sessions are inert.
    pub fn handle_watch_event(
        &mut self,
        session_id: &str,
        abs_path: &str,
        content: String,
        now: u64,
    ) -> (queued: bool)
        requires
            old(self).wf(),
        ensures
            final(self).wf(),
            final(self).fm_view() == old(self).fm_view(),
            final(self).staging_view() == old(self).staging_view(),
            (!old(self).has_session(session_id@) ==> *final(self) == *old(self) && !queued),
            (forall|i: int|
                0 <= i < old(self).sessions_view().len() && sid_of(
                    #[trigger] old(self).sessions_view()[i],
                ) == session_id@ ==> {
                    let pre = old(self).sessions_view()[i];
                    &&& (pre.bound_folder is None ==> *final(self) == *old(self) && !queued)
                    &&& (pre.bound_folder is Some ==> final(self).sessions_view() == old(
                        self,
                    ).sessions_view().update(i, final(self).sessions_view()[i])
                        && crate::session::observe_post(
                        pre,
                        final(self).sessions_view()[i],
                        abs_path@,
                        content,
                        now,
                        queued,
                    ))
                }),
    {
        let i = match find_session_index(&self.sessions, session_id) {
            Some(i) => i,
            None => {
                return false;
            },
        };
        let bound_some = match &self.sessions[i].bound_folder {
            Some(_) => true,
            None => false,
        };
        if !bound_some {
            proof {
                assert forall|k: int|
                    0 <= k < old(self).sessions_view().len() && sid_of(
                        #[trigger] old(self).sessions_view()[k],
                    ) == session_id@ implies k == i as int by {
                    if k != i as int {
                        assert(self.sessions@[k] == self.sessions@[k]);
                        assert(self.sessions@[i as int] == self.sessions@[i as int]);
                    }
                }
            }
            return false;
        }
        let ghost idx = i as int;
        let s = &mut self.sessions[i];
        let queued = s.observe_fs_event(abs_path, content, now);
        proof {
            let ns = self.sessions@[idx];
            assert(self.sessions@ =~= old(self).sessions@.update(idx, ns));
            assert(ns.identity == old(self).sessions@[idx].identity);
            lemma_update_sessions_ok(old(self).sessions@, idx, ns);
            assert forall|k: int|
                0 <= k < old(self).sessions_view().len() && sid_of(
                    #[trigger] old(self).sessions_view()[k],
                ) == session_id@ implies k == idx by {
                if k != idx {
                    assert(old(self).sessions@[k] == old(self).sessions@[k]);
                    assert(old(self).sessions@[idx] == old(self).sessions@[idx]);
                }
            }
        }
        queued
    }

    /// Applies a batch of editor-originated changes to a session: each
    /// `"write"` change with content is resolved through the session's path
    /// mapping, a suppression entry for the resolved path is recorded so the
    /// watcher's own observation of the write is ignored, and the write is
    /// handed back for the caller to perform. Failures are isolated per
    /// change: a change whose resolved path would escape the directory is
    /// skipped and the rest of the batch still applies. Fails with
    /// `SessionNotFound` when the session has no path mapping (not bound).
    pub fn apply_inbound_changes(
        &mut self,
        session_id: &str,
        changes: Vec<FileChange>,
        now: u64,
    ) -> (r: Result<Vec<WriteCmd>, SyncError>)
        requires
            old(self).wf(),
            now <= u64::MAX - IGNORE_TTL_MS,
        ensures
            final(self).wf(),
            final(self).staging_view() == old(self).staging_view(),
            (!old(self).has_fm(session_id@) ==> r == Err::<Vec<WriteCmd>, SyncError>(
                SyncError::SessionNotFound,
            ) && *final(self) == *old(self)),
            (old(self).has_fm(session_id@) ==> r is Ok),
            (forall|fi: int|
                0 <= fi < old(self).fm_view().len() && (#[trigger] old(self).fm_view()[fi]).0
                    == session_id@ ==> {
                    let f = inbound_fold(
                        old(self).fm_view()[fi].1.pairs(),
                        session_ignores(old(self).sessions_view(), session_id@),
                        changes@,
                        now,
                    );
                    &&& final(self).fm_view() == old(self).fm_view().update(
                        fi,
                        final(self).fm_view()[fi],
                    )
                    &&& final(self).fm_view()[fi].0 == session_id@
                    &&& final(self).fm_view()[fi].1.pairs() == f.0
                    &&& final(self).fm_view()[fi].1.root_view() == old(
                        self,
                    ).fm_view()[fi].1.root_view()
                    &&& (r matches Ok(cmds) && cmds@.map_values(
                        |w: WriteCmd| (w.relative_path@, w.content@),
                    ) == f.2)
                    &&& (!old(self).has_session(session_id@) ==> final(self).sessions_view() == old(
                        self,
                    ).sessions_view())
                    &&& (forall|si: int|
                        0 <= si < old(self).sessions_view().len() && sid_of(
                            #[trigger] old(self).sessions_view()[si],
                        ) == session_id@ ==> final(self).sessions_view() == old(
                            self,
                        ).sessions_view().update(si, final(self).sessions_view()[si]) && final(self).sessions_view()[si] == (Session {
                            ignore_paths: final(self).sessions_view()[si].ignore_paths,
                            ..old(self).sessions_view()[si]
                        }) && final(self).sessions_view()[si].ignore_paths.entry_set() == f.1)
                }),
    {
        let fi = match find_fm_index(&self.file_managers, session_id) {
            Some(fi) => fi,
            None => {
                proof {
                    assert(self.fm_view() =~= fm_views(self.file_managers@));
                    assert(!old(self).has_fm(session_id@));
                }
                return Err(SyncError::SessionNotFound);
            },
        };
        proof {
            assert(self.fm_view() =~= fm_views(self.file_managers@));
        }
        let si_opt = find_session_index(&self.sessions, session_id);
        proof {
            match si_opt {
                Some(si) => {
                    lemma_session_ignores_index(self.sessions@, session_id@, si as int);
                },
                None => {
                    lemma_session_ignores_absent(self.sessions@, session_id@);
                },
            }
        }
        let ghost m0 = self.fm_view()[fi as int].1.pairs();
        let ghost ig0 = session_ignores(self.sessions@, session_id@);
        let mut cmds: Vec<WriteCmd> = Vec::new();
        let n = changes.len();
        let mut k: usize = 0;
        while k < n
            invariant
                k <= n,
                n == changes@.len(),
                old(self).wf(),
                now <= u64::MAX - IGNORE_TTL_MS,
                fi < self.file_managers@.len(),
                self.file_managers@.len() == old(self).file_managers@.len(),
                self.staging_files@ == old(self).staging_files@,
                forall|x: int|
                    0 <= x < self.fm_view().len() && x != fi ==> #[trigger] self.fm_view()[x]
                        == old(self).fm_view()[x],
                self.fm_view()[fi as int].0 == session_id@,
                old(self).fm_view()[fi as int].0 == session_id@,
                self.fm_view()[fi as int].1.wf(),
                self.fm_view()[fi as int].1.root_view() == old(
                    self,
                ).fm_view()[fi as int].1.root_view(),
                self.sessions@.len() == old(self).sessions@.len(),
                (si_opt is None ==> self.sessions@ == old(self).sessions@ && forall|x: int|
                    0 <= x < old(self).sessions@.len() ==> sid_of(#[trigger] old(self).sessions@[x])
                        != session_id@),
                (si_opt matches Some(si) ==> (si as int) < self.sessions@.len() && sid_of(
                    old(self).sessions@[si as int],
                ) == session_id@ && (forall|x: int|
                    0 <= x < self.sessions@.len() && x != si as int
                        ==> #[trigger] self.sessions@[x] == old(self).sessions@[x])
                    && self.sessions@[si as int] == (Session {
                    ignore_paths: self.sessions@[si as int].ignore_paths,
                    ..old(self).sessions@[si as int]
                }) && self.sessions@[si as int].ignore_paths.wf() && ig0 == old(
                    self,
                ).sessions@[si as int].ignore_paths.entry_set()),
                m0 == old(self).fm_view()[fi as int].1.pairs(),
                ig0 == session_ignores(old(self).sessions@, session_id@),
                ({
                    let f = inbound_fold(m0, ig0, changes@.take(k as int), now);
                    &&& self.fm_view()[fi as int].1.pairs() == f.0
                    &&& (si_opt matches Some(si)
                        ==> self.sessions@[si as int].ignore_paths.entry_set() == f.1)
                    &&& cmds@.map_values(|w: WriteCmd| (w.relative_path@, w.content@)) == f.2
                }),
            decreases n - k,
        {
            proof {
                assert(changes@.take(k as int + 1).drop_last() =~= changes@.take(k as int));
                assert(changes@.take(k as int + 1).last() == changes@[k as int]);
            }
            let ghost fpre = inbound_fold(m0, ig0, changes@.take(k as int), now);
            let c = &changes[k];
            let is_write = str_eq(c.change_type.as_str(), "write");
            let has_content = match &c.content {
                Some(_) => true,
                None => false,
            };
            if is_write && has_content {
                let guid: &str = match &c.guid {
                    Some(g) => g.as_str(),
                    None => "",
                };
                proof {
                    reveal_strlit("");
                    if c.guid is None {
                        assert(guid@ =~= Seq::<char>::empty());
                    }
                    assert(guid@ == guid_or_empty(c.guid));
                }
                let class: Option<&str> = match &c.class_name {
                    Some(cn) => Some(cn.as_str()),
                    None => None,
                };
                proof {
                    assert(opt_str_view(class) == opt_string_view(c.class_name));
                }
                let ghost prevfm = self.file_managers@;
                let ghost prevview = self.fm_view();
                let fme = &mut self.file_managers[fi];
                let res = fme.manager.write_file_guid(
                    guid,
                    c.path.as_str(),
                    c.is_script,
                    class,
                );
                proof {
                    assert forall|x: int|
                        0 <= x < self.fm_view().len() && x != fi as int implies #[trigger] self.fm_view()[x]
                        == prevview[x] by {
                        assert(self.file_managers@[x] == prevfm[x]);
                        assert(self.fm_view()[x] == (
                            self.file_managers@[x].session_id@,
                            self.file_managers@[x].manager,
                        ));
                        assert(prevview[x] == (prevfm[x].session_id@, prevfm[x].manager));
                    }
                    assert(self.fm_view()[fi as int] == (
                        self.file_managers@[fi as int].session_id@,
                        self.file_managers@[fi as int].manager,
                    ));
                    assert(self.file_managers@[fi as int].session_id@ == prevfm[fi as int].session_id@);
                }
                match res {
                    Ok(rel) => {
                        match si_opt {
                            Some(si) => {
                                let expiry = now + IGNORE_TTL_MS;
                                let s = &mut self.sessions[si];
                                s.ignore_paths.insert(rel.clone(), expiry);
                            },
                            None => {},
                        }
                        let content = match &c.content {
                            Some(ct) => ct.clone(),
                            None => {
                                proof {
                                    assert(false);
                                }
                                String::new()
                            },
                        };
                        cmds.push(WriteCmd { relative_path: rel, content });
                        proof {
                            assert(cmds@.map_values(
                                |w: WriteCmd| (w.relative_path@, w.content@),
                            ) =~= fpre.2.push(
                                (
                                    resolved_rel_path(
                                        c.path@,
                                        c.is_script,
                                        opt_string_view(c.class_name),
                                    ),
                                    content_view(*c),
                                ),
                            ));
                        }
                    },
                    Err(_) => {},
                }
            }
            k = k + 1;
        }
        proof {
            assert(changes@.take(n as int) =~= changes@);
            assert(self.fm_view() =~= old(self).fm_view().update(
                fi as int,
                self.fm_view()[fi as int],
            ));
            match si_opt {
                Some(si) => {
                    assert(self.sessions@ =~= old(self).sessions@.update(
                        si as int,
                        self.sessions@[si as int],
                    ));
                    lemma_update_sessions_ok(
                        old(self).sessions@,
                        si as int,
                        self.sessions@[si as int],
                    );
                    assert forall|x: int|
                        0 <= x < old(self).sessions@.len() && sid_of(
                            #[trigger] old(self).sessions@[x],
                        ) == session_id@ implies x == si as int by {
                        if x != si as int {
                            assert(old(self).sessions@[x] == old(self).sessions@[x]);
                            assert(old(self).sessions@[si as int] == old(
                                self,
                            ).sessions@[si as int]);
                        }
                    }
                },
                None => {},
            }
            assert forall|x: int|
                0 <= x < old(self).fm_view().len() && (#[trigger] old(self).fm_view()[x]).0
                    == session_id@ implies x == fi as int by {
                if x != fi as int {
                    assert(old(self).fm_view()[x] == old(self).fm_view()[x]);
                    assert(old(self).fm_view()[fi as int] == old(self).fm_view()[fi as int]);
                }
            }
            assert forall|a: int, b: int|
                #![trigger self.fm_view()[a], self.fm_view()[b]]
                0 <= a < b < self.fm_view().len() implies self.fm_view()[a].0
                != self.fm_view()[b].0 by {
                assert(old(self).fm_view()[a] == old(self).fm_view()[a]);
                assert(old(self).fm_view()[b] == old(self).fm_view()[b]);
                assert(self.fm_view()[a].0 == old(self).fm_view()[a].0);
                assert(self.fm_view()[b].0 == old(self).fm_view()[b].0);
            }
            assert forall|a: int| 0 <= a < self.fm_view().len() implies (
            #[trigger] self.fm_view()[a]).1.wf() by {
                assert(old(self).fm_view()[a] == old(self).fm_view()[a]);
                if a != fi as int {
                    assert(self.fm_view()[a] == old(self).fm_view()[a]);
                }
            }
        }
        Ok(cmds)
    }
}

/// The files staged under `id`: the first staging entry with this key, or
/// nothing.
pub open spec fn staged_for(sv: Seq<(Seq<char>, Seq<ProjectFile>)>, id: Seq<char>) -> Seq<
    ProjectFile,
>
    decreases sv.len(),
{
    if sv.len() == 0 {
        Seq::empty()
    } else if sv[0].0 == id {
        sv[0].1
    } else {
        staged_for(sv.drop_first(), id)
    }
}

/// Whether an inbound change is an applicable write: a `"write"` record
/// carrying content.
pub open spec fn is_inbound_write(c: FileChange) -> bool {
    c.change_type@ == "write"@ && c.content is Some
}

/// The node identifier used for a change: the supplied one, or empty.
pub open spec fn guid_or_empty(g: Option<String>) -> Seq<char> {
    match g {
        Some(s) => s@,
        None => Seq::empty(),
    }
}

/// The content carried by a change, when present.
pub open spec fn content_view(c: FileChange) -> Seq<char> {
    match c.content {
        Some(ct) => ct@,
        None => Seq::empty(),
    }
}

/// The anti-loop registry of the session with this id, or empty when none.
pub open spec fn session_ignores(sv: Seq<Session>, id: Seq<char>) -> Set<IgnorePair>
    decreases sv.len(),
{
    if sv.len() == 0 {
        Set::empty()
    } else if sid_of(sv[0]) == id {
        sv[0].ignore_paths.entry_set()
    } else {
        session_ignores(sv.drop_first(), id)
    }
}

/// The joint effect of a batch of inbound changes, folded left to right:
/// the path mapping after all resolutions, the anti-loop registry with one
/// suppression entry per performed write, and the writes to perform (path
/// and content, in order). Non-write changes are skipped; a change whose
/// resolved path would escape the directory yields no write and no entry,
/// though the ownership transfer in the mapping still happens, as
/// resolution precedes validation.
pub open spec fn inbound_fold(
    m0: Set<PathPair>,
    ig0: Set<IgnorePair>,
    changes: Seq<FileChange>,
    now: u64,
) -> (Set<PathPair>, Set<IgnorePair>, Seq<(Seq<char>, Seq<char>)>)
    decreases changes.len(),
{
    if changes.len() == 0 {
        (m0, ig0, Seq::empty())
    } else {
        let f = inbound_fold(m0, ig0, changes.drop_last(), now);
        let c = changes.last();
        if is_inbound_write(c) {
            let rel = resolved_rel_path(c.path@, c.is_script, opt_string_view(c.class_name));
            let m2 = spec_assign(f.0, guid_or_empty(c.guid), rel);
            if safe_rel_path(rel) {
                (
                    m2,
                    spec_ignore_insert(f.1, rel, (now + IGNORE_TTL_MS) as u64),
                    f.2.push((rel, content_view(c))),
                )
            } else {
                (m2, f.1, f.2)
            }
        } else {
            f
        }
    }
}

/// A file-manager key that registration evicts: the registering session's
/// own key, or the key of a session whose resolved project id matches.
pub open spec fn fm_evicted_at_register(
    old_sv: Seq<Session>,
    key: Seq<char>,
    sid: Seq<char>,
    pid: Seq<char>,
) -> bool {
    key == sid || exists|i: int|
        0 <= i < old_sv.len() && sid_of(#[trigger] old_sv[i]) == key && proj_matches(old_sv[i], pid)
}

/// Some session in the table owns this key and is stale at instant `now`.
pub open spec fn has_stale_owner(sv: Seq<Session>, key: Seq<char>, now: u64) -> bool {
    exists|i: int| 0 <= i < sv.len() && sid_of(#[trigger] sv[i]) == key && is_stale(sv[i], now)
}

/// Law (dedup invariant): a well-formed session table never holds two live
/// sessions with the same resolved project id.
pub proof fn lemma_dedup_invariant(m: SessionManager, pid: Seq<char>, i: int, j: int)
    requires
        m.wf(),
        0 <= i < m.sessions_view().len(),
        0 <= j < m.sessions_view().len(),
        i != j,
        proj_matches(m.sessions_view()[i], pid),
    ensures
        !proj_matches(m.sessions_view()[j], pid),
{
    assert(m.sessions_view()[i] == m.sessions_view()[i]);
    assert(m.sessions_view()[j] == m.sessions_view()[j]);
}

/// Law (staleness eviction): a session whose heartbeat is older than the
/// timeout at instant `now` is absent after the sweep, and hence absent from
/// the listed session identities.
pub proof fn lemma_stale_eviction(pre: Seq<Session>, now: u64, s: Session)
    requires
        is_stale(s, now),
    ensures
        !pre.filter(|x: Session| !is_stale(x, now)).contains(s),
{
    broadcast use vstd::seq_lib::group_seq_lib_default;

    let f = pre.filter(|x: Session| !is_stale(x, now));
    if f.contains(s) {
        let i = choose|i: int| 0 <= i < f.len() && f[i] == s;
        pre.lemma_filter_pred(|x: Session| !is_stale(x, now), i);
    }
}

/// Filtering with a predicate every element satisfies returns the sequence
/// itself.
proof fn lemma_filter_all<A>(s: Seq<A>, pred: spec_fn(A) -> bool)
    requires
        forall|i: int| 0 <= i < s.len() ==> pred(#[trigger] s[i]),
    ensures
        s.filter(pred) == s,
    decreases s.len(),
{
    reveal(Seq::filter);
    if s.len() > 0 {
        assert(s[s.len() - 1] == s.last());
        lemma_filter_all(s.drop_last(), pred);
        assert(s.drop_last().push(s.last()) =~= s);
    }
}

/// When exactly one element fails the predicate, filtering equals removing
/// that element.
proof fn lemma_unique_remove_is_filter<A>(s: Seq<A>, k: int, pred: spec_fn(A) -> bool)
    requires
        0 <= k < s.len(),
        !pred(s[k]),
        forall|i: int| 0 <= i < s.len() && i != k ==> pred(#[trigger] s[i]),
    ensures
        s.remove(k) == s.filter(pred),
    decreases s.len(),
{
    reveal(Seq::filter);
    if k == s.len() - 1 {
        assert(s.remove(k) =~= s.drop_last());
        lemma_filter_all(s.drop_last(), pred);
    } else {
        assert(pred(s.last()));
        lemma_unique_remove_is_filter(s.drop_last(), k, pred);
        assert(s.remove(k) =~= s.drop_last().remove(k).push(s.last()));
    }
}

/// `staged_for` returns the files at the first index whose key matches.
proof fn lemma_staged_for_index(sv: Seq<(Seq<char>, Seq<ProjectFile>)>, id: Seq<char>, k: int)
    requires
        0 <= k < sv.len(),
        sv[k].0 == id,
        forall|j: int| 0 <= j < k ==> (#[trigger] sv[j]).0 != id,
    ensures
        staged_for(sv, id) == sv[k].1,
    decreases k,
{
    if k > 0 {
        lemma_staged_for_index(sv.drop_first(), id, k - 1);
    }
}

/// `staged_for` of an absent key is empty.
proof fn lemma_staged_for_absent(sv: Seq<(Seq<char>, Seq<ProjectFile>)>, id: Seq<char>)
    requires
        forall|j: int| 0 <= j < sv.len() ==> (#[trigger] sv[j]).0 != id,
    ensures
        staged_for(sv, id) == Seq::<ProjectFile>::empty(),
    decreases sv.len(),
{
    if sv.len() > 0 {
        lemma_staged_for_absent(sv.drop_first(), id);
    }
}

/// Filtering a well-formed staging table keeps it well-formed.
proof fn lemma_filter_staging_ok(
    s: Seq<(Seq<char>, Seq<ProjectFile>)>,
    pred: spec_fn((Seq<char>, Seq<ProjectFile>)) -> bool,
)
    requires
        staging_ok(s),
    ensures
        staging_ok(s.filter(pred)),
{
    lemma_filter_pairwise(
        s,
        pred,
        |a: (Seq<char>, Seq<ProjectFile>), b: (Seq<char>, Seq<ProjectFile>)| a.0 != b.0,
    );
}

/// Checks whether some session owns `key` and holds the resolved project id.
fn evicted_owner_exists(sessions: &Vec<Session>, key: &str, resolved_id: &str) -> (r: bool)
    ensures
        r == exists|i: int|
            0 <= i < sessions@.len() && sid_of(#[trigger] sessions@[i]) == key@ && proj_matches(
                sessions@[i],
                resolved_id@,
            ),
{
    let n = sessions.len();
    let mut i: usize = 0;
    while i < n
        invariant
            i <= n,
            n == sessions@.len(),
            forall|k: int|
                0 <= k < i ==> !(sid_of(#[trigger] sessions@[k]) == key@ && proj_matches(
                    sessions@[k],
                    resolved_id@,
                )),
        decreases n - i,
    {
        let sid_matches = str_eq(sessions[i].identity.session_id.as_str(), key);
        let proj_match = match &sessions[i].identity.project_id {
            Some(p) => str_eq(p.as_str(), resolved_id),
            None => false,
        };
        if sid_matches && proj_match {
            return true;
        }
        i = i + 1;
    }
    false
}

/// `session_ignores` returns the registry of the first session whose id
/// matches.
proof fn lemma_session_ignores_index(sv: Seq<Session>, id: Seq<char>, k: int)
    requires
        0 <= k < sv.len(),
        sid_of(sv[k]) == id,
        forall|j: int| 0 <= j < k ==> sid_of(#[trigger] sv[j]) != id,
    ensures
        session_ignores(sv, id) == sv[k].ignore_paths.entry_set(),
    decreases k,
{
    if k > 0 {
        lemma_session_ignores_index(sv.drop_first(), id, k - 1);
    }
}

/// `session_ignores` of an absent id is empty.
proof fn lemma_session_ignores_absent(sv: Seq<Session>, id: Seq<char>)
    requires
        forall|j: int| 0 <= j < sv.len() ==> sid_of(#[trigger] sv[j]) != id,
    ensures
        session_ignores(sv, id) == Set::<IgnorePair>::empty(),
    decreases sv.len(),
{
    if sv.len() > 0 {
        lemma_session_ignores_absent(sv.drop_first(), id);
    }
}

/// Finds the table index of the path mapping with this key.
fn find_fm_index(fms: &Vec<FmEntry>, session_id: &str) -> (r: Option<usize>)
    ensures
        (r matches Some(i) ==> i < fms@.len() && fm_views(fms@)[i as int].0 == session_id@),
        (r is None ==> forall|k: int|
            0 <= k < fms@.len() ==> (#[trigger] fm_views(fms@)[k]).0 != session_id@),
{
    let n = fms.len();
    let mut i: usize = 0;
    while i < n
        invariant
            i <= n,
            n == fms@.len(),
            forall|k: int| 0 <= k < i ==> (#[trigger] fm_views(fms@)[k]).0 != session_id@,
        decreases n - i,
    {
        if str_eq(fms[i].session_id.as_str(), session_id) {
            proof {
                assert(fm_views(fms@)[i as int] == (fms@[i as int].session_id@, fms@[i as int].manager));
            }
            return Some(i);
        }
        i = i + 1;
    }
    None
}

/// Finds the table index of the session with this id.
fn find_session_index(sessions: &Vec<Session>, session_id: &str) -> (r: Option<usize>)
    ensures
        (r matches Some(i) ==> i < sessions@.len() && sid_of(sessions@[i as int]) == session_id@),
        (r is None ==> forall|k: int|
            0 <= k < sessions@.len() ==> sid_of(#[trigger] sessions@[k]) != session_id@),
{
    let n = sessions.len();
    let mut i: usize = 0;
    while i < n
        invariant
            i <= n,
            n == sessions@.len(),
            forall|k: int| 0 <= k < i ==> sid_of(#[trigger] sessions@[k]) != session_id@,
        decreases n - i,
    {
        if str_eq(sessions[i].identity.session_id.as_str(), session_id) {
            return Some(i);
        }
        i = i + 1;
    }
    None
}

fn string_of(s: &str) -> (r: String)
    ensures
        r@ == s@,
{
    <String as vstd::string::StringExecFns>::from_str(s)
}

/// Checks whether some session owns `key` and is stale at instant `now`.
fn stale_owner_exists(sessions: &Vec<Session>, key: &str, now: u64) -> (r: bool)
    ensures
        r == has_stale_owner(sessions@, key@, now),
{
    let n = sessions.len();
    let mut i: usize = 0;
    while i < n
        invariant
            i <= n,
            n == sessions@.len(),
            forall|k: int|
                0 <= k < i ==> !(sid_of(#[trigger] sessions@[k]) == key@ && is_stale(
                    sessions@[k],
                    now,
                )),
        decreases n - i,
    {
        let last = sessions[i].last_heartbeat;
        if str_eq(sessions[i].identity.session_id.as_str(), key) && now > last && now - last
            > STALE_TIMEOUT_MS {
            return true;
        }
        i = i + 1;
    }
    false
}

/// The key/manager views of a raw file-manager table.
spec fn fm_views(s: Seq<FmEntry>) -> Seq<(Seq<char>, NativeFileManager)> {
    s.map_values(|e: FmEntry| (e.session_id@, e.manager))
}

/// Replacing one session with another that keeps its identity and its
/// well-formedness keeps the table well-formed.
proof fn lemma_update_sessions_ok(s: Seq<Session>, i: int, ns: Session)
    requires
        sessions_ok(s),
        0 <= i < s.len(),
        ns.identity == s[i].identity,
        ns.wf(),
    ensures
        sessions_ok(s.update(i, ns)),
{
    let t = s.update(i, ns);
    assert forall|a: int, b: int|
        #![trigger t[a], t[b]]
        0 <= a < b < t.len() implies sid_of(t[a]) != sid_of(t[b]) && (match (
        t[a].identity.project_id,
        t[b].identity.project_id,
    ) {
        (Some(x), Some(y)) => x@ != y@,
        _ => true,
    }) by {
        assert(s[a] == s[a] && s[b] == s[b]);
        assert(t[a].identity == s[a].identity);
        assert(t[b].identity == s[b].identity);
    }
    assert forall|a: int| 0 <= a < t.len() implies (#[trigger] t[a]).wf() by {
        assert(s[a] == s[a]);
        if a != i {
            assert(t[a] == s[a]);
        }
    }
}

/// Filtering keeps a pairwise relation that held on the original sequence.
proof fn lemma_filter_pairwise<A>(s: Seq<A>, pred: spec_fn(A) -> bool, r: spec_fn(A, A) -> bool)
    requires
        forall|i: int, j: int| #![trigger s[i], s[j]] 0 <= i < j < s.len() ==> r(s[i], s[j]),
    ensures
        forall|i: int, j: int|
            #![trigger s.filter(pred)[i], s.filter(pred)[j]]
            0 <= i < j < s.filter(pred).len() ==> r(s.filter(pred)[i], s.filter(pred)[j]),
    decreases s.len(),
{
    reveal(Seq::filter);
    if s.len() > 0 {
        let d = s.drop_last();
        lemma_filter_pairwise(d, pred, r);
        let f = s.filter(pred);
        let fd = d.filter(pred);
        assert forall|i: int, j: int|
            #![trigger f[i], f[j]]
            0 <= i < j < f.len() implies r(f[i], f[j]) by {
            if pred(s.last()) && j == f.len() - 1 {
                assert(f[j] == s.last());
                assert(f[i] == fd[i]);
                assert(fd.contains(fd[i]));
                d.lemma_filter_contains_rev(pred, fd[i]);
                let k = choose|k: int| 0 <= k < d.len() && d[k] == fd[i];
                assert(s[k] == f[i]);
                assert(s[s.len() - 1] == f[j]);
                assert(r(s[k], s[s.len() - 1]));
            } else {
                assert(f[i] == fd[i] && f[j] == fd[j]);
                assert(r(fd[i], fd[j]));
            }
        }
    }
}

/// Filtering keeps a pointwise property that held on the original sequence.
proof fn lemma_filter_pointwise<A>(s: Seq<A>, pred: spec_fn(A) -> bool, p: spec_fn(A) -> bool)
    requires
        forall|i: int| 0 <= i < s.len() ==> p(#[trigger] s[i]),
    ensures
        forall|i: int| 0 <= i < s.filter(pred).len() ==> p(#[trigger] s.filter(pred)[i]),
{
    let f = s.filter(pred);
    assert forall|i: int| 0 <= i < f.len() implies p(#[trigger] f[i]) by {
        assert(f.contains(f[i]));
        s.lemma_filter_contains_rev(pred, f[i]);
        let k = choose|k: int| 0 <= k < s.len() && s[k] == f[i];
        assert(p(s[k]));
    }
}

/// Filtering a well-formed session table keeps it well-formed.
proof fn lemma_filter_sessions_ok(s: Seq<Session>, pred: spec_fn(Session) -> bool)
    requires
        sessions_ok(s),
    ensures
        sessions_ok(s.filter(pred)),
{
    lemma_filter_pairwise(s, pred, |a: Session, b: Session| sid_of(a) != sid_of(b));
    lemma_filter_pairwise(
        s,
        pred,
        |a: Session, b: Session|
            match (a.identity.project_id, b.identity.project_id) {
                (Some(x), Some(y)) => x@ != y@,
                _ => true,
            },
    );
    lemma_filter_pointwise(s, pred, |a: Session| a.wf());
}

/// Filtering a well-formed file-manager table keeps it well-formed.
proof fn lemma_filter_fms_ok(
    s: Seq<(Seq<char>, NativeFileManager)>,
    pred: spec_fn((Seq<char>, NativeFileManager)) -> bool,
)
    requires
        fms_ok(s),
    ensures
        fms_ok(s.filter(pred)),
{
    lemma_filter_pairwise(
        s,
        pred,
        |a: (Seq<char>, NativeFileManager), b: (Seq<char>, NativeFileManager)| a.0 != b.0,
    );
    lemma_filter_pointwise(s, pred, |a: (Seq<char>, NativeFileManager)| a.1.wf());
}

} // verus!
