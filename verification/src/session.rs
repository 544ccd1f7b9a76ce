//! The unit of state for one connected editor instance: identity, bound
//! directory, outbound change queue, anti-loop registry, and heartbeat.
//!
//! The outbound queue is FIFO with per-path coalescing: at most the most
//! recent record per path is ever held, so a polling client never observes a
//! stale-then-fresh ordering for one path.

use vstd::prelude::*;
use vstd::string::StringExecFns;
use crate::paths::{canonical_rel, canonical_relative, has_recognized_ext, infer_class,
    inferred_class, recognized_ext};
use crate::records::{FileChange, ProjectFile, SessionIdentity};
use crate::registry::{spec_ignore_remove, IgnorePair, IgnoreRegistry};

verus! {

broadcast use vstd::seq_lib::group_seq_lib_default;

/// `q` after coalescing in `c`: every queued record for the same path is
/// dropped, and `c` is appended.
pub open spec fn coalesced(q: Seq<FileChange>, c: FileChange) -> Seq<FileChange> {
    q.filter(|x: FileChange| x.path@ != c.path@).push(c)
}

/// Appends `change` to the queue, first removing any queued record for the
/// same path.
pub fn push_coalesced(queue: &mut Vec<FileChange>, change: FileChange)
    ensures
        final(queue)@ == coalesced(old(queue)@, change),
{
    let ghost orig = queue@;
    let ghost pred = |x: FileChange| x.path@ != change.path@;
    let n = queue.len();
    let mut kept: Vec<FileChange> = Vec::new();
    let mut i: usize = 0;
    while i < n
        invariant
            i <= n,
            queue@ == orig,
            n == orig.len(),
            pred == (|x: FileChange| x.path@ != change.path@),
            kept@ == orig.take(i as int).filter(pred),
        decreases n - i,
    {
        let e = &queue[i];
        proof {
            assert(orig.take(i as int + 1).drop_last() =~= orig.take(i as int));
            assert(orig.take(i as int + 1) =~= orig.take(i as int).push(orig[i as int]));
            orig.take(i as int).lemma_filter_push(orig[i as int], pred);
        }
        if !crate::strutil::str_eq(e.path.as_str(), change.path.as_str()) {
            kept.push(e.duplicate());
        }
        i = i + 1;
    }
    proof {
        assert(orig.take(n as int) =~= orig);
    }
    kept.push(change);
    *queue = kept;
}

/// Law (queue coalescing): two successive watcher-observed changes to the
/// same path `p`, coalesced into the queue before any poll, leave exactly
/// one queued record for `p`, holding the later change.
pub proof fn lemma_queue_coalescing(q0: Seq<FileChange>, c1: FileChange, c2: FileChange, p: Seq<
    char,
>)
    requires
        c1.path@ == p,
        c2.path@ == p,
    ensures
        ({
            let q2 = coalesced(coalesced(q0, c1), c2);
            q2.filter(|x: FileChange| x.path@ == p) == seq![c2]
        }),
{
    broadcast use vstd::seq_lib::group_seq_lib_default;

    let q1 = coalesced(q0, c1);
    let neq2 = |x: FileChange| x.path@ != c2.path@;
    let eqp = |x: FileChange| x.path@ == p;
    let mid = q1.filter(neq2);
    let q2 = mid.push(c2);
    assert forall|i: int| 0 <= i < mid.len() implies !eqp(mid[i]) by {
        q1.lemma_filter_pred(neq2, i);
        assert(neq2(mid[i]));
    }
    mid.lemma_all_neg_filter_empty(eqp);
    mid.lemma_filter_push(c2, eqp);
    assert(q2.filter(eqp) =~= seq![c2]);
}

/// Law (anti-loop): while the registry holds a suppression entry for the
/// canonical relative path of a watched file, with expiry `e`, an event on
/// that file observed before `e` leaves the session untouched and queues no
/// outbound record; an event observed at or after `e` queues one.
pub proof fn lemma_anti_loop(
    pre: Session,
    post1: Session,
    post2: Session,
    abs: Seq<char>,
    content1: String,
    content2: String,
    e: u64,
    t1: u64,
    t2: u64,
    q1: bool,
    q2: bool,
)
    requires
        pre.wf(),
        pre.ignore_paths.entry_set().contains((canonical_rel(abs, pre.bound_view()), e)),
        recognized_ext(canonical_rel(abs, pre.bound_view())),
        t1 < e,
        t2 >= e,
        observe_post(pre, post1, abs, content1, t1, q1),
        observe_post(pre, post2, abs, content2, t2, q2),
    ensures
        !q1 && post1 == pre,
        q2,
{
    let rel = canonical_rel(abs, pre.bound_view());
    crate::registry::lemma_ignore_window(pre.ignore_paths, rel, e, t1);
    crate::registry::lemma_ignore_window(pre.ignore_paths, rel, e, t2);
}

/// How a session changes when one watched filesystem modification is
/// processed: an unrecognized extension or an unexpired anti-loop entry
/// leaves the session untouched and queues nothing; otherwise the entry for
/// the path (if any) is evicted and a `"write"` record is coalesced into the
/// outbound queue.
pub open spec fn observe_post(
    pre: Session,
    post: Session,
    abs_path: Seq<char>,
    content: String,
    now: u64,
    queued: bool,
) -> bool {
    let rel = canonical_rel(abs_path, pre.bound_view());
    &&& (!recognized_ext(rel) ==> post == pre && !queued)
    &&& (recognized_ext(rel) && pre.ignore_paths.suppressed(rel, now) ==> post == pre && !queued)
    &&& (recognized_ext(rel) && !pre.ignore_paths.suppressed(rel, now) ==> {
        let q2 = post.outbound_queue@;
        &&& queued
        &&& post.identity == pre.identity
        &&& post.bound_folder == pre.bound_folder
        &&& post.last_heartbeat == pre.last_heartbeat
        &&& post.files == pre.files
        &&& post.ignore_paths.entry_set() == spec_ignore_remove(pre.ignore_paths.entry_set(), rel)
        &&& q2.len() > 0
        &&& q2 == coalesced(pre.outbound_queue@, q2.last())
        &&& q2.last().path@ == rel
        &&& q2.last().change_type@ == "write"@
        &&& q2.last().content == Some(content)
        &&& q2.last().is_script
        &&& q2.last().guid is None
        &&& (q2.last().class_name matches Some(cn) && cn@ == inferred_class(rel))
    })
}

/// One connected editor instance.
pub struct Session {
    pub identity: SessionIdentity,
    /// The bound directory mirrored to and from the editor tree, if any.
    pub bound_folder: Option<String>,
    /// Changes observed on disk, awaiting the editor's poll.
    pub outbound_queue: Vec<FileChange>,
    /// The anti-feedback-loop registry for this session's directory.
    pub ignore_paths: IgnoreRegistry,
    /// Engine time (milliseconds) of the last heartbeat.
    pub last_heartbeat: u64,
    /// The initial snapshot uploaded at registration.
    pub files: Vec<ProjectFile>,
}

impl Session {
    /// Structural invariant of a session.
    pub open spec fn wf(self) -> bool {
        self.ignore_paths.wf()
    }

    /// The bound directory, as characters.
    pub open spec fn bound_view(self) -> Seq<char>
        recommends
            self.bound_folder is Some,
    {
        match self.bound_folder {
            Some(b) => b@,
            None => Seq::empty(),
        }
    }

    /// Creates a fresh, unbound session with the given snapshot, seen `now`.
    pub fn new(identity: SessionIdentity, files: Vec<ProjectFile>, now: u64) -> (r: Self)
        ensures
            r.identity == identity,
            r.bound_folder is None,
            r.outbound_queue@ == Seq::<FileChange>::empty(),
            r.ignore_paths.entry_set() == Set::<IgnorePair>::empty(),
            r.last_heartbeat == now,
            r.files == files,
            r.wf(),
    {
        Session {
            identity,
            bound_folder: None,
            outbound_queue: Vec::new(),
            ignore_paths: IgnoreRegistry::new(),
            last_heartbeat: now,
            files,
        }
    }

    /// Processes one watched filesystem modification under this session's
    /// bound directory.
    ///
    /// The absolute path is made canonical and relative; files without a
    /// recognized extension are ignored; an unexpired anti-loop entry
    /// suppresses the event (and an expired one is evicted); otherwise a
    /// `"write"` record with a class inferred from the filename convention
    /// is coalesced into the outbound queue.
    pub fn observe_fs_event(&mut self, abs_path: &str, content: String, now: u64) -> (queued: bool)
        requires
            old(self).wf(),
            old(self).bound_folder is Some,
        ensures
            final(self).wf(),
            observe_post(*old(self), *final(self), abs_path@, content, now, queued),
    {
        let bound = match &self.bound_folder {
            Some(b) => b.clone(),
            None => {
                proof {
                    assert(false);
                }
                String::new()
            },
        };
        let rel = canonical_relative(abs_path, bound.as_str());
        if !has_recognized_ext(rel.as_str()) {
            return false;
        }
        if self.ignore_paths.check_event(rel.as_str(), now) {
            return false;
        }
        let class = infer_class(rel.as_str());
        let record = FileChange {
            change_type: String::from_str("write"),
            path: rel,
            content: Some(content),
            is_script: true,
            guid: None,
            class_name: Some(class),
        };
        push_coalesced(&mut self.outbound_queue, record);
        true
    }
}

} // verus!
