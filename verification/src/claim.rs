//! Stable project-folder claiming.
//!
//! At registration the engine resolves a durable project id (caller-supplied
//! or freshly generated) and claims a directory for it: starting from the
//! sanitized display name, candidate names `name`, `name_1`, `name_2`, … are
//! probed up to a bounded attempt count. A missing directory is created and
//! claimed; an existing directory without a marker is adopted; one whose
//! marker matches the resolved id is reconnected to; one owned by another
//! project is skipped. The filesystem probing and the marker writes are the
//! surrounding application's work; the decisions are made here.

use vstd::prelude::*;
use vstd::string::{StrSliceExecFns, StringExecFns};
use crate::errors::SyncError;
use crate::paths::keep_char;
use crate::strutil::{char_is_alphanumeric, dec_str, push_char, spec_trimmed, str_eq, trim_light,
    u64_to_dec};

verus! {

broadcast use vstd::seq_lib::group_seq_lib_default;

/// The attempt bound of the claim loop.
pub const MAX_CLAIM_ATTEMPTS: usize = 100;

/// What a probe of one candidate directory found.
#[derive(Debug, Clone)]
pub enum DirProbe {
    /// The candidate does not exist.
    Missing,
    /// The candidate exists but holds no marker file.
    NoMarker,
    /// The candidate exists and its marker file holds this text.
    Marker(String),
    /// The candidate exists but its marker could not be read; it is treated
    /// as claimed by another project and skipped.
    Unreadable,
}

/// How a candidate directory is claimed.
#[derive(Debug, Clone, Copy, PartialEq, Eq, Structural)]
pub enum ClaimAction {
    /// Create the directory and write the marker.
    Create,
    /// Adopt the orphaned directory by writing the marker.
    Adopt,
    /// Reconnect to the directory already marked with this project id.
    Reconnect,
}

/// The claim decision for one probed candidate: claimable with an action, or
/// owned by another project (`None`).
pub open spec fn spec_claim_action(p: DirProbe, id: Seq<char>) -> Option<ClaimAction> {
    match p {
        DirProbe::Missing => Some(ClaimAction::Create),
        DirProbe::NoMarker => Some(ClaimAction::Adopt),
        DirProbe::Marker(m) => if spec_trimmed(m@) == id {
            Some(ClaimAction::Reconnect)
        } else {
            None
        },
        DirProbe::Unreadable => None,
    }
}

/// Decides how (and whether) one probed candidate directory can be claimed
/// for the resolved project id.
pub fn claim_action_for(probe: &DirProbe, resolved_id: &str) -> (r: Option<ClaimAction>)
    ensures
        r == spec_claim_action(*probe, resolved_id@),
{
    match probe {
        DirProbe::Missing => Some(ClaimAction::Create),
        DirProbe::NoMarker => Some(ClaimAction::Adopt),
        DirProbe::Marker(m) => {
            let t = trim_light(m.as_str());
            if str_eq(t.as_str(), resolved_id) {
                Some(ClaimAction::Reconnect)
            } else {
                None
            }
        },
        DirProbe::Unreadable => None,
    }
}

/// The claim loop over a snapshot of candidate-directory probes: returns the
/// first claimable candidate (its index and action) within the attempt
/// bound, or `ClaimExhausted` when none is claimable. A session whose claim
/// is exhausted proceeds unbound.
pub fn claim_folder(probes: &Vec<DirProbe>, resolved_id: &str) -> (r: Result<
    (usize, ClaimAction),
    SyncError,
>)
    ensures
        ({
            let scanned = if probes@.len() < MAX_CLAIM_ATTEMPTS {
                probes@.len() as int
            } else {
                MAX_CLAIM_ATTEMPTS as int
            };
            &&& (r matches Ok((i, a)) ==> i < scanned && spec_claim_action(
                probes@[i as int],
                resolved_id@,
            ) == Some(a) && forall|j: int|
                0 <= j < i ==> spec_claim_action(#[trigger] probes@[j], resolved_id@) is None)
            &&& (r matches Err(e) ==> e == SyncError::ClaimExhausted && forall|j: int|
                0 <= j < scanned ==> spec_claim_action(#[trigger] probes@[j], resolved_id@) is None)
        }),
{
    let n = probes.len();
    let bound = if n < MAX_CLAIM_ATTEMPTS {
        n
    } else {
        MAX_CLAIM_ATTEMPTS
    };
    let mut i: usize = 0;
    while i < bound
        invariant
            i <= bound,
            bound == if probes@.len() < MAX_CLAIM_ATTEMPTS {
                probes@.len() as int
            } else {
                MAX_CLAIM_ATTEMPTS as int
            },
            bound <= probes@.len(),
            forall|j: int|
                0 <= j < i ==> spec_claim_action(#[trigger] probes@[j], resolved_id@) is None,
        decreases bound - i,
    {
        match claim_action_for(&probes[i], resolved_id) {
            Some(a) => {
                return Ok((i, a));
            },
            None => {},
        }
        i = i + 1;
    }
    Err(SyncError::ClaimExhausted)
}

/// Relies on `uuid::Uuid::new_v4` and its `Display` rendering: a freshly
/// generated random version-4 UUID, rendered in the hyphenated form, which
/// is exactly 36 ASCII characters. The value itself is random, so nothing
/// more is promised of it.
#[verifier::external_body]
fn fresh_project_id() -> (r: String)
    ensures
        r@.len() == 36,
{
    uuid::Uuid::new_v4().to_string()
}

/// Resolves the durable project id: the caller-supplied one when present,
/// otherwise a freshly generated 36-character identifier.
pub fn resolve_project_id(provided: &Option<String>) -> (r: String)
    ensures
        provided matches Some(p) ==> r@ == p@,
        provided is None ==> r@.len() == 36,
{
    match provided {
        Some(p) => p.clone(),
        None => fresh_project_id(),
    }
}

/// The display name reduced to safe filename characters and trimmed.
pub open spec fn spec_safe_name(s: Seq<char>) -> Seq<char> {
    spec_trimmed(s.filter(|c: char| keep_char(c)))
}

/// Sanitizes a display name into a safe directory-name stem.
pub fn sanitize_display_name(name: &str) -> (r: String)
    ensures
        r@ == spec_safe_name(name@),
{
    let ghost pred = |c: char| keep_char(c);
    let len = name.unicode_len();
    let mut f = String::new();
    let mut i: usize = 0;
    while i < len
        invariant
            i <= len,
            len == name@.len(),
            pred == (|c: char| keep_char(c)),
            f@ == name@.take(i as int).filter(pred),
        decreases len - i,
    {
        let c = name.get_char(i);
        proof {
            assert(name@.take(i as int + 1).drop_last() =~= name@.take(i as int));
            assert(name@.take(i as int + 1) =~= name@.take(i as int).push(name@[i as int]));
            name@.take(i as int).lemma_filter_push(name@[i as int], pred);
        }
        if char_is_alphanumeric(c) || c == ' ' || c == '-' || c == '_' {
            push_char(&mut f, c);
        }
        i = i + 1;
    }
    proof {
        assert(name@.take(len as int) =~= name@);
    }
    trim_light(f.as_str())
}

/// The candidate directory name for one claim attempt: the safe name itself,
/// then `name_1`, `name_2`, …
pub open spec fn spec_candidate_name(safe: Seq<char>, attempt: nat) -> Seq<char> {
    if attempt == 0 {
        safe
    } else {
        safe + seq!['_'] + dec_str(attempt)
    }
}

/// Builds the candidate directory name for a claim attempt.
pub fn candidate_folder_name(safe_name: &str, attempt: u64) -> (r: String)
    ensures
        r@ == spec_candidate_name(safe_name@, attempt as nat),
{
    let mut s = String::from_str(safe_name);
    if attempt == 0 {
        return s;
    }
    push_char(&mut s, '_');
    let d = u64_to_dec(attempt);
    s.append(d.as_str());
    proof {
        assert(s@ =~= spec_candidate_name(safe_name@, attempt as nat));
    }
    s
}

} // verus!
