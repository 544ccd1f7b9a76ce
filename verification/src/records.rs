//! The plain data records exchanged between the engine, the transport layer
//! and the filesystem watcher.

use vstd::prelude::*;

verus! {

/// Identity of one connected editor session. `session_id` is ephemeral, one
/// per connection; `project_id` is the durable identifier persisted inside the
/// bound directory and reused across reconnects.
#[derive(Debug, Clone)]
pub struct SessionIdentity {
    pub place_id: i64,
    pub place_name: String,
    pub session_id: String,
    pub project_id: Option<String>,
}

/// One change flowing in either direction: an editor edit pushed to disk, or a
/// watched filesystem modification queued for the editor.
#[derive(Debug, Clone)]
pub struct FileChange {
    /// `"write"` or `"delete"`.
    pub change_type: String,
    /// Hierarchical node name (inbound, `.`-separated) or canonical relative
    /// file path (outbound, `/`-separated).
    pub path: String,
    pub content: Option<String>,
    pub is_script: bool,
    pub guid: Option<String>,
    pub class_name: Option<String>,
}

/// One file of a project snapshot uploaded at registration.
#[derive(Debug, Clone)]
pub struct ProjectFile {
    pub path: String,
    pub content: String,
}

/// One filesystem write the surrounding application must perform: the
/// resolved relative path under the session's bound directory, and the
/// content to write there.
#[derive(Debug, Clone)]
pub struct WriteCmd {
    pub relative_path: String,
    pub content: String,
}

/// Copies an optional string, preserving its value exactly.
pub fn dup_opt_string(o: &Option<String>) -> (r: Option<String>)
    ensures
        r == *o,
{
    match o {
        Option::None => Option::None,
        Option::Some(s) => Option::Some(s.clone()),
    }
}

impl SessionIdentity {
    /// Copies the identity, preserving its value exactly.
    pub fn duplicate(&self) -> (r: Self)
        ensures
            r == *self,
    {
        SessionIdentity {
            place_id: self.place_id,
            place_name: self.place_name.clone(),
            session_id: self.session_id.clone(),
            project_id: dup_opt_string(&self.project_id),
        }
    }
}

impl FileChange {
    /// Copies the change record, preserving its value exactly.
    pub fn duplicate(&self) -> (r: Self)
        ensures
            r == *self,
    {
        FileChange {
            change_type: self.change_type.clone(),
            path: self.path.clone(),
            content: dup_opt_string(&self.content),
            is_script: self.is_script,
            guid: dup_opt_string(&self.guid),
            class_name: dup_opt_string(&self.class_name),
        }
    }
}

impl ProjectFile {
    /// Copies the file record, preserving its value exactly.
    pub fn duplicate(&self) -> (r: Self)
        ensures
            r == *self,
    {
        ProjectFile { path: self.path.clone(), content: self.content.clone() }
    }
}

/// Copies a snapshot of project files, preserving its value exactly.
pub fn dup_project_files(v: &Vec<ProjectFile>) -> (r: Vec<ProjectFile>)
    ensures
        r@ == v@,
{
    let mut r: Vec<ProjectFile> = Vec::new();
    let mut i: usize = 0;
    while i < v.len()
        invariant
            i <= v@.len(),
            r@ == v@.subrange(0, i as int),
        decreases v@.len() - i,
    {
        r.push(v[i].duplicate());
        proof {
            assert(v@.subrange(0, i as int).push(v@[i as int]) =~= v@.subrange(0, i as int + 1));
        }
        i = i + 1;
    }
    proof {
        assert(v@.subrange(0, v@.len() as int) =~= v@);
    }
    r
}

} // verus!
