//! Derivation of canonical relative filesystem paths from hierarchical node
//! names, and classification of watched files by filename convention.
//!
//! A hierarchical name like `Workspace.Part` is split on `.` into segments;
//! each segment is sanitized to an alphanumeric/space/hyphen/underscore
//! subset; the segments are joined with `/`; and for script nodes an
//! extension chosen by the content-type hint is appended.

use vstd::prelude::*;
use vstd::string::{StrSliceExecFns, StringExecFns};
use crate::strutil::{
    char_is_alphanumeric, ends_with, is_alphanum, push_char, starts_with, str_ends_with, str_eq,
    str_starts_with,
};

verus! {

/// Characters that survive segment sanitization.
pub open spec fn keep_char(c: char) -> bool {
    is_alphanum(c) || c == ' ' || c == '-' || c == '_'
}

/// The body of the relative path for a hierarchical name: `.` becomes the
/// segment separator `/`, characters that fail `keep_char` are dropped.
/// Equivalent to splitting the name on `.`, sanitizing each segment, and
/// joining the segments with `/`.
pub open spec fn sanitized_body(s: Seq<char>) -> Seq<char>
    decreases s.len(),
{
    if s.len() == 0 {
        Seq::empty()
    } else {
        let rest = sanitized_body(s.drop_last());
        let c = s.last();
        if c == '.' {
            rest.push('/')
        } else if keep_char(c) {
            rest.push(c)
        } else {
            rest
        }
    }
}

/// The filename extension chosen by a content-type hint: a server-side script
/// hint, a client-side script hint, and a generic fallback.
pub open spec fn ext_for(class: Option<Seq<char>>) -> Seq<char> {
    if class == Some("Script"@) {
        "server.lua"@
    } else if class == Some("LocalScript"@) {
        "client.lua"@
    } else {
        "lua"@
    }
}

/// View of an optional string slice.
pub open spec fn opt_str_view(s: Option<&str>) -> Option<Seq<char>> {
    match s {
        Some(t) => Some(t@),
        None => None,
    }
}

/// View of an optional owned string.
pub open spec fn opt_string_view(s: Option<String>) -> Option<Seq<char>> {
    match s {
        Some(t) => Some(t@),
        None => None,
    }
}

/// The canonical relative path for a node: sanitized body, plus an extension
/// when the node is a script. This is a function of the name, the script flag
/// and the hint alone, which is the determinism guarantee of path resolution.
pub open spec fn resolved_rel_path(name: Seq<char>, is_script: bool, class: Option<Seq<char>>) -> Seq<
    char,
> {
    if is_script {
        sanitized_body(name).push('.') + ext_for(class)
    } else {
        sanitized_body(name)
    }
}

/// Builds the sanitized body of a hierarchical name.
fn build_sanitized_body(name: &str) -> (r: String)
    ensures
        r@ == sanitized_body(name@),
{
    let len = name.unicode_len();
    let mut r = String::new();
    let mut i: usize = 0;
    while i < len
        invariant
            i <= len,
            len == name@.len(),
            r@ == sanitized_body(name@.subrange(0, i as int)),
        decreases len - i,
    {
        let c = name.get_char(i);
        proof {
            assert(name@.subrange(0, i as int + 1).drop_last() =~= name@.subrange(0, i as int));
            assert(name@.subrange(0, i as int + 1).last() == name@[i as int]);
        }
        if c == '.' {
            push_char(&mut r, '/');
        } else if char_is_alphanumeric(c) || c == ' ' || c == '-' || c == '_' {
            push_char(&mut r, c);
        }
        i = i + 1;
    }
    proof {
        assert(name@.subrange(0, len as int) =~= name@);
    }
    r
}

/// Resolves the canonical relative path for a node.
pub fn resolve_rel_path(instance_path: &str, is_script: bool, class_name: Option<&str>) -> (r:
    String)
    ensures
        r@ == resolved_rel_path(instance_path@, is_script, opt_str_view(class_name)),
{
    let mut r = build_sanitized_body(instance_path);
    if is_script {
        push_char(&mut r, '.');
        match class_name {
            Some(c) => {
                if str_eq(c, "Script") {
                    r.append("server.lua");
                } else if str_eq(c, "LocalScript") {
                    r.append("client.lua");
                } else {
                    r.append("lua");
                }
            },
            None => {
                r.append("lua");
            },
        }
    }
    r
}

/// A `..` path segment stands at index `i` of `p`.
pub open spec fn dotdot_seg_at(p: Seq<char>, i: int) -> bool {
    0 <= i && i + 1 < p.len() && p[i] == '.' && p[i + 1] == '.' && (i == 0 || p[i - 1] == '/') && (
    i + 2 == p.len() || p[i + 2] == '/')
}

/// A relative path is safe to join under a bound directory: it is not
/// absolute, holds no backslash, and holds no `..` segment.
pub open spec fn safe_rel_path(p: Seq<char>) -> bool {
    &&& (p.len() > 0 ==> p[0] != '/')
    &&& (forall|i: int| 0 <= i < p.len() ==> p[i] != '\\')
    &&& (forall|i: int| !#[trigger] dotdot_seg_at(p, i))
}

/// Checks that a relative path cannot escape the bound directory.
pub fn is_safe_relative(p: &str) -> (r: bool)
    ensures
        r == safe_rel_path(p@),
{
    let len = p.unicode_len();
    if len > 0 && p.get_char(0) == '/' {
        return false;
    }
    let mut i: usize = 0;
    while i < len
        invariant
            i <= len,
            len == p@.len(),
            len > 0 ==> p@[0] != '/',
            forall|j: int| 0 <= j < i ==> p@[j] != '\\',
            forall|j: int| j < i ==> !#[trigger] dotdot_seg_at(p@, j),
        decreases len - i,
    {
        let c = p.get_char(i);
        if c == '\\' {
            return false;
        }
        if c == '.' && i + 1 < len && p.get_char(i + 1) == '.' {
            let at_seg_start = i == 0 || p.get_char(i - 1) == '/';
            let at_seg_end = i + 2 == len || p.get_char(i + 2) == '/';
            if at_seg_start && at_seg_end {
                proof {
                    assert(dotdot_seg_at(p@, i as int));
                }
                return false;
            }
        }
        i = i + 1;
    }
    true
}

/// Whether a watched file's path carries a recognized content extension.
pub open spec fn recognized_ext(p: Seq<char>) -> bool {
    ends_with(p, ".lua"@) || ends_with(p, ".json"@)
}

/// Checks for a recognized content extension.
pub fn has_recognized_ext(p: &str) -> (r: bool)
    ensures
        r == recognized_ext(p@),
{
    str_ends_with(p, ".lua") || str_ends_with(p, ".json")
}

/// The content-type class inferred from a watched file's name convention.
pub open spec fn inferred_class(p: Seq<char>) -> Seq<char> {
    if ends_with(p, ".server.lua"@) {
        "Script"@
    } else if ends_with(p, ".client.lua"@) {
        "LocalScript"@
    } else {
        "ModuleScript"@
    }
}

/// Infers the content-type class of a watched file from its name.
pub fn infer_class(p: &str) -> (r: String)
    ensures
        r@ == inferred_class(p@),
{
    if str_ends_with(p, ".server.lua") {
        String::from_str("Script")
    } else if str_ends_with(p, ".client.lua") {
        String::from_str("LocalScript")
    } else {
        String::from_str("ModuleScript")
    }
}

/// The watched absolute path made canonical and relative: the bound-directory
/// prefix is stripped (with one following separator), and backslashes are
/// normalized to `/`. A path outside the bound directory is kept whole.
pub open spec fn canonical_rel(abs: Seq<char>, base: Seq<char>) -> Seq<char> {
    normalized_slashes(strip_base(abs, base))
}

/// Strips the bound-directory prefix and one following separator.
pub open spec fn strip_base(abs: Seq<char>, base: Seq<char>) -> Seq<char> {
    if starts_with(abs, base) {
        let t = abs.skip(base.len() as int);
        if t.len() > 0 && (t[0] == '/' || t[0] == '\\') {
            t.drop_first()
        } else {
            t
        }
    } else {
        abs
    }
}

/// Backslashes become `/`.
pub open spec fn normalized_slashes(p: Seq<char>) -> Seq<char> {
    p.map_values(|c: char| if c == '\\' { '/' } else { c })
}

/// Copies `p` from index `from` on, normalizing backslashes to `/`.
fn push_normalized(r: &mut String, p: &str, from: usize)
    requires
        from <= p@.len(),
    ensures
        final(r)@ == old(r)@ + normalized_slashes(p@.skip(from as int)),
{
    let len = p.unicode_len();
    let mut i: usize = from;
    while i < len
        invariant
            from <= i <= len,
            len == p@.len(),
            r@ == old(r)@ + normalized_slashes(p@.subrange(from as int, i as int)),
        decreases len - i,
    {
        let c = p.get_char(i);
        let n = if c == '\\' {
            '/'
        } else {
            c
        };
        push_char(r, n);
        proof {
            assert(normalized_slashes(p@.subrange(from as int, i as int)).push(n)
                =~= normalized_slashes(p@.subrange(from as int, i as int + 1)));
        }
        i = i + 1;
    }
    proof {
        assert(p@.subrange(from as int, len as int) =~= p@.skip(from as int));
    }
}

/// Converts a watched absolute path to canonical relative form.
pub fn canonical_relative(abs: &str, base: &str) -> (r: String)
    ensures
        r@ == canonical_rel(abs@, base@),
{
    let mut r = String::new();
    if str_starts_with(abs, base) {
        let blen = base.unicode_len();
        let alen = abs.unicode_len();
        let start = if blen < alen {
            let c = abs.get_char(blen);
            if c == '/' || c == '\\' {
                blen + 1
            } else {
                blen
            }
        } else {
            blen
        };
        proof {
            let t = abs@.skip(base@.len() as int);
            if t.len() > 0 && (t[0] == '/' || t[0] == '\\') {
                assert(t.drop_first() =~= abs@.skip(base@.len() as int + 1));
            }
        }
        push_normalized(&mut r, abs, start);
    } else {
        push_normalized(&mut r, abs, 0);
    }
    proof {
        assert(Seq::<char>::empty() + normalized_slashes(strip_base(abs@, base@))
            =~= normalized_slashes(strip_base(abs@, base@)));
    }
    r
}

} // verus!
