//! Focused-application information for compositors where no general
//! protocol exists: a provider capability plus the pure parsing of what
//! the per-compositor query tools print.
//!
//! The providers that shell out to query tools live with the binary; this
//! module holds the provider types, the empty fallback, and the verified
//! parsing of the `niri` focused-window listing.

use crate::strutil::{
    spec_trim_matching, spec_trim_spaces, strip_prefix_str, trim_matching, trim_spaces,
};
use vstd::prelude::*;

verus! {

/// Identifying attributes of the focused application, each `None` when the
/// system could not supply it.
pub struct AppInfo {
    pub title: Option<String>,
    pub class: Option<String>,
    pub exec_path: Option<String>,
}

/// Supplies the focused application's attributes on demand.
pub trait AppInfoProvider: Sized {
    fn get_info(&self) -> AppInfo;
}

/// The attributes of an unknown application: nothing is known.
pub fn empty_app_info() -> (r: AppInfo)
    ensures
        r.title is None,
        r.class is None,
        r.exec_path is None,
{
    AppInfo { title: None, exec_path: None, class: None }
}

/// Fallback provider for unsupported desktop environments.
pub struct WaylandEmptyAppInfoProvider {}

impl WaylandEmptyAppInfoProvider {
    pub fn new() -> Self {
        WaylandEmptyAppInfoProvider {  }
    }
}

impl AppInfoProvider for WaylandEmptyAppInfoProvider {
    fn get_info(&self) -> (r: AppInfo)
        ensures
            r.title is None,
            r.class is None,
            r.exec_path is None,
    {
        empty_app_info()
    }
}

/// Provider for KDE, where a window-query tool answers one attribute per
/// invocation; the invocations themselves belong to the binary.
pub struct WaylandKDEAppInfoProvider {}

impl WaylandKDEAppInfoProvider {
    pub fn new() -> Self {
        WaylandKDEAppInfoProvider {  }
    }
}

/// Provider for the niri compositor, which prints the focused window as a
/// text listing; the invocation belongs to the binary, the parsing is
/// `parse_niri_focused_window`.
pub struct WaylandNiriAppInfoProvider {}

impl WaylandNiriAppInfoProvider {
    pub fn new() -> Self {
        WaylandNiriAppInfoProvider {  }
    }
}

/// Query-tool output ends with a newline; strip one trailing byte, as the
/// attribute readers expect.
pub fn chop_trailing_byte(bytes: &mut Vec<u8>)
    ensures
        old(bytes)@.len() == 0 ==> final(bytes)@ == old(bytes)@,
        old(bytes)@.len() > 0 ==> final(bytes)@ == old(bytes)@.drop_last(),
{
    if bytes.len() > 0 {
        let _last = bytes.pop();
    }
}

/// Does `s` start with `p`?
pub open spec fn has_prefix(s: Seq<char>, p: Seq<char>) -> bool {
    p.len() <= s.len() && s.subrange(0, p.len() as int) == p
}

/// The value carried after a prefix in one listing line: the rest of the
/// line, whitespace-trimmed and with surrounding quotes removed.
pub open spec fn field_value(trimmed: Seq<char>, prefix: Seq<char>) -> Seq<char> {
    spec_trim_matching(
        spec_trim_spaces(trimmed.subrange(prefix.len() as int, trimmed.len() as int)),
        '"',
    )
}

/// The fields found in the focused-window listing: title, application id
/// and process id, each from the last line carrying its prefix.
pub struct NiriWindowFields {
    pub title: Option<String>,
    pub app_id: Option<String>,
    pub pid: Option<String>,
}

/// The title, application id and process id read from the listing lines:
/// a line is trimmed and dispatched on its prefix, later lines winning.
pub open spec fn niri_fields(lines: Seq<Seq<char>>) -> (
    Option<Seq<char>>,
    Option<Seq<char>>,
    Option<Seq<char>>,
)
    decreases lines.len(),
{
    if lines.len() == 0 {
        (None, None, None)
    } else {
        let prev = niri_fields(lines.drop_last());
        let t = spec_trim_spaces(lines.last());
        if has_prefix(t, "Title:"@) {
            (Some(field_value(t, "Title:"@)), prev.1, prev.2)
        } else if has_prefix(t, "App ID:"@) {
            (prev.0, Some(field_value(t, "App ID:"@)), prev.2)
        } else if has_prefix(t, "PID:"@) {
            (
                prev.0,
                prev.1,
                Some(spec_trim_spaces(t.subrange("PID:"@.len() as int, t.len() as int))),
            )
        } else {
            prev
        }
    }
}

/// Whether an optional string's view matches an optional sequence.
pub open spec fn opt_view_is(v: Option<String>, s: Option<Seq<char>>) -> bool {
    match (v, s) {
        (Some(a), Some(b)) => a@ == b,
        (None, None) => true,
        _ => false,
    }
}

/// Parse the focused-window listing of the niri compositor: each line is
/// trimmed and read for a `Title:`, `App ID:` or `PID:` prefix; the last
/// occurrence of each wins. Title and application id are unquoted; the
/// process id is handed back as text for the caller to look up.
pub fn parse_niri_focused_window(lines: &Vec<String>) -> (r: NiriWindowFields)
    ensures
        ({
            let f = niri_fields(lines.deep_view());
            opt_view_is(r.title, f.0) && opt_view_is(r.app_id, f.1) && opt_view_is(r.pid, f.2)
        }),
{
    let n = lines.len();
    let mut title: Option<String> = None;
    let mut app_id: Option<String> = None;
    let mut pid: Option<String> = None;
    let mut i: usize = 0;
    while i < n
        invariant
            0 <= i <= n,
            n == lines@.len(),
            ({
                let f = niri_fields(lines.deep_view().subrange(0, i as int));
                opt_view_is(title, f.0) && opt_view_is(app_id, f.1) && opt_view_is(pid, f.2)
            }),
        decreases n - i,
    {
        let trimmed = trim_spaces(lines[i].as_str());
        proof {
            assert(lines.deep_view().subrange(0, i + 1).drop_last() =~= lines.deep_view()
                .subrange(0, i as int));
            assert(lines.deep_view().subrange(0, i + 1).last() == lines@[i as int]@);
        }
        if let Some(rest) = strip_prefix_str(trimmed.as_str(), "Title:") {
            let value = trim_matching(trim_spaces(rest.as_str()).as_str(), '"');
            title = Some(value);
        } else if let Some(rest) = strip_prefix_str(trimmed.as_str(), "App ID:") {
            let value = trim_matching(trim_spaces(rest.as_str()).as_str(), '"');
            app_id = Some(value);
        } else if let Some(rest) = strip_prefix_str(trimmed.as_str(), "PID:") {
            let value = trim_spaces(rest.as_str());
            pid = Some(value);
        }
        i += 1;
    }
    proof {
        assert(lines.deep_view().subrange(0, n as int) =~= lines.deep_view());
    }
    NiriWindowFields { title, app_id, pid }
}

} // verus!
