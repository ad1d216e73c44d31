//! Which file-system events count as source changes, and how long an editor's
//! save burst is folded before one rebuild.

use vstd::prelude::*;
use crate::paths::{is_under_on, extension_on, path_extension_on, under_on};
use crate::term::windows_paths;
use crate::project::Project;

verus! {

/// A `.typ` file outside the generated `target/` and `release/` directories,
/// with separators read as on Windows when `windows` holds.
pub open spec fn typ_source(
    path: Seq<char>,
    target_dir: Seq<char>,
    release_dir: Seq<char>,
    windows: bool,
) -> bool {
    path_extension_on(path, windows) == Some(seq!['t', 'y', 'p']) && !under_on(
        path,
        target_dir,
        windows,
    ) && !under_on(path, release_dir, windows)
}

/// Whether `typ_source` holds of one of `paths`.
pub open spec fn touches_source(
    paths: Seq<String>,
    target_dir: Seq<char>,
    release_dir: Seq<char>,
    windows: bool,
) -> bool {
    exists|i: int|
        0 <= i < paths.len() && typ_source(#[trigger] paths[i]@, target_dir, release_dir, windows)
}

/// Decides `typ_source` for the project's generated directories, with
/// separators read as on Windows when `windows` holds.
pub fn is_typ_source_on(path: &str, project: &Project, windows: bool) -> (r: bool)
    ensures
        r == typ_source(path@, project.target_dir@, project.release_dir@, windows),
{
    proof {
        reveal_strlit("typ");
    }
    let is_typ = match extension_on(path, windows) {
        Some(e) => {
            let ev = crate::text::chars_of_string(&e);
            crate::text::eq_str(ev.as_slice(), "typ")
        },
        None => false,
    };
    assert("typ"@ =~= seq!['t', 'y', 'p']);
    is_typ && !is_under_on(path, project.target_dir.as_str(), windows) && !is_under_on(
        path,
        project.release_dir.as_str(),
        windows,
    )
}

/// A `.typ` edit counts as a source change unless it lands inside the
/// generated `target/` or `release/` directories. Excluding those by path —
/// not only by extension — keeps the watcher from reacting to its own output
/// even if a `.typ`-suffixed artifact ever appears there. Paths are read as
/// the platform reads them: on Windows `\` separates components as `/` does.
pub fn is_typ_source(path: &str, project: &Project) -> (r: bool)
    ensures
        r == typ_source(path@, project.target_dir@, project.release_dir@, false) || r
            == typ_source(path@, project.target_dir@, project.release_dir@, true),
{
    is_typ_source_on(path, project, windows_paths())
}

/// Whether one file-system event touches a source (any of its paths does),
/// with separators read as on Windows when `windows` holds.
pub fn event_touches_source_on(paths: &[String], project: &Project, windows: bool) -> (r: bool)
    ensures
        r == touches_source(paths@, project.target_dir@, project.release_dir@, windows),
{
    let mut i: usize = 0;
    while i < paths.len()
        invariant
            i <= paths@.len(),
            forall|k: int|
                0 <= k < i ==> !typ_source(
                    #[trigger] paths@[k]@,
                    project.target_dir@,
                    project.release_dir@,
                    windows,
                ),
        decreases paths.len() - i,
    {
        if is_typ_source_on(paths[i].as_str(), project, windows) {
            return true;
        }
        i = i + 1;
    }
    false
}

/// Whether one file-system event touches a source: any of its paths does, read
/// as the platform reads paths.
pub fn event_touches_source(paths: &[String], project: &Project) -> (r: bool)
    ensures
        r == touches_source(paths@, project.target_dir@, project.release_dir@, false) || r
            == touches_source(paths@, project.target_dir@, project.release_dir@, true),
{
    event_touches_source_on(paths, project, windows_paths())
}

/// Quiet period, in milliseconds, that folds an editor's save burst into a
/// single rebuild.
pub const DEBOUNCE_QUIET_MS: u64 = 500;

/// Hard cap on that fold, in milliseconds from the first change. Sliding the
/// quiet window alone would let a process writing sources continuously
/// postpone the rebuild forever.
pub const DEBOUNCE_MAX_MS: u64 = 2000;

/// The instant, in milliseconds since the first change, until which a burst
/// must stay quiet once its latest event arrived at `now_ms`.
pub fn debounce_extend(now_ms: u64) -> (r: u64)
    ensures
        r == (if now_ms + DEBOUNCE_QUIET_MS <= u64::MAX {
            now_ms + DEBOUNCE_QUIET_MS
        } else {
            u64::MAX as int
        }),
{
    now_ms.saturating_add(DEBOUNCE_QUIET_MS)
}

/// How long to wait for the next event at `now_ms` (milliseconds since the
/// first change) when the burst must stay quiet until `quiet_until_ms`: up to
/// the quiet deadline, but never past the cap. Zero means the burst settled.
pub fn debounce_wait(quiet_until_ms: u64, now_ms: u64) -> (r: u64)
    ensures
        ({
            let deadline = if quiet_until_ms < DEBOUNCE_MAX_MS {
                quiet_until_ms as int
            } else {
                DEBOUNCE_MAX_MS as int
            };
            r == (if now_ms < deadline {
                deadline - now_ms
            } else {
                0
            })
        }),
        r == 0 || now_ms + r <= DEBOUNCE_MAX_MS,
{
    let deadline = if quiet_until_ms < DEBOUNCE_MAX_MS {
        quiet_until_ms
    } else {
        DEBOUNCE_MAX_MS
    };
    deadline.saturating_sub(now_ms)
}

} // verus!
