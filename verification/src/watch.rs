//! The development watch loop's logic: filtering raw filesystem events,
//! recognizing editor temporary files, and the debounce/coalescing state
//! machine that guarantees at most one build pass in flight with at most one
//! follow-up pending.

use vstd::prelude::*;
use crate::text::str_eq;

verus! {

/// The dev command: the workspace manifest it builds from, and the build
/// settings it fills with development defaults before every pass.
pub struct Cmd {
    pub manifest_path: String,
    pub env: Option<String>,
    pub profile: Option<String>,
}

/// The model of the dev command's settings.
pub struct CmdModel {
    pub manifest_path: Seq<char>,
    pub env: Option<Seq<char>>,
    pub profile: Option<Seq<char>>,
}

impl Cmd {
    pub open spec fn model(&self) -> CmdModel {
        CmdModel {
            manifest_path: self.manifest_path@,
            env: match self.env {
                Option::None => Option::None,
                Option::Some(e) => Option::Some(e@),
            },
            profile: match self.profile {
                Option::None => Option::None,
                Option::Some(p) => Option::Some(p@),
            },
        }
    }
}

/// The development defaults: a missing environment becomes `development`, a
/// missing profile becomes `debug`; settings already present are kept.
pub open spec fn spec_with_dev_defaults(m: CmdModel) -> CmdModel {
    CmdModel {
        manifest_path: m.manifest_path,
        env: match m.env {
            Option::None => Option::Some("development"@),
            Option::Some(e) => Option::Some(e),
        },
        profile: match m.profile {
            Option::None => Option::Some("debug"@),
            Option::Some(p) => Option::Some(p),
        },
    }
}

impl Cmd {
    /// Fill in the development defaults and hand back the build command for
    /// this pass.
    pub fn cloned_build_command(&mut self) -> (r: Cmd)
        ensures
            final(self).model() == spec_with_dev_defaults(old(self).model()),
            r.model() == final(self).model(),
    {
        if self.env.is_none() {
            self.env = Some("development".to_owned());
        }
        if self.profile.is_none() {
            self.profile = Some("debug".to_owned());
        }
        let env = match &self.env {
            Option::Some(e) => Some(e.clone()),
            Option::None => None,
        };
        let profile = match &self.profile {
            Option::Some(p) => Some(p.clone()),
            Option::None => None,
        };
        Cmd { manifest_path: self.manifest_path.clone(), env, profile }
    }
}

/// The debounce interval, in seconds, between the first event of a burst and
/// the rebuild it triggers.
pub fn debounce_seconds() -> (r: u64)
    ensures
        r == 1,
{
    1
}

/// The shape of a path before canonicalization: empty (stand in the working
/// directory), a bare file name (join it to the working directory), or a
/// nested path (resolve it on disk).
#[derive(Clone, Copy, PartialEq, Eq, Structural, Debug)]
pub enum PathShape {
    Empty,
    BareName,
    Nested,
}

pub open spec fn spec_path_shape(p: Seq<char>) -> PathShape {
    if p.len() == 0 {
        PathShape::Empty
    } else if forall|i: int| 0 <= i < spec_trimmed_len(p) ==> p[i] != '/' {
        PathShape::BareName
    } else {
        PathShape::Nested
    }
}

/// Decide how a configured path is canonicalized.
pub fn path_shape(p: &str) -> (r: PathShape)
    ensures
        r == spec_path_shape(p@),
{
    let n = p.unicode_len();
    if n == 0 {
        return PathShape::Empty;
    }
    let m = trimmed_len(p);
    let mut i: usize = 0;
    while i < m
        invariant
            0 <= i <= m,
            m == spec_trimmed_len(p@),
            m <= p@.len(),
            forall|j: int| 0 <= j < i ==> p@[j] != '/',
        decreases m - i,
    {
        if p.get_char(i) == '/' {
            return PathShape::Nested;
        }
        i = i + 1;
    }
    PathShape::BareName
}

/// The length of `p` without its trailing `/` characters: where the last path
/// component ends, as path components ignore a trailing separator.
pub open spec fn spec_trimmed_len(p: Seq<char>) -> int
    decreases p.len(),
{
    if p.len() > 0 && p.last() == '/' {
        spec_trimmed_len(p.drop_last())
    } else {
        p.len() as int
    }
}

/// Find where the last path component ends: after the last non-`/` character.
fn trimmed_len(p: &str) -> (r: usize)
    ensures
        r == spec_trimmed_len(p@),
        r <= p@.len(),
{
    let n = p.unicode_len();
    let mut i: usize = n;
    proof {
        assert(p@.subrange(0, n as int) =~= p@);
    }
    while i > 0
        invariant
            0 <= i <= n,
            n == p@.len(),
            spec_trimmed_len(p@.subrange(0, i as int)) == spec_trimmed_len(p@),
        decreases i,
    {
        let ghost cur = p@.subrange(0, i as int);
        if p.get_char(i - 1) != '/' {
            proof {
                assert(cur.last() == p@[i - 1]);
                assert(spec_trimmed_len(cur) == i as int);
            }
            return i;
        }
        proof {
            assert(cur.last() == p@[i - 1]);
            assert(cur.drop_last() =~= p@.subrange(0, i - 1));
            assert(spec_trimmed_len(cur) == spec_trimmed_len(p@.subrange(0, i - 1)));
        }
        i = i - 1;
    }
    proof {
        assert(p@.subrange(0, 0) =~= Seq::<char>::empty());
        assert(spec_trimmed_len(p@.subrange(0, 0)) == 0);
    }
    0
}

/// The position just after the last `/` strictly below `end`, or `0` if no
/// `/` stands there.
pub open spec fn spec_last_slash_before(p: Seq<char>, end: int) -> int
    decreases end,
{
    if end <= 0 {
        0
    } else if end - 1 < p.len() && p[end - 1] == '/' {
        end
    } else {
        spec_last_slash_before(p, end - 1)
    }
}

/// Where the file name starts: just after the `/` preceding the last path
/// component.
pub open spec fn spec_name_start(p: Seq<char>) -> int {
    spec_last_slash_before(p, spec_trimmed_len(p))
}

/// The file name of a path: its last component, a trailing `/` ignored.
pub open spec fn spec_file_name(p: Seq<char>) -> Seq<char> {
    p.subrange(spec_name_start(p), spec_trimmed_len(p))
}

/// The directory part of a path: everything before its last component, empty
/// when the path is a bare file name.
pub open spec fn spec_parent_dir(p: Seq<char>) -> Seq<char> {
    if spec_name_start(p) == 0 {
        Seq::empty()
    } else {
        p.subrange(0, spec_name_start(p) - 1)
    }
}

/// Find where the file name starts: just after the `/` preceding the last
/// component, or `0`.
fn name_start(p: &str) -> (r: usize)
    ensures
        r == spec_name_start(p@),
        r <= spec_trimmed_len(p@) <= p@.len(),
{
    let n = p.unicode_len();
    let m = trimmed_len(p);
    let mut i: usize = m;
    while i > 0
        invariant
            0 <= i <= m,
            n == p@.len(),
            m == spec_trimmed_len(p@),
            m <= n,
            spec_last_slash_before(p@, i as int) == spec_name_start(p@),
        decreases i,
    {
        if p.get_char(i - 1) == '/' {
            proof {
                assert(spec_last_slash_before(p@, i as int) == i as int);
            }
            return i;
        }
        proof {
            assert(spec_last_slash_before(p@, i as int) == spec_last_slash_before(p@, i - 1));
        }
        i = i - 1;
    }
    proof {
        assert(spec_last_slash_before(p@, 0) == 0);
    }
    0
}

/// Does this file name carry an extension that names it temporary: a final
/// `.`-separated part, not starting the name, spelling `tmp` in any case?
pub open spec fn spec_tmp_extension(name: Seq<char>) -> bool {
    exists|k: int|
        0 < k < name.len() && #[trigger] name[k] == '.' && (forall|m: int|
            k < m < name.len() ==> name[m] != '.') && spec_is_tmp(
            name.subrange(k + 1, name.len() as int),
        )
}

/// The three letters `tmp`, in any case mixture.
pub open spec fn spec_is_tmp(e: Seq<char>) -> bool {
    e.len() == 3 && (e[0] == 't' || e[0] == 'T') && (e[1] == 'm' || e[1] == 'M') && (e[2] == 'p'
        || e[2] == 'P')
}

/// A change to this path is editor noise: its file name begins with `.`
/// (editor swap files), ends with `~` (backup files), is wrapped in `#`
/// (editor lock files), or bears a temporary-file extension.
pub open spec fn spec_is_temporary(p: Seq<char>) -> bool {
    let name = spec_file_name(p);
    ||| (name.len() > 0 && name[0] == '.')
    ||| (name.len() > 0 && name.last() == '~')
    ||| (name.len() > 0 && name[0] == '#' && name.last() == '#')
    ||| spec_tmp_extension(name)
}

/// Recognize editor temporary/swap/backup files by their name alone, so that
/// changes to them never trigger a rebuild.
pub fn is_temporary_file(path: &str) -> (r: bool)
    ensures
        r <==> spec_is_temporary(path@),
{
    let start = name_start(path);
    let m = trimmed_len(path);
    let ghost name = spec_file_name(path@);
    proof {
        assert(name.len() == m - start);
    }
    if start == m {
        proof {
            assert(name.len() == 0);
            assert(!spec_tmp_extension(name));
        }
        return false;
    }
    let first = path.get_char(start);
    let last = path.get_char(m - 1);
    proof {
        assert(name[0] == path@[start as int]);
        assert(name.last() == path@[m - 1]);
    }
    if first == '.' {
        return true;
    }
    if last == '~' {
        return true;
    }
    if first == '#' && last == '#' {
        return true;
    }
    // Look for the final `.` of the name; the name's first character cannot
    // begin an extension.
    proof {
        assert(name =~= path@.subrange(start as int, m as int));
    }
    let mut i: usize = m;
    while i > start + 1
        invariant
            start + 1 <= i <= m || i == m,
            start < m,
            m <= path@.len(),
            name == spec_file_name(path@),
            name == path@.subrange(start as int, m as int),
            name.len() == m - start,
            name[0] != '.',
            name.last() != '~',
            !(name[0] == '#' && name.last() == '#'),
            forall|j: int| i <= j < m ==> path@[j] != '.',
        decreases i,
    {
        i = i - 1;
        if path.get_char(i) == '.' {
            if m - i == 4 {
                let c1 = path.get_char(i + 1);
                let c2 = path.get_char(i + 2);
                let c3 = path.get_char(i + 3);
                let is_tmp = (c1 == 't' || c1 == 'T') && (c2 == 'm' || c2 == 'M') && (c3 == 'p'
                    || c3 == 'P');
                proof {
                    let k = i - start;
                    assert(name[k as int] == path@[i as int]);
                    assert(name.subrange(k + 1, name.len() as int) =~= path@.subrange(
                        i + 1,
                        m as int,
                    ));
                    if is_tmp {
                        assert(spec_is_tmp(name.subrange(k + 1, name.len() as int)));
                        assert(forall|w: int| k < w < name.len() ==> name[w] == path@[start + w]);
                        assert(spec_tmp_extension(name));
                    } else {
                        assert(!spec_is_tmp(name.subrange(k + 1, name.len() as int)));
                        assert forall|k2: int|
                            0 < k2 < name.len() && #[trigger] name[k2] == '.' && (forall|w: int|
                                k2 < w < name.len() ==> name[w] != '.') implies !spec_is_tmp(
                            name.subrange(k2 + 1, name.len() as int),
                        ) by {
                            assert(name[k2] == path@[start + k2]);
                            if start + k2 != i as int {
                                assert(name[k as int] == '.');
                                assert(false);
                            }
                            assert(name.subrange(k2 + 1, name.len() as int) =~= name.subrange(
                                k + 1,
                                name.len() as int,
                            ));
                        }
                    }
                }
                return is_tmp;
            } else {
                proof {
                    let k = i - start;
                    assert(name[k as int] == path@[i as int]);
                    assert forall|k2: int|
                        0 < k2 < name.len() && #[trigger] name[k2] == '.' && (forall|w: int|
                            k2 < w < name.len() ==> name[w] != '.') implies !spec_is_tmp(
                        name.subrange(k2 + 1, name.len() as int),
                    ) by {
                        assert(name[k2] == path@[start + k2]);
                        if start + k2 != i as int {
                            assert(name[k as int] == '.');
                            assert(false);
                        }
                        assert(name.subrange(k2 + 1, name.len() as int).len() == name.len() - k2
                            - 1);
                        assert(name.len() - k2 - 1 != 3);
                    }
                }
                return false;
            }
        }
    }
    proof {
        assert(name =~= path@.subrange(start as int, m as int));
        assert forall|k2: int| 0 < k2 < name.len() implies #[trigger] name[k2] != '.' by {
            assert(name[k2] == path@[start + k2]);
        }
        assert(!spec_tmp_extension(name));
    }
    false
}

/// Is this directory one of the watched package directories? All paths are
/// compared in canonical form, which the caller establishes.
pub fn is_parent_in_watched_dirs(parent: &str, watched_dirs: &Vec<String>) -> (r: bool)
    ensures
        r <==> watched_dirs.deep_view().contains(parent@),
{
    let n = watched_dirs.len();
    let mut i: usize = 0;
    while i < n
        invariant
            0 <= i <= n,
            n == watched_dirs@.len(),
            forall|j: int| 0 <= j < i ==> watched_dirs.deep_view()[j] != parent@,
        decreases n - i,
    {
        if str_eq(watched_dirs[i].as_str(), parent) {
            proof {
                assert(watched_dirs.deep_view()[i as int] == parent@);
            }
            return true;
        }
        i = i + 1;
    }
    false
}

/// The kind of a raw filesystem change event.
#[derive(Clone, Copy, PartialEq, Eq, Structural, Debug)]
pub enum ChangeKind {
    Created,
    Modified,
    Removed,
    Other,
}

/// Whether a raw change event triggers a rebuild: only create/modify/remove
/// events count; editor temporary files never do; and an event in the config
/// file's own directory counts only if it is the config file itself or that
/// directory is also a watched package directory.
pub open spec fn spec_should_rebuild(
    kind: ChangeKind,
    path: Seq<char>,
    config_path: Seq<char>,
    config_parent: Seq<char>,
    watched: Seq<Seq<char>>,
) -> bool {
    &&& !(kind is Other)
    &&& !spec_is_temporary(path)
    &&& !(spec_parent_dir(path) == config_parent && path != config_path && !watched.contains(
        config_parent,
    ))
}

/// Filter one raw change event. All paths are compared in canonical form,
/// which the caller establishes.
pub fn should_rebuild(
    kind: ChangeKind,
    path: &str,
    config_path: &str,
    config_parent: &str,
    watched_dirs: &Vec<String>,
) -> (r: bool)
    ensures
        r <==> spec_should_rebuild(
            kind,
            path@,
            config_path@,
            config_parent@,
            watched_dirs.deep_view(),
        ),
{
    if matches!(kind, ChangeKind::Other) {
        return false;
    }
    if is_temporary_file(path) {
        return false;
    }
    let start = name_start(path);
    let parent = if start == 0 {
        crate::text::empty_string()
    } else {
        path.substring_char(0, start - 1).to_owned()
    };
    proof {
        assert(parent@ =~= spec_parent_dir(path@));
    }
    let parent_is_config_parent = str_eq(parent.as_str(), config_parent);
    let path_is_config = str_eq(path, config_path);
    let parent_watched = is_parent_in_watched_dirs(config_parent, watched_dirs);
    !(parent_is_config_parent && !path_is_config && !parent_watched)
}

/// The watch loop's state: waiting, coalescing a burst, running one build
/// (possibly with one follow-up owed), or stopped for good.
#[derive(Clone, Copy, PartialEq, Eq, Structural, Debug)]
pub enum WatchState {
    Idle,
    Debouncing,
    Building { pending: bool },
    Stopped,
}

/// What the loop can observe: a surviving change event, the debounce timer
/// firing, the running build finishing, or the stop signal.
#[derive(Clone, Copy, PartialEq, Eq, Structural, Debug)]
pub enum WatchEvent {
    FileChanged,
    DebounceElapsed,
    BuildFinished,
    Stop,
}

/// What the loop does in response: arm the debounce timer, start one build
/// pass, or nothing.
#[derive(Clone, Copy, PartialEq, Eq, Structural, Debug)]
pub enum WatchAction {
    ArmDebounce,
    RunBuild,
    NoOp,
}

/// The next state: a change event opens (or extends) a debounce window, or
/// marks a follow-up while a build runs; the timer firing starts the one
/// build; a finished build either returns to idle or opens the owed follow-up
/// window; the stop signal is absorbing.
pub open spec fn spec_watch_next(s: WatchState, e: WatchEvent) -> WatchState {
    match (s, e) {
        (WatchState::Stopped, _) => WatchState::Stopped,
        (_, WatchEvent::Stop) => WatchState::Stopped,
        (WatchState::Idle, WatchEvent::FileChanged) => WatchState::Debouncing,
        (WatchState::Idle, _) => WatchState::Idle,
        (WatchState::Debouncing, WatchEvent::FileChanged) => WatchState::Debouncing,
        (WatchState::Debouncing, WatchEvent::DebounceElapsed) => WatchState::Building {
            pending: false,
        },
        (WatchState::Debouncing, _) => WatchState::Debouncing,
        (WatchState::Building { pending }, WatchEvent::FileChanged) => WatchState::Building {
            pending: true,
        },
        (WatchState::Building { pending }, WatchEvent::BuildFinished) => if pending {
            WatchState::Debouncing
        } else {
            WatchState::Idle
        },
        (WatchState::Building { pending }, _) => WatchState::Building { pending },
    }
}

/// The action taken on the same transition.
pub open spec fn spec_watch_action(s: WatchState, e: WatchEvent) -> WatchAction {
    match (s, e) {
        (WatchState::Stopped, _) => WatchAction::NoOp,
        (_, WatchEvent::Stop) => WatchAction::NoOp,
        (WatchState::Idle, WatchEvent::FileChanged) => WatchAction::ArmDebounce,
        (WatchState::Debouncing, WatchEvent::DebounceElapsed) => WatchAction::RunBuild,
        (WatchState::Building { pending }, WatchEvent::BuildFinished) => if pending {
            WatchAction::ArmDebounce
        } else {
            WatchAction::NoOp
        },
        _ => WatchAction::NoOp,
    }
}

/// Take one step of the watch loop.
pub fn watch_step(s: WatchState, e: WatchEvent) -> (r: (WatchState, WatchAction))
    ensures
        r.0 == spec_watch_next(s, e),
        r.1 == spec_watch_action(s, e),
{
    match (s, e) {
        (WatchState::Stopped, _) => (WatchState::Stopped, WatchAction::NoOp),
        (_, WatchEvent::Stop) => (WatchState::Stopped, WatchAction::NoOp),
        (WatchState::Idle, WatchEvent::FileChanged) => (
            WatchState::Debouncing,
            WatchAction::ArmDebounce,
        ),
        (WatchState::Idle, _) => (WatchState::Idle, WatchAction::NoOp),
        (WatchState::Debouncing, WatchEvent::DebounceElapsed) => (
            WatchState::Building { pending: false },
            WatchAction::RunBuild,
        ),
        (WatchState::Debouncing, _) => (WatchState::Debouncing, WatchAction::NoOp),
        (WatchState::Building { pending }, WatchEvent::FileChanged) => (
            WatchState::Building { pending: true },
            WatchAction::NoOp,
        ),
        (WatchState::Building { pending }, WatchEvent::BuildFinished) => if pending {
            (WatchState::Debouncing, WatchAction::ArmDebounce)
        } else {
            (WatchState::Idle, WatchAction::NoOp)
        },
        (WatchState::Building { pending }, _) => (
            WatchState::Building { pending },
            WatchAction::NoOp,
        ),
    }
}

/// The state after a whole trace of events.
pub open spec fn spec_watch_run(s: WatchState, es: Seq<WatchEvent>) -> WatchState
    decreases es.len(),
{
    if es.len() == 0 {
        s
    } else {
        spec_watch_next(spec_watch_run(s, es.drop_last()), es.last())
    }
}

/// How many builds a trace of events starts.
pub open spec fn spec_builds_started(s: WatchState, es: Seq<WatchEvent>) -> int
    decreases es.len(),
{
    if es.len() == 0 {
        0
    } else {
        spec_builds_started(s, es.drop_last()) + if spec_watch_action(
            spec_watch_run(s, es.drop_last()),
            es.last(),
        ) is RunBuild {
            1int
        } else {
            0int
        }
    }
}

/// A burst of `n` change events.
pub open spec fn spec_change_burst(n: nat) -> Seq<WatchEvent> {
    Seq::new(n, |i: int| WatchEvent::FileChanged)
}

/// Single-build law: a build is only ever started from the debounce window,
/// never while another build is in flight, and the step that starts it is the
/// step that enters the building state.
pub proof fn lemma_single_build(s: WatchState, e: WatchEvent)
    ensures
        spec_watch_action(s, e) is RunBuild ==> !(s is Building) && spec_watch_next(
            s,
            e,
        ) is Building,
{
}

/// Debounce coalescing law, first half: a burst of any number of change
/// events from idle starts no build at all — it only opens one debounce
/// window.
pub proof fn lemma_burst_coalesces(n: nat)
    requires
        n >= 1,
    ensures
        spec_watch_run(WatchState::Idle, spec_change_burst(n)) == WatchState::Debouncing,
        spec_builds_started(WatchState::Idle, spec_change_burst(n)) == 0,
    decreases n,
{
    let es = spec_change_burst(n);
    assert(es.len() == n);
    assert(es.last() == WatchEvent::FileChanged);
    if n == 1 {
        assert(es.drop_last() =~= Seq::<WatchEvent>::empty());
        assert(spec_watch_run(WatchState::Idle, Seq::<WatchEvent>::empty()) == WatchState::Idle);
        assert(spec_builds_started(WatchState::Idle, Seq::<WatchEvent>::empty()) == 0);
        assert(spec_builds_started(WatchState::Idle, es) == spec_builds_started(
            WatchState::Idle,
            es.drop_last(),
        ) + if spec_watch_action(spec_watch_run(WatchState::Idle, es.drop_last()), es.last())
            is RunBuild {
            1int
        } else {
            0int
        });
    } else {
        assert(es.drop_last() =~= spec_change_burst((n - 1) as nat));
        lemma_burst_coalesces((n - 1) as nat);
        assert(spec_builds_started(WatchState::Idle, es) == spec_builds_started(
            WatchState::Idle,
            es.drop_last(),
        ) + if spec_watch_action(spec_watch_run(WatchState::Idle, es.drop_last()), es.last())
            is RunBuild {
            1int
        } else {
            0int
        });
    }
}

/// Debounce coalescing law, second half: when the debounce window closes
/// after a burst of `n` events, exactly one build is started.
pub proof fn lemma_burst_one_build(n: nat)
    requires
        n >= 1,
    ensures
        ({
            let es = spec_change_burst(n).push(WatchEvent::DebounceElapsed);
            spec_watch_run(WatchState::Idle, es) == (WatchState::Building { pending: false })
                && spec_builds_started(WatchState::Idle, es) == 1
        }),
{
    let es = spec_change_burst(n).push(WatchEvent::DebounceElapsed);
    assert(es.drop_last() =~= spec_change_burst(n));
    lemma_burst_coalesces(n);
}

/// Follow-up coalescing law: any number of change events arriving while a
/// build is in flight start no build and collapse into a single owed
/// follow-up, which the finished build hands to one new debounce window.
pub proof fn lemma_followup_coalesces(n: nat, pending: bool)
    requires
        n >= 1,
    ensures
        spec_watch_run(WatchState::Building { pending }, spec_change_burst(n))
            == (WatchState::Building { pending: true }),
        spec_builds_started(WatchState::Building { pending }, spec_change_burst(n)) == 0,
        spec_watch_next(WatchState::Building { pending: true }, WatchEvent::BuildFinished)
            == WatchState::Debouncing,
        spec_watch_action(WatchState::Building { pending: true }, WatchEvent::BuildFinished)
            is ArmDebounce,
    decreases n,
{
    let es = spec_change_burst(n);
    let s0 = WatchState::Building { pending };
    assert(es.len() == n);
    assert(es.last() == WatchEvent::FileChanged);
    if n == 1 {
        assert(es.drop_last() =~= Seq::<WatchEvent>::empty());
        assert(spec_watch_run(s0, Seq::<WatchEvent>::empty()) == s0);
        assert(spec_builds_started(s0, Seq::<WatchEvent>::empty()) == 0);
        assert(spec_builds_started(s0, es) == spec_builds_started(s0, es.drop_last())
            + if spec_watch_action(spec_watch_run(s0, es.drop_last()), es.last()) is RunBuild {
            1int
        } else {
            0int
        });
    } else {
        assert(es.drop_last() =~= spec_change_burst((n - 1) as nat));
        lemma_followup_coalesces((n - 1) as nat, pending);
        assert(spec_builds_started(s0, es) == spec_builds_started(s0, es.drop_last())
            + if spec_watch_action(spec_watch_run(s0, es.drop_last()), es.last()) is RunBuild {
            1int
        } else {
            0int
        });
    }
}

/// Cancellation law: the stop signal is absorbing — once stopped, no event
/// restarts the loop and no build is ever started again.
pub proof fn lemma_stop_absorbing(es: Seq<WatchEvent>)
    ensures
        spec_watch_run(WatchState::Stopped, es) == WatchState::Stopped,
        spec_builds_started(WatchState::Stopped, es) == 0,
    decreases es.len(),
{
    if es.len() > 0 {
        lemma_stop_absorbing(es.drop_last());
    }
}

/// Noise filtering law: an event on an editor temporary file never triggers a
/// rebuild, whatever its kind, the config paths, or the watched directories.
pub proof fn lemma_noise_filtered(
    kind: ChangeKind,
    path: Seq<char>,
    config_path: Seq<char>,
    config_parent: Seq<char>,
    watched: Seq<Seq<char>>,
)
    requires
        spec_is_temporary(path),
    ensures
        !spec_should_rebuild(kind, path, config_path, config_parent, watched),
{
}

} // verus!
