//! Event coordination: merging key input, filesystem change signals and the
//! render loop's drain-and-dispatch protocol into one deterministic cycle.
//!
//! Producers append to a queue; once per iteration the render loop drains
//! everything pending, coalesces filesystem signals into at most one reload,
//! and dispatches the reload strictly before any queued key event.

use vstd::prelude::*;
use crate::store::{spec_tmp_file_name, tmp_prefix};
use crate::strutil::{
    basename_chars, chars_end_with, chars_start_with, ends_with, lemma_u64_str_digits,
    spec_basename, starts_with, str_chars,
};

verus! {

/// A key on the keyboard, reduced to what the interface reacts to.
#[derive(Debug, Clone, Copy, PartialEq, Eq, Structural)]
pub enum Key {
    Char(char),
    Enter,
    Esc,
    Backspace,
    Tab,
    BackTab,
    Up,
    Down,
    PageUp,
    PageDown,
    Other,
}

/// How a key event was produced; only presses are acted on.
#[derive(Debug, Clone, Copy, PartialEq, Eq, Structural)]
pub enum KeyKind {
    Press,
    Release,
    Repeat,
}

/// One terminal key event.
#[derive(Debug, Clone, Copy, PartialEq, Eq, Structural)]
pub struct KeyEvent {
    pub key: Key,
    pub ctrl: bool,
    pub kind: KeyKind,
}

impl KeyEvent {
    /// A plain press of a key, no modifier.
    pub fn press(key: Key) -> (r: KeyEvent)
        ensures
            r == (KeyEvent { key, ctrl: false, kind: KeyKind::Press }),
    {
        KeyEvent { key, ctrl: false, kind: KeyKind::Press }
    }
}

/// One event arriving at the render loop: a terminal event or the coalesced
/// signal that something under the store root changed.
#[derive(Debug, Clone, Copy, PartialEq, Eq, Structural)]
pub enum AppEvent {
    Terminal(KeyEvent),
    FsChange,
}

/// What the terminal-input producer forwards: key presses only; releases
/// and repeats are dropped at the source.
pub fn forward_terminal_event(e: &AppEvent) -> (r: Option<AppEvent>)
    ensures
        r == (match e {
            AppEvent::Terminal(k) => if k.kind is Press {
                Some(*e)
            } else {
                None
            },
            AppEvent::FsChange => Some(*e),
        }),
{
    match e {
        AppEvent::Terminal(k) => {
            if matches!(k.kind, KeyKind::Press) {
                Some(*e)
            } else {
                None
            }
        },
        AppEvent::FsChange => Some(*e),
    }
}

/// Whether a queue holds at least one filesystem-change signal.
pub open spec fn spec_has_fs_change(q: Seq<AppEvent>) -> bool {
    exists|i: int| 0 <= i < q.len() && q[i] is FsChange
}

/// The key presses of a queue, in arrival order; release and repeat events
/// and filesystem signals drop out.
pub open spec fn spec_pressed_keys(q: Seq<AppEvent>) -> Seq<KeyEvent>
    decreases q.len(),
{
    if q.len() == 0 {
        Seq::empty()
    } else {
        let rest = spec_pressed_keys(q.drop_last());
        match q.last() {
            AppEvent::Terminal(k) => if k.kind is Press {
                rest.push(k)
            } else {
                rest
            },
            AppEvent::FsChange => rest,
        }
    }
}

/// What one drain of the queue yields: whether a reload is due, and the key
/// presses to dispatch, in arrival order.
pub struct DrainOutcome {
    pub reload: bool,
    pub keys: Vec<KeyEvent>,
}

/// The queue between the event producers and the render loop. Producers
/// push; the render loop drains everything pending at once.
pub struct EventCoordinator {
    pub queue: Vec<AppEvent>,
}

impl EventCoordinator {
    /// An empty queue.
    pub fn new() -> (r: EventCoordinator)
        ensures
            r.queue@ == Seq::<AppEvent>::empty(),
    {
        EventCoordinator { queue: Vec::new() }
    }

    /// A producer appends one event.
    pub fn push(&mut self, e: AppEvent)
        ensures
            final(self).queue@ == old(self).queue@.push(e),
    {
        self.queue.push(e);
    }

    /// Drains every queued event: any number of filesystem signals coalesce
    /// into one reload flag, and the key presses come out in arrival order.
    /// The queue is empty afterwards.
    pub fn drain(&mut self) -> (r: DrainOutcome)
        ensures
            r.reload == spec_has_fs_change(old(self).queue@),
            r.keys@ == spec_pressed_keys(old(self).queue@),
            final(self).queue@ == Seq::<AppEvent>::empty(),
    {
        let ghost q = self.queue@;
        let mut reload = false;
        let mut keys: Vec<KeyEvent> = Vec::new();
        let mut i: usize = 0;
        proof {
            assert(q.take(0) =~= Seq::<AppEvent>::empty());
            assert(!spec_has_fs_change(q.take(0)));
        }
        while i < self.queue.len()
            invariant
                i <= self.queue@.len(),
                q == self.queue@,
                reload == spec_has_fs_change(q.take(i as int)),
                keys@ == spec_pressed_keys(q.take(i as int)),
            decreases self.queue@.len() - i,
        {
            proof {
                assert(q.take(i + 1).drop_last() =~= q.take(i as int));
                assert(q.take(i + 1).last() == q[i as int]);
            }
            match self.queue[i] {
                AppEvent::Terminal(k) => {
                    if matches!(k.kind, KeyKind::Press) {
                        keys.push(k);
                    }
                },
                AppEvent::FsChange => {
                    reload = true;
                },
            }
            proof {
                if spec_has_fs_change(q.take(i as int)) {
                    let w = choose|w: int|
                        0 <= w < q.take(i as int).len() && (#[trigger] q.take(i as int)[w])
                            is FsChange;
                    assert(q.take(i + 1)[w] is FsChange);
                }
                if q[i as int] is FsChange {
                    assert(q.take(i + 1)[i as int] is FsChange);
                }
                if spec_has_fs_change(q.take(i + 1)) && !spec_has_fs_change(q.take(i as int))
                    && !(q[i as int] is FsChange) {
                    let w = choose|w: int|
                        0 <= w < q.take(i + 1).len() && (#[trigger] q.take(i + 1)[w]) is FsChange;
                    assert(q.take(i as int)[w] is FsChange);
                }
            }
            i = i + 1;
        }
        self.queue.clear();
        proof {
            assert(q.take(q.len() as int) =~= q);
        }
        DrainOutcome { reload, keys }
    }
}

/// One step of the render-loop protocol, in dispatch order.
#[derive(Debug, Clone, Copy, PartialEq, Eq, Structural)]
pub enum Action {
    Reload,
    HandleKey(KeyEvent),
}

/// The actions one drained batch dictates, in order.
pub open spec fn spec_cycle_actions(reload: bool, keys: Seq<KeyEvent>) -> Seq<Action> {
    let key_actions = Seq::new(keys.len(), |i: int| Action::HandleKey(keys[i]));
    if reload {
        seq![Action::Reload] + key_actions
    } else {
        key_actions
    }
}

/// The dispatch order of one render-loop iteration: when any filesystem
/// signal was drained, exactly one reload comes first; every drained key
/// press follows, in arrival order.
pub fn cycle_actions(d: &DrainOutcome) -> (r: Vec<Action>)
    ensures
        r@ == spec_cycle_actions(d.reload, d.keys@),
{
    let mut r: Vec<Action> = Vec::new();
    if d.reload {
        r.push(Action::Reload);
    }
    let mut i: usize = 0;
    let ghost base = r@;
    while i < d.keys.len()
        invariant
            i <= d.keys@.len(),
            r@ == base + Seq::new(i as nat, |j: int| Action::HandleKey(d.keys@[j])),
        decreases d.keys@.len() - i,
    {
        r.push(Action::HandleKey(d.keys[i]));
        proof {
            assert(r@ =~= base + Seq::new((i + 1) as nat, |j: int| Action::HandleKey(d.keys@[j])));
        }
        i = i + 1;
    }
    proof {
        assert(Seq::new(d.keys@.len(), |j: int| Action::HandleKey(d.keys@[j])) =~= Seq::new(
            i as nat,
            |j: int| Action::HandleKey(d.keys@[j]),
        ));
        if d.reload {
            assert(r@ =~= spec_cycle_actions(d.reload, d.keys@));
        } else {
            assert(base =~= Seq::<Action>::empty());
            assert(r@ =~= spec_cycle_actions(d.reload, d.keys@));
        }
    }
    r
}

/// One drain dispatches at most one reload, and it comes before every key:
/// any number of filesystem signals queued together coalesce into a single
/// reload at position zero, and every key press follows in arrival order.
pub proof fn lemma_reload_once_and_first(q: Seq<AppEvent>)
    ensures
        ({
            let acts = spec_cycle_actions(spec_has_fs_change(q), spec_pressed_keys(q));
            &&& spec_has_fs_change(q) ==> acts.len() > 0 && acts[0] == Action::Reload
            &&& forall|i: int|
                0 <= i < acts.len() && acts[i] == Action::Reload ==> i == 0 && spec_has_fs_change(
                    q,
                )
            &&& forall|i: int|
                0 <= i < spec_pressed_keys(q).len() ==> acts[i + (if spec_has_fs_change(q) {
                    1int
                } else {
                    0int
                })] == Action::HandleKey(spec_pressed_keys(q)[i])
        }),
{
    let keys = spec_pressed_keys(q);
    let acts = spec_cycle_actions(spec_has_fs_change(q), keys);
    assert forall|i: int|
        0 <= i < acts.len() && acts[i] == Action::Reload implies i == 0 && spec_has_fs_change(
        q,
    ) by {
        if spec_has_fs_change(q) {
            if i > 0 {
                assert(acts[i] == Action::HandleKey(keys[i - 1]));
            }
        } else {
            assert(acts[i] == Action::HandleKey(keys[i]));
        }
    }
}

/// Two filesystem signals arriving before one drain still yield exactly one
/// reload: the dispatch for a queue with both signals equals the dispatch
/// for the same queue of key events with a single signal.
pub proof fn lemma_fs_signals_coalesce(q1: Seq<AppEvent>, q2: Seq<AppEvent>)
    requires
        spec_has_fs_change(q1),
        spec_has_fs_change(q2),
        spec_pressed_keys(q1) == spec_pressed_keys(q2),
    ensures
        spec_cycle_actions(spec_has_fs_change(q1), spec_pressed_keys(q1)) == spec_cycle_actions(
            spec_has_fs_change(q2),
            spec_pressed_keys(q2),
        ),
{
}

/// Whether a batch of changed paths is a real record mutation: some path
/// names a record file (`.json`) whose file name does not carry the
/// reserved prefix of atomic-write intermediates.
pub open spec fn spec_relevant_change(paths: Seq<Seq<char>>) -> bool {
    exists|i: int|
        0 <= i < paths.len() && ends_with(#[trigger] paths[i], ".json"@) && !starts_with(
            spec_basename(paths[i]),
            tmp_prefix(),
        )
}

/// The filesystem watcher's filter: a batch of changed paths signals a
/// reload only when it touches a record file that is not a temporary-write
/// artifact.
pub fn fs_event_signals_change(paths: &Vec<String>) -> (r: bool)
    ensures
        r == spec_relevant_change(paths.deep_view()),
{
    let ghost pv = paths.deep_view();
    let mut i: usize = 0;
    while i < paths.len()
        invariant
            i <= paths@.len(),
            pv == paths.deep_view(),
            pv.len() == paths@.len(),
            forall|k: int|
                0 <= k < i ==> !(ends_with(#[trigger] pv[k], ".json"@) && !starts_with(
                    spec_basename(pv[k]),
                    tmp_prefix(),
                )),
        decreases paths@.len() - i,
    {
        proof {
            assert(pv[i as int] == paths@[i as int]@);
        }
        let cs = str_chars(paths[i].as_str());
        let suffix = str_chars(".json");
        if chars_end_with(cs.as_slice(), suffix.as_slice()) {
            let name = basename_chars(cs.as_slice());
            let prefix = str_chars(".tmp-");
            if !chars_start_with(name.as_slice(), prefix.as_slice()) {
                return true;
            }
        }
        i = i + 1;
    }
    false
}

/// The watcher never fires on the store's own atomic-write intermediates:
/// a staged temporary file, under any directory, is filtered out.
pub proof fn lemma_tmp_writes_invisible(dir: Seq<char>, pid: u64, nanos: u64)
    ensures
        !(ends_with(dir + "/"@ + spec_tmp_file_name(pid, nanos), ".json"@) && !starts_with(
            spec_basename(dir + "/"@ + spec_tmp_file_name(pid, nanos)),
            tmp_prefix(),
        )),
{
    let name = spec_tmp_file_name(pid, nanos);
    let path = dir + "/"@ + name;
    reveal_strlit(".tmp-");
    reveal_strlit("-");
    reveal_strlit("/");
    lemma_u64_str_digits(pid);
    lemma_u64_str_digits(nanos);
    assert(forall|i: int| 0 <= i < name.len() ==> name[i] != '/');
    assert(path[dir.len() as int] == '/');
    assert(path.skip(dir.len() as int + 1) =~= name);
    lemma_basename_after_slash(path, dir.len() as int, name);
    assert(spec_basename(path) == name);
    assert(starts_with(name, tmp_prefix())) by {
        assert(name.take(5) =~= ".tmp-"@);
    }
}

/// A path ending in a slash-free file name has that name as its base name.
proof fn lemma_basename_after_slash(path: Seq<char>, slash_at: int, name: Seq<char>)
    requires
        0 <= slash_at < path.len(),
        path[slash_at] == '/',
        path.skip(slash_at + 1) == name,
        forall|i: int| 0 <= i < name.len() ==> name[i] != '/',
    ensures
        spec_basename(path) == name,
    decreases path.len(),
{
    crate::strutil::lemma_find_char_in_range(path, '/', 0);
    match crate::strutil::spec_find_char(path, '/', 0) {
        Some(i) => {
            if i == slash_at {
                lemma_basename_no_slash(path.skip(i + 1));
            } else {
                assert(i < slash_at);
                assert(path.skip(i + 1).skip(slash_at - i) =~= path.skip(slash_at + 1));
                lemma_basename_after_slash(path.skip(i + 1), slash_at - i - 1, name);
            }
        },
        None => {
            assert(path[slash_at] != '/');
            assert(false);
        },
    }
}

/// A slash-free text is its own base name.
proof fn lemma_basename_no_slash(s: Seq<char>)
    requires
        forall|i: int| 0 <= i < s.len() ==> s[i] != '/',
    ensures
        spec_basename(s) == s,
{
    crate::strutil::lemma_find_char_in_range(s, '/', 0);
    if crate::strutil::spec_find_char(s, '/', 0) is Some {
        let i = crate::strutil::spec_find_char(s, '/', 0).unwrap();
        assert(s[i] == '/');
        assert(false);
    }
}

} // verus!
