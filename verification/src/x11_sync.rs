//! Keeping the X11 and the Wayland clipboard in step.

use crate::apply::{opt_str, TEXT_MIME};
use crate::bytes::{lossy, lossy_text};
use crate::clip::{item, Item, ItemView};
use crate::consts::{
    GNOME_COPIED_FILES_MIME, KDE_URI_LIST_MIME, URI_LIST_MIME, X11_SYNC_MARKER_MIME,
};
use crate::hash::{sha256_hex, sha256_text};
use crate::number::{number, parse};
use crate::path::join_text;
use crate::paths::in_dir;
use crate::text::{any_line, lines, lines_of, same, starts_with, trim, trimmed};
use std::collections::VecDeque;
use vstd::prelude::*;

verus! {

/// The directory for the sync's state.
pub const SUBDIR: &'static str = "x11-sync";

/// What is kept of the sync, in its directory.
pub fn state_path(state_dir: &[u8], key: &str) -> (res: Vec<u8>)
    ensures
        res@ == in_dir(in_dir(state_dir@, SUBDIR@), key@),
{
    let dir = join_text(state_dir, SUBDIR);
    join_text(dir.as_slice(), key)
}

/// The socket through which changes of the Wayland clipboard are told.
pub fn wl_notify_socket_path(state_dir: &[u8]) -> (res: Vec<u8>)
    ensures
        res@ == in_dir(in_dir(state_dir@, SUBDIR@), "wl_notify.sock"@),
{
    state_path(state_dir, "wl_notify.sock")
}

/// Options of the sync.
pub struct X11SyncOpts {
    pub state_dir: Vec<u8>,
    pub poll_interval_ms: u64,
    pub max_text_bytes: usize,
    pub max_image_bytes: usize,
}

/// How often pending work is tried again, in milliseconds: as asked for, but not more
/// than every 50.
pub fn tick_ms(opts: &X11SyncOpts) -> (res: u64)
    ensures
        res == if opts.poll_interval_ms < 50 {
            50u64
        } else {
            opts.poll_interval_ms
        },
{
    if opts.poll_interval_ms < 50 {
        50
    } else {
        opts.poll_interval_ms
    }
}

/// A number that the environment sets: nothing where it is none.
pub fn env_number(set: Option<&str>, max: u64) -> (res: Option<u64>)
    ensures
        match res {
            Some(n) => set is Some && number(set->0@, max as nat) == Some(n as nat),
            None => set is None || number(set->0@, max as nat) is None,
        },
{
    match set {
        Some(s) => parse(s, max),
        None => None,
    }
}

/// At most `max` hits in a window of time. Times are in nanoseconds of a clock that does
/// not go back.
pub struct RateLimiter {
    window: u128,
    max: usize,
    hits: VecDeque<u128>,
}

/// The hit lies a window or more back.
pub open spec fn is_past(hit: u128, now: u128, window: u128) -> bool {
    now - hit >= window || window == 0
}

/// The hits that are not older than the window.
pub open spec fn recent(hits: Seq<u128>, now: u128, window: u128) -> Seq<u128>
    decreases hits.len(),
{
    if hits.len() > 0 && is_past(hits[0], now, window) {
        recent(hits.drop_first(), now, window)
    } else {
        hits
    }
}

impl RateLimiter {
    /// The hits that count.
    pub closed spec fn hits(&self) -> Seq<u128> {
        self.hits@
    }

    /// The length of the window.
    pub closed spec fn window(&self) -> u128 {
        self.window
    }

    /// How many hits are allowed in it.
    pub closed spec fn max(&self) -> nat {
        self.max as nat
    }

    /// No hits yet.
    pub fn new(window: u128, max: usize) -> (res: RateLimiter)
        ensures
            res.hits() == Seq::<u128>::empty(),
            res.window() == window,
            res.max() == max,
    {
        RateLimiter { window, max, hits: VecDeque::new() }
    }

    /// Whether there may be a hit now; if so, there is one.
    pub fn allow(&mut self, now: u128) -> (res: bool)
        ensures
            final(self).window() == old(self).window(),
            final(self).max() == old(self).max(),
            ({
                let kept = recent(old(self).hits(), now, old(self).window());
                &&& res == (kept.len() < old(self).max())
                &&& final(self).hits() == if res {
                    kept.push(now)
                } else {
                    kept
                }
            }),
    {
        let ghost start = self.hits@;
        while self.hits.len() > 0 && (self.window == 0 || (now >= self.hits[0] && now - self.hits[0]
            >= self.window))
            invariant
                recent(start, now, self.window) == recent(self.hits@, now, self.window),
                self.window == old(self).window,
                self.max == old(self).max,
            decreases self.hits@.len(),
        {
            let ghost before = self.hits@;
            let _ = self.hits.pop_front();
            assert(self.hits@ =~= before.drop_first());
        }
        if self.hits.len() >= self.max {
            return false;
        }
        self.hits.push_back(now);
        true
    }
}

/// What a limiter did: the hits that count, and all hits that were allowed.
pub struct LimiterRun {
    pub hits: Seq<u128>,
    pub allowed: Seq<u128>,
}

/// A limiter that is asked at the given times, one after the other.
pub open spec fn limiter_run(times: Seq<u128>, window: u128, max: nat) -> LimiterRun
    decreases times.len(),
{
    if times.len() == 0 {
        LimiterRun { hits: Seq::empty(), allowed: Seq::empty() }
    } else {
        let r = limiter_run(times.drop_last(), window, max);
        let now = times.last();
        let kept = recent(r.hits, now, window);
        if kept.len() < max {
            LimiterRun { hits: kept.push(now), allowed: r.allowed.push(now) }
        } else {
            LimiterRun { hits: kept, allowed: r.allowed }
        }
    }
}

proof fn lemma_recent(hits: Seq<u128>, now: u128, window: u128)
    ensures
        recent(hits, now, window).len() <= hits.len(),
        ({
            let d = (hits.len() - recent(hits, now, window).len()) as int;
            &&& recent(hits, now, window) == hits.skip(d)
            &&& forall|i: int| 0 <= i < d ==> is_past(#[trigger] hits[i], now, window)
        }),
    decreases hits.len(),
{
    if hits.len() > 0 && is_past(hits[0], now, window) {
        let t = hits.drop_first();
        lemma_recent(t, now, window);
        let r = recent(t, now, window);
        let d = (hits.len() - r.len()) as int;
        assert(r =~= hits.skip(d));
        assert forall|i: int| 0 <= i < d implies is_past(#[trigger] hits[i], now, window) by {
            if i > 0 {
                assert(t[i - 1] == hits[i]);
            }
        }
    } else {
        assert(hits.skip(0) =~= hits);
    }
}

proof fn lemma_limiter(times: Seq<u128>, window: u128, max: nat)
    requires
        forall|i: int, j: int| 0 <= i <= j < times.len() ==> times[i] <= times[j],
    ensures
        ({
            let r = limiter_run(times, window, max);
            let d = r.allowed.len() - r.hits.len();
            &&& d >= 0
            &&& r.hits == r.allowed.skip(d)
            &&& r.hits.len() <= max
            &&& forall|i: int| 0 <= i < d ==> times.last() - #[trigger] r.allowed[i] >= window
            &&& forall|i: int| 0 <= i < r.allowed.len() ==> #[trigger] r.allowed[i] <= times.last()
            &&& forall|i: int|
                0 <= i < r.allowed.len() - max ==> r.allowed[i + max] - #[trigger] r.allowed[i]
                    >= window
        }),
    decreases times.len(),
{
    if times.len() > 0 {
        let prev = times.drop_last();
        assert forall|i: int, j: int| 0 <= i <= j < prev.len() implies prev[i] <= prev[j] by {
            assert(times[i] <= times[j]);
        }
        lemma_limiter(prev, window, max);
        let r = limiter_run(prev, window, max);
        let now = times.last();
        lemma_recent(r.hits, now, window);
        let kept = recent(r.hits, now, window);
        let d0 = r.allowed.len() - r.hits.len();
        let d = r.allowed.len() - kept.len();
        assert(kept =~= r.allowed.skip(d));
        if prev.len() > 0 {
            assert(prev.last() == times[times.len() - 2]);
            assert(times[times.len() - 2] <= times[times.len() - 1]);
        }
        assert forall|i: int| 0 <= i < d implies now - #[trigger] r.allowed[i] >= window by {
            if i >= d0 {
                assert(r.hits[i - d0] == r.allowed[i]);
            }
        }
        if kept.len() < max {
            let a = r.allowed.push(now);
            assert(kept.push(now) =~= a.skip(d));
            assert forall|i: int| 0 <= i < d implies now - #[trigger] a[i] >= window by {
                assert(a[i] == r.allowed[i]);
            }
            assert forall|i: int| 0 <= i < a.len() - max implies a[i + max] - #[trigger] a[i]
                >= window by {
                assert(a[i] == r.allowed[i]);
                if i + max < r.allowed.len() {
                    assert(a[i + max] == r.allowed[i + max]);
                } else {
                    assert(i < d);
                }
            }
        }
    } else {
        let r = limiter_run(times, window, max);
        assert(r.hits =~= r.allowed.skip(0));
    }
}

/// Of any `max + 1` hits that are allowed one after the other, the last comes at least a
/// window after the first.
pub proof fn law_limiter_keeps_its_limit(times: Seq<u128>, window: u128, max: nat, i: int)
    requires
        forall|i: int, j: int| 0 <= i <= j < times.len() ==> times[i] <= times[j],
        0 <= i,
        i + max < limiter_run(times, window, max).allowed.len(),
    ensures
        limiter_run(times, window, max).allowed[i + max] - limiter_run(
            times,
            window,
            max,
        ).allowed[i] >= window,
{
    lemma_limiter(times, window, max);
}

/// How many of the hits lie less than a window back.
pub open spec fn hits_in_window(hits: Seq<u128>, now: u128, window: u128) -> nat
    decreases hits.len(),
{
    if hits.len() == 0 {
        0
    } else {
        hits_in_window(hits.drop_last(), now, window) + if is_past(hits.last(), now, window) {
            0nat
        } else {
            1nat
        }
    }
}

proof fn lemma_hits_in_window(hits: Seq<u128>, now: u128, window: u128, k: int)
    requires
        0 <= k <= hits.len(),
        forall|i: int| 0 <= i < k ==> is_past(#[trigger] hits[i], now, window),
        forall|i: int| k <= i < hits.len() ==> !is_past(#[trigger] hits[i], now, window),
    ensures
        hits_in_window(hits, now, window) == hits.len() - k,
    decreases hits.len(),
{
    if hits.len() > 0 {
        let t = hits.drop_last();
        if k < hits.len() {
            lemma_hits_in_window(t, now, window, k);
        } else {
            lemma_hits_in_window(t, now, window, k - 1);
        }
    }
}

proof fn lemma_allowed_in_order(times: Seq<u128>, window: u128, max: nat)
    requires
        forall|i: int, j: int| 0 <= i <= j < times.len() ==> times[i] <= times[j],
    ensures
        forall|i: int, j: int|
            0 <= i <= j < limiter_run(times, window, max).allowed.len() ==> limiter_run(
                times,
                window,
                max,
            ).allowed[i] <= limiter_run(times, window, max).allowed[j],
    decreases times.len(),
{
    if times.len() > 0 {
        let prev = times.drop_last();
        assert forall|i: int, j: int| 0 <= i <= j < prev.len() implies prev[i] <= prev[j] by {
            assert(times[i] <= times[j]);
        }
        lemma_allowed_in_order(prev, window, max);
        lemma_limiter(prev, window, max);
        if prev.len() > 0 {
            assert(prev.last() == times[times.len() - 2]);
            assert(times[times.len() - 2] <= times[times.len() - 1]);
        }
        let a = limiter_run(prev, window, max).allowed;
        let all = limiter_run(times, window, max).allowed;
        assert forall|i: int, j: int| 0 <= i <= j < all.len() implies all[i] <= all[j] by {
            if i < a.len() {
                assert(all[i] == a[i]);
            }
            if j < a.len() {
                assert(all[j] == a[j]);
            }
        }
    }
}

/// The limiter allows a hit exactly where fewer than `max` of the hits that it allowed lie less
/// than a window back.
pub proof fn law_limiter_allows_up_to_its_limit(
    times: Seq<u128>,
    window: u128,
    max: nat,
    now: u128,
)
    requires
        forall|i: int, j: int| 0 <= i <= j < times.len() ==> times[i] <= times[j],
        times.len() > 0 ==> times.last() <= now,
    ensures
        ({
            let before = limiter_run(times, window, max).allowed;
            limiter_run(times.push(now), window, max).allowed == if hits_in_window(
                before,
                now,
                window,
            ) < max {
                before.push(now)
            } else {
                before
            }
        }),
{
    let r = limiter_run(times, window, max);
    let a = r.allowed;
    let kept = recent(r.hits, now, window);
    lemma_limiter(times, window, max);
    lemma_allowed_in_order(times, window, max);
    lemma_recent(r.hits, now, window);
    let d0 = a.len() - r.hits.len();
    let d = a.len() - kept.len();
    assert forall|i: int| 0 <= i < d implies is_past(#[trigger] a[i], now, window) by {
        if i >= d0 {
            assert(r.hits[i - d0] == a[i]);
        }
    }
    assert(kept =~= a.skip(d));
    assert(kept.len() > 0 ==> !is_past(kept[0], now, window)) by {
        lemma_first_is_recent(r.hits, now, window);
    }
    assert forall|i: int| d <= i < a.len() implies !is_past(#[trigger] a[i], now, window) by {
        assert(kept[0] == a[d]);
        assert(a[d] <= a[i]);
    }
    lemma_hits_in_window(a, now, window, d);
    assert(times.push(now).drop_last() =~= times);
}

proof fn lemma_first_is_recent(hits: Seq<u128>, now: u128, window: u128)
    ensures
        recent(hits, now, window).len() > 0 ==> !is_past(
            recent(hits, now, window)[0],
            now,
            window,
        ),
    decreases hits.len(),
{
    if hits.len() > 0 && is_past(hits[0], now, window) {
        lemma_first_is_recent(hits.drop_first(), now, window);
    }
}

/// What the X11 clipboard held.
#[verifier::ext_equal]
pub struct SnapshotView {
    pub marked_from_wayland: bool,
    pub items: Seq<ItemView>,
}

/// What the X11 clipboard held.
#[derive(Debug)]
pub struct X11Snapshot {
    /// It came from Wayland.
    pub marked_from_wayland: bool,
    pub items: Vec<Item>,
}

impl View for X11Snapshot {
    type V = SnapshotView;

    open spec fn view(&self) -> SnapshotView {
        SnapshotView { marked_from_wayland: self.marked_from_wayland, items: self.items.deep_view() }
    }
}

/// What the sync is asked to do.
#[derive(Debug)]
pub enum Task {
    /// Nothing.
    Idle,
    /// Bring a snapshot of the X11 clipboard to Wayland.
    ToWayland(X11Snapshot),
    /// Bring the Wayland clipboard to X11.
    ToX11,
}

/// What the sync is asked to do.
pub enum TaskView {
    Idle,
    ToWayland(SnapshotView),
    ToX11,
}

impl View for Task {
    type V = TaskView;

    open spec fn view(&self) -> TaskView {
        match self {
            Task::Idle => TaskView::Idle,
            Task::ToWayland(s) => TaskView::ToWayland(s@),
            Task::ToX11 => TaskView::ToX11,
        }
    }
}

/// The sync's work that waits for the rate limit.
pub struct Scheduler {
    limiter: RateLimiter,
    pending_x11: Option<X11Snapshot>,
    pending_wl: bool,
}

/// The sync's work that waits.
#[verifier::ext_equal]
pub struct SchedulerView {
    pub window: u128,
    pub max: nat,
    pub hits: Seq<u128>,
    pub pending_x11: Option<SnapshotView>,
    pub pending_wl: bool,
}

impl View for Scheduler {
    type V = SchedulerView;

    closed spec fn view(&self) -> SchedulerView {
        SchedulerView {
            window: self.limiter.window(),
            max: self.limiter.max(),
            hits: self.limiter.hits(),
            pending_x11: match self.pending_x11 {
                Some(s) => Some(s@),
                None => None,
            },
            pending_wl: self.pending_wl,
        }
    }
}

/// A task is allowed now.
pub open spec fn allowed(s: SchedulerView, now: u128) -> bool {
    recent(s.hits, now, s.window).len() < s.max
}

/// The work that waits, after the limiter was asked.
pub open spec fn asked(s: SchedulerView, now: u128) -> SchedulerView {
    let kept = recent(s.hits, now, s.window);
    SchedulerView {
        hits: if allowed(s, now) {
            kept.push(now)
        } else {
            kept
        },
        ..s
    }
}

/// What is done as time passes, and the work that waits then.
pub open spec fn after_tick(s: SchedulerView, now: u128) -> (TaskView, SchedulerView) {
    if s.pending_x11 is None && !s.pending_wl {
        (TaskView::Idle, s)
    } else if !allowed(s, now) {
        (TaskView::Idle, asked(s, now))
    } else {
        match s.pending_x11 {
            Some(snap) => (
                TaskView::ToWayland(snap),
                SchedulerView { pending_x11: None, ..asked(s, now) },
            ),
            None => (TaskView::ToX11, SchedulerView { pending_wl: false, ..asked(s, now) }),
        }
    }
}

/// What is done on a change of the X11 clipboard, and the work that waits then.
pub open spec fn after_snapshot(s: SchedulerView, snap: SnapshotView, now: u128) -> (
    TaskView,
    SchedulerView,
) {
    if allowed(s, now) {
        (TaskView::ToWayland(snap), asked(s, now))
    } else {
        (TaskView::Idle, SchedulerView { pending_x11: Some(snap), ..asked(s, now) })
    }
}

/// What is done on a change of the Wayland clipboard, and the work that waits then.
pub open spec fn after_wayland(s: SchedulerView, now: u128) -> (TaskView, SchedulerView) {
    if allowed(s, now) {
        (TaskView::ToX11, asked(s, now))
    } else {
        (TaskView::Idle, SchedulerView { pending_wl: true, ..asked(s, now) })
    }
}

impl Scheduler {
    /// Nothing waits.
    pub fn new(window: u128, max: usize) -> (res: Scheduler)
        ensures
            res@ == (SchedulerView {
                window,
                max: max as nat,
                hits: Seq::empty(),
                pending_x11: None,
                pending_wl: false,
            }),
    {
        Scheduler {
            limiter: RateLimiter::new(window, max),
            pending_x11: None,
            pending_wl: false,
        }
    }

    /// Time has passed: work that waits is tried again, X11's first.
    pub fn on_tick(&mut self, now: u128) -> (res: Task)
        ensures
            (res@, final(self)@) == after_tick(old(self)@, now),
            match old(self)@.pending_x11 {
                Some(snap) => if allowed(old(self)@, now) {
                    &&& res@ == TaskView::ToWayland(snap)
                    &&& final(self)@ == (SchedulerView {
                        pending_x11: None,
                        ..asked(old(self)@, now)
                    })
                } else {
                    &&& res is Idle
                    &&& final(self)@ == asked(old(self)@, now)
                },
                None => if old(self)@.pending_wl {
                    if allowed(old(self)@, now) {
                        &&& res is ToX11
                        &&& final(self)@ == (SchedulerView {
                            pending_wl: false,
                            ..asked(old(self)@, now)
                        })
                    } else {
                        &&& res is Idle
                        &&& final(self)@ == asked(old(self)@, now)
                    }
                } else {
                    &&& res is Idle
                    &&& final(self)@ == old(self)@
                },
            },
    {
        match self.pending_x11.take() {
            Some(snap) => {
                if self.limiter.allow(now) {
                    return Task::ToWayland(snap);
                }
                self.pending_x11 = Some(snap);
                Task::Idle
            },
            None => {
                if self.pending_wl {
                    if self.limiter.allow(now) {
                        self.pending_wl = false;
                        return Task::ToX11;
                    }
                }
                Task::Idle
            },
        }
    }

    /// The X11 clipboard changed: the snapshot is taken up at once, or waits in place of
    /// one that waited before.
    pub fn on_snapshot(&mut self, snap: X11Snapshot, now: u128) -> (res: Task)
        ensures
            (res@, final(self)@) == after_snapshot(old(self)@, snap@, now),
            if allowed(old(self)@, now) {
                &&& res@ == TaskView::ToWayland(snap@)
                &&& final(self)@ == asked(old(self)@, now)
            } else {
                &&& res is Idle
                &&& final(self)@ == (SchedulerView {
                    pending_x11: Some(snap@),
                    ..asked(old(self)@, now)
                })
            },
    {
        if self.limiter.allow(now) {
            return Task::ToWayland(snap);
        }
        self.pending_x11 = Some(snap);
        Task::Idle
    }

    /// The Wayland clipboard changed: it is taken up at once, or later. It is read in full
    /// then, so that it is enough to know that it changed.
    pub fn on_wayland(&mut self, now: u128) -> (res: Task)
        ensures
            (res@, final(self)@) == after_wayland(old(self)@, now),
            if allowed(old(self)@, now) {
                &&& res is ToX11
                &&& final(self)@ == asked(old(self)@, now)
            } else {
                &&& res is Idle
                &&& final(self)@ == (SchedulerView { pending_wl: true, ..asked(old(self)@, now) })
            },
    {
        if self.limiter.allow(now) {
            return Task::ToX11;
        }
        self.pending_wl = true;
        Task::Idle
    }
}

/// The items that are content: not empty, and not the sync's marker.
pub open spec fn content(items: Seq<ItemView>) -> Seq<ItemView>
    decreases items.len(),
{
    if items.len() == 0 {
        Seq::empty()
    } else {
        let before = content(items.drop_last());
        let i = items.last();
        if i.bytes.len() == 0 || i.mime == X11_SYNC_MARKER_MIME@ {
            before
        } else {
            before.push(i)
        }
    }
}

/// One line for an item: its type and its digest.
pub open spec fn digest_line(i: ItemView) -> Seq<char> {
    i.mime + ":"@ + sha256_text(i.bytes)
}

/// The digest of a set of items.
pub open spec fn set_digest(items: Seq<ItemView>) -> Seq<char> {
    sha256_text(
        vstd::utf8::encode_utf8(
            crate::text::joined(items.map_values(|i: ItemView| digest_line(i)), "\n"@),
        ),
    )
}

/// The digest of a set of items.
fn set_digest_of(items: &Vec<Item>) -> (res: String)
    ensures
        res@ == set_digest(items.deep_view()),
{
    let ghost all = items.deep_view();
    let mut ls: Vec<String> = Vec::new();
    let mut i: usize = 0;
    while i < items.len()
        invariant
            i <= items@.len(),
            all == items.deep_view(),
            all.len() == items@.len(),
            ls@.len() == i,
            forall|j: int| 0 <= j < i ==> (#[trigger] ls@[j])@ == digest_line(all[j]),
        decreases items@.len() - i,
    {
        assert(all[i as int] == items@[i as int]@);
        let mut line = items[i].mime.clone();
        line.append(":");
        line.append(sha256_hex(items[i].bytes.as_slice()).as_str());
        assert(line@ =~= digest_line(all[i as int]));
        ls.push(line);
        i += 1;
    }
    assert(ls.deep_view() =~= all.map_values(|i: ItemView| digest_line(i)));
    let text = crate::text::join(&ls, "\n");
    sha256_hex(text.as_str().as_bytes())
}

/// The marker for content that goes to Wayland.
pub open spec fn marker_from_x11() -> ItemView {
    crate::clip::text_item(X11_SYNC_MARKER_MIME@, "from=x11"@)
}

/// The marker for content that goes to X11.
pub open spec fn marker_from_wl() -> ItemView {
    crate::clip::text_item(X11_SYNC_MARKER_MIME@, "from=wl"@)
}

/// What a snapshot of the X11 clipboard puts on the Wayland clipboard: nothing where it
/// came from there, where it holds no content, or where it is what was put there last.
pub open spec fn to_wayland(s: SnapshotView, last: Option<Seq<char>>) -> Option<Seq<ItemView>> {
    let items = seq![marker_from_x11()] + content(s.items);
    if s.marked_from_wayland || content(s.items).len() == 0 || last == Some(set_digest(items)) {
        None
    } else {
        Some(items)
    }
}

/// A set of items, and its digest.
#[derive(Debug)]
pub struct ItemSet {
    pub items: Vec<Item>,
    pub sha: String,
}

/// `res` is the set of items `want`.
pub open spec fn is_set(res: Option<ItemSet>, want: Option<Seq<ItemView>>) -> bool {
    match want {
        Some(items) => res is Some && res->0.items.deep_view() == items && res->0.sha@
            == set_digest(items),
        None => res is None,
    }
}

/// What a snapshot of the X11 clipboard puts on the Wayland clipboard. `last` is the
/// digest of what was put there last.
pub fn to_wayland_of(snap: X11Snapshot, last: Option<&str>) -> (res: Option<ItemSet>)
    ensures
        is_set(res, to_wayland(snap@, opt_str(last))),
{
    let ghost all = snap.items.deep_view();
    if snap.marked_from_wayland {
        return None;
    }
    let mut items: Vec<Item> = Vec::new();
    items.push(Item::text(X11_SYNC_MARKER_MIME, "from=x11"));
    let ghost head = seq![marker_from_x11()];
    assert(items.deep_view() =~= head);
    let mut i: usize = 0;
    assert(all.take(0) =~= Seq::<ItemView>::empty());
    assert(head + content(all.take(0)) =~= head);
    while i < snap.items.len()
        invariant
            i <= snap.items@.len(),
            all == snap.items.deep_view(),
            all.len() == snap.items@.len(),
            head == seq![marker_from_x11()],
            items.deep_view() == head + content(all.take(i as int)),
        decreases snap.items@.len() - i,
    {
        let ghost next = all.take(i + 1);
        assert(next.drop_last() =~= all.take(i as int));
        assert(next.last() == snap.items@[i as int]@);
        let it = &snap.items[i];
        if it.bytes.len() > 0 && !same(it.mime.as_str(), X11_SYNC_MARKER_MIME) {
            let ghost before = items.deep_view();
            let copy = Item::new(it.mime.as_str(), it.bytes.as_slice());
            items.push(copy);
            assert(items.deep_view() =~= before.push(copy@));
            assert(items.deep_view() =~= head + content(next));
        }
        i += 1;
    }
    assert(all.take(i as int) =~= all);
    assert(items.deep_view().len() == items@.len());
    if items.len() == 1 {
        return None;
    }
    let sha = set_digest_of(&items);
    if let Some(l) = last {
        if same(l, sha.as_str()) {
            return None;
        }
    }
    Some(ItemSet { items, sha })
}

/// What is read while a clipboard's content is gathered: the types of lists of files,
/// then of images, then of text.
pub open spec fn is_image_step(step: nat) -> bool {
    3 <= step < 7
}

/// What was gathered of a clipboard so far. The first seven steps are for the three types
/// of lists of files and the four of images; the rest, up to `steps`, for text.
#[verifier::ext_equal]
pub struct GatherView {
    pub steps: nat,
    pub step: nat,
    pub files: Seq<(nat, Seq<u8>)>,
    pub image: Option<(nat, Seq<u8>)>,
    pub text: Option<Seq<u8>>,
}

/// The step is passed over: an image or a text has been found.
pub open spec fn is_passed(g: GatherView) -> bool {
    is_image_step(g.step) && g.image is Some || g.step >= 7 && g.text is Some
}

/// The next step to be done.
pub open spec fn settled(g: GatherView) -> GatherView
    decreases g.steps - g.step,
{
    if g.step < g.steps && is_passed(g) {
        settled(GatherView { step: g.step + 1, ..g })
    } else {
        g
    }
}

/// What was gathered after a step: content that is not empty is kept.
pub open spec fn gathered(g: GatherView, read: Option<Seq<u8>>) -> GatherView {
    let kept = if read is Some && read->0.len() > 0 {
        if g.step < 3 {
            GatherView { files: g.files.push((g.step, read->0)), ..g }
        } else if g.step < 7 {
            GatherView { image: Some((g.step, read->0)), ..g }
        } else {
            GatherView { text: Some(read->0), ..g }
        }
    } else {
        g
    };
    settled(GatherView { step: g.step + 1, ..kept })
}

/// What was gathered of a clipboard so far.
pub struct Gather {
    steps: usize,
    step: usize,
    files: Vec<(usize, Vec<u8>)>,
    image: Option<(usize, Vec<u8>)>,
    text: Option<Vec<u8>>,
}

/// What was gathered of lists of files.
spec fn files_view(f: Seq<(usize, Vec<u8>)>) -> Seq<(nat, Seq<u8>)> {
    Seq::new(f.len(), |i: int| (f[i].0 as nat, f[i].1@))
}

impl View for Gather {
    type V = GatherView;

    closed spec fn view(&self) -> GatherView {
        GatherView {
            steps: self.steps as nat,
            step: self.step as nat,
            files: files_view(self.files@),
            image: match self.image {
                Some(t) => Some((t.0 as nat, t.1@)),
                None => None,
            },
            text: crate::wire::opt_payload(self.text),
        }
    }
}

/// Nothing gathered.
pub open spec fn nothing_gathered(steps: nat) -> GatherView {
    GatherView { steps, step: 0, files: Seq::empty(), image: None, text: None }
}

impl Gather {
    /// Nothing gathered yet; `texts` types of text will be tried.
    pub fn new(texts: usize) -> (res: Gather)
        requires
            7 + texts <= usize::MAX,
        ensures
            res@ == nothing_gathered((7 + texts) as nat),
    {
        let res = Gather { steps: 7 + texts, step: 0, files: Vec::new(), image: None, text: None };
        assert(res@.files =~= Seq::<(nat, Seq<u8>)>::empty());
        res
    }

    /// The step to be done: the number of the type to be read. Nothing where all is done.
    pub fn wants(&self) -> (res: Option<usize>)
        ensures
            match res {
                Some(n) => self@.step == n && n < self@.steps,
                None => self@.step >= self@.steps,
            },
    {
        if self.step < self.steps {
            Some(self.step)
        } else {
            None
        }
    }

    /// Takes what was read for the step; nothing where the type is not on offer or could
    /// not be read.
    pub fn take(&mut self, read: Option<Vec<u8>>)
        requires
            old(self)@.step < old(self)@.steps,
        ensures
            final(self)@ == gathered(
                old(self)@,
                match read {
                    Some(b) => Some(b@),
                    None => None,
                },
            ),
    {
        let ghost start = self@;
        if let Some(b) = read {
            if b.len() > 0 {
                if self.step < 3 {
                    let ghost before = self.files@;
                    self.files.push((self.step, b));
                    assert(files_view(self.files@) =~= files_view(before).push(
                        (start.step, b@),
                    ));
                } else if self.step < 7 {
                    self.image = Some((self.step, b));
                } else {
                    self.text = Some(b);
                }
            }
        }
        self.step = self.step + 1;
        let ghost kept = self@;
        while self.step < self.steps && ((3 <= self.step && self.step < 7 && self.image.is_some())
            || (self.step >= 7 && self.text.is_some()))
            invariant
                settled(kept) == settled(self@),
            decreases self.steps - self.step,
        {
            let ghost before = self@;
            self.step = self.step + 1;
            assert(self@ == (GatherView { step: before.step + 1, ..before }));
        }
    }
}

/// What is gathered where reading the type of step `i` gives `reads[i]`, as far as it is
/// read.
pub open spec fn gather_run(g: GatherView, reads: Seq<Option<Seq<u8>>>) -> GatherView
    decreases g.steps - g.step,
{
    if g.step >= g.steps {
        g
    } else {
        let n = gathered(g, reads[g.step as int]);
        if g.step < n.step <= n.steps && n.steps == g.steps {
            gather_run(n, reads)
        } else {
            n
        }
    }
}

/// The reads of some steps that gave content, in order.
pub open spec fn full_reads(reads: Seq<Option<Seq<u8>>>, from: nat, to: nat) -> Seq<(nat, Seq<u8>)>
    decreases to,
{
    if to <= from {
        Seq::empty()
    } else {
        let before = full_reads(reads, from, (to - 1) as nat);
        let r = reads[to - 1];
        if r is Some && r->0.len() > 0 {
            before.push(((to - 1) as nat, r->0))
        } else {
            before
        }
    }
}

/// The first of them.
pub open spec fn first_read(reads: Seq<Option<Seq<u8>>>, from: nat, to: nat) -> Option<(
    nat,
    Seq<u8>,
)> {
    let f = full_reads(reads, from, to);
    if f.len() == 0 {
        None
    } else {
        Some(f[0])
    }
}

/// What holds of what was gathered before a step.
spec fn gather_inv(g: GatherView, reads: Seq<Option<Seq<u8>>>) -> bool {
    &&& g.step <= g.steps
    &&& g.files == full_reads(reads, 0, if g.step < 3 {
        g.step
    } else {
        3
    })
    &&& if g.step <= 3 {
        g.image is None
    } else if g.step < 7 {
        g.image is None && full_reads(reads, 3, g.step).len() == 0
    } else {
        g.image == first_read(reads, 3, 7)
    }
    &&& if g.step <= 7 {
        g.text is None
    } else if g.step < g.steps {
        g.text is None && full_reads(reads, 7, g.step).len() == 0
    } else {
        g.text == match first_read(reads, 7, g.steps) {
            Some(t) => Some(t.1),
            None => None,
        }
    }
}

/// More reads only add to what was read.
proof fn lemma_full_reads_grow(reads: Seq<Option<Seq<u8>>>, from: nat, mid: nat, to: nat)
    requires
        from <= mid <= to,
    ensures
        full_reads(reads, from, mid).len() <= full_reads(reads, from, to).len(),
        full_reads(reads, from, mid).len() > 0 ==> full_reads(reads, from, to)[0] == full_reads(
            reads,
            from,
            mid,
        )[0],
    decreases to,
{
    if mid < to {
        lemma_full_reads_grow(reads, from, mid, (to - 1) as nat);
    }
}

/// Once an image is found, the rest of the image steps are passed over; once a text is
/// found, the rest of the steps.
proof fn lemma_settled(g: GatherView, reads: Seq<Option<Seq<u8>>>)
    requires
        g.steps >= 7,
        0 < g.step <= g.steps,
        g.files == full_reads(reads, 0, if g.step < 3 {
            g.step
        } else {
            3
        }),
        g.step <= 3 ==> g.image is None,
        3 < g.step <= 7 ==> g.image == first_read(reads, 3, g.step),
        g.step > 7 ==> g.image == first_read(reads, 3, 7),
        g.step <= 7 ==> g.text is None,
        g.step > 7 ==> g.text == match first_read(reads, 7, g.step) {
            Some(t) => Some(t.1),
            None => None,
        },
    ensures
        gather_inv(settled(g), reads),
        settled(g).step >= g.step,
        settled(g).steps == g.steps,
    decreases g.steps - g.step,
{
    if g.step < g.steps && is_passed(g) {
        let n = GatherView { step: g.step + 1, ..g };
        if g.step < 7 {
            lemma_full_reads_grow(reads, 3, g.step, g.step + 1);
        } else {
            lemma_full_reads_grow(reads, 7, g.step, g.step + 1);
        }
        lemma_settled(n, reads);
    }
}

proof fn lemma_gather(g: GatherView, reads: Seq<Option<Seq<u8>>>)
    requires
        g.steps >= 7,
        gather_inv(g, reads),
    ensures
        gather_inv(gather_run(g, reads), reads),
        gather_run(g, reads).step == g.steps,
        gather_run(g, reads).steps == g.steps,
    decreases g.steps - g.step,
{
    if g.step < g.steps {
        let r = reads[g.step as int];
        let kept = if r is Some && r->0.len() > 0 {
            if g.step < 3 {
                GatherView { files: g.files.push((g.step, r->0)), ..g }
            } else if g.step < 7 {
                GatherView { image: Some((g.step, r->0)), ..g }
            } else {
                GatherView { text: Some(r->0), ..g }
            }
        } else {
            g
        };
        let n = GatherView { step: g.step + 1, ..kept };
        if g.step == 3 {
            assert(full_reads(reads, 3, 3).len() == 0);
        }
        if g.step == 7 {
            assert(full_reads(reads, 7, 7).len() == 0);
        }
        assert(full_reads(reads, 0, 0).len() == 0);
        lemma_settled(n, reads);
        lemma_gather(gathered(g, r), reads);
    }
}

/// Of a clipboard, all lists of files are gathered that have content, and the first image
/// and the first text that have content.
pub proof fn law_gather_is_complete(steps: nat, reads: Seq<Option<Seq<u8>>>)
    requires
        steps >= 7,
    ensures
        ({
            let g = gather_run(nothing_gathered(steps), reads);
            &&& g.step == steps
            &&& g.files == full_reads(reads, 0, 3)
            &&& g.image == first_read(reads, 3, 7)
            &&& g.text == match first_read(reads, 7, steps) {
                Some(t) => Some(t.1),
                None => None,
            }
        }),
{
    assert(full_reads(reads, 0, 0) =~= Seq::<(nat, Seq<u8>)>::empty());
    assert(full_reads(reads, 7, 7).len() == 0);
    lemma_gather(nothing_gathered(steps), reads);
}

/// The side whose clipboard is read.
#[derive(Clone, Copy, Debug, PartialEq, Eq, Structural)]
pub enum Side {
    X11,
    Wayland,
}

/// How many types of text are tried on a side.
pub open spec fn texts(side: Side) -> nat {
    match side {
        Side::X11 => 4,
        Side::Wayland => 2,
    }
}

/// How many types of text are tried on a side.
pub fn texts_of(side: Side) -> (res: usize)
    ensures
        res == texts(side),
        res <= 8,
{
    match side {
        Side::X11 => 4,
        Side::Wayland => 2,
    }
}

/// The type that is read in a step.
pub open spec fn step_type(side: Side, step: nat) -> Seq<char> {
    if step == 0 {
        URI_LIST_MIME@
    } else if step == 1 {
        KDE_URI_LIST_MIME@
    } else if step == 2 {
        GNOME_COPIED_FILES_MIME@
    } else if step == 3 {
        "image/png"@
    } else if step == 4 {
        "image/jpeg"@
    } else if step == 5 {
        "image/gif"@
    } else if step == 6 {
        "image/webp"@
    } else {
        match side {
            Side::X11 => if step == 7 {
                "UTF8_STRING"@
            } else if step == 8 {
                TEXT_MIME@
            } else if step == 9 {
                "text/plain"@
            } else {
                "STRING"@
            },
            Side::Wayland => if step == 7 {
                TEXT_MIME@
            } else {
                "text/plain"@
            },
        }
    }
}

/// The type that is read in a step.
pub fn step_type_of(side: Side, step: usize) -> (res: &'static str)
    ensures
        res@ == step_type(side, step as nat),
{
    if step == 0 {
        URI_LIST_MIME
    } else if step == 1 {
        KDE_URI_LIST_MIME
    } else if step == 2 {
        GNOME_COPIED_FILES_MIME
    } else if step == 3 {
        "image/png"
    } else if step == 4 {
        "image/jpeg"
    } else if step == 5 {
        "image/gif"
    } else if step == 6 {
        "image/webp"
    } else {
        match side {
            Side::X11 => if step == 7 {
                "UTF8_STRING"
            } else if step == 8 {
                TEXT_MIME
            } else if step == 9 {
                "text/plain"
            } else {
                "STRING"
            },
            Side::Wayland => if step == 7 {
                TEXT_MIME
            } else {
                "text/plain"
            },
        }
    }
}

/// The items of what was read: its type and content for each read.
pub open spec fn read_items(side: Side, reads: Seq<(nat, Seq<u8>)>) -> Seq<ItemView> {
    reads.map_values(|r: (nat, Seq<u8>)| item(step_type(side, r.0), r.1))
}

/// The lists of files and the image that were gathered.
pub open spec fn file_and_image(side: Side, g: GatherView) -> Seq<ItemView> {
    read_items(side, g.files) + match g.image {
        Some(i) => seq![item(step_type(side, i.0), i.1)],
        None => Seq::empty(),
    }
}

/// Some line is the address of a file.
pub open spec fn names_files(s: Seq<char>) -> bool {
    exists|i: int|
        0 <= i < lines_of(s).len() && "file:/"@.is_prefix_of(trimmed(#[trigger] lines_of(s)[i]))
}

/// Some line is the address of a file.
pub fn looks_like_file_uri_list_text(s: &str) -> (res: bool)
    ensures
        res == names_files(s@),
{
    let ls = lines(s);
    assert(ls.deep_view().len() == ls@.len());
    let mut i: usize = 0;
    while i < ls.len()
        invariant
            i <= ls@.len(),
            ls.deep_view() == lines_of(s@),
            ls.deep_view().len() == ls@.len(),
            forall|j: int|
                0 <= j < i ==> !"file:/"@.is_prefix_of(trimmed(#[trigger] lines_of(s@)[j])),
        decreases ls@.len() - i,
    {
        assert(ls.deep_view()[i as int] == ls@[i as int]@);
        if starts_with(trim(ls[i].as_str()), "file:/") {
            return true;
        }
        i += 1;
    }
    false
}

/// The items of a snapshot of the X11 clipboard: what was gathered, the text under both of
/// its Wayland types, and as a list of files too where it names files and there is no such
/// list.
pub open spec fn snapshot_items(g: GatherView) -> Seq<ItemView> {
    file_and_image(Side::X11, g) + match g.text {
        Some(t) => seq![item(TEXT_MIME@, t), item("text/plain"@, t)] + if g.files.len() == 0
            && names_files(lossy(t)) {
            seq![item(URI_LIST_MIME@, t)]
        } else {
            Seq::empty()
        },
        None => Seq::empty(),
    }
}

/// The items that go to X11: the marker, what was gathered, and the text under the types
/// that X11 programs know.
pub open spec fn x11_items(g: GatherView) -> Seq<ItemView> {
    seq![marker_from_wl()] + file_and_image(Side::Wayland, g) + match g.text {
        Some(t) => seq![
            item("UTF8_STRING"@, t),
            item("STRING"@, t),
            item(TEXT_MIME@, t),
            item("text/plain"@, t),
        ],
        None => Seq::empty(),
    }
}

/// What the Wayland clipboard puts on the X11 clipboard: nothing where it holds no
/// content, or where it is what was put there last.
pub open spec fn to_x11(g: GatherView, last: Option<Seq<char>>) -> Option<Seq<ItemView>> {
    let items = x11_items(g);
    if items.len() <= 1 || last == Some(set_digest(items)) {
        None
    } else {
        Some(items)
    }
}

impl Gather {
    /// Adds the lists of files and the image that were gathered.
    fn push_file_and_image(&self, side: Side, items: &mut Vec<Item>)
        ensures
            final(items).deep_view() == old(items).deep_view() + file_and_image(side, self@),
    {
        let ghost start = items.deep_view();
        let ghost all = read_items(side, self@.files);
        let mut i: usize = 0;
        assert(start + all.take(0) =~= start);
        while i < self.files.len()
            invariant
                i <= self.files@.len(),
                all == read_items(side, self@.files),
                all.len() == self.files@.len(),
                items.deep_view() == start + all.take(i as int),
            decreases self.files@.len() - i,
        {
            let ghost before = items.deep_view();
            let it = Item::new(step_type_of(side, self.files[i].0), self.files[i].1.as_slice());
            assert(self@.files[i as int] == (self.files@[i as int].0 as nat, self.files@[i as int].1@));
            assert(it@ == all[i as int]);
            items.push(it);
            assert(items.deep_view() =~= before.push(it@));
            assert(all.take(i + 1) =~= all.take(i as int).push(all[i as int]));
            assert(items.deep_view() =~= start + all.take(i + 1));
            i += 1;
        }
        assert(all.take(i as int) =~= all);
        match &self.image {
            Some(t) => {
                let ghost before = items.deep_view();
                let it = Item::new(step_type_of(side, t.0), t.1.as_slice());
                items.push(it);
                assert(items.deep_view() =~= before.push(it@));
            },
            None => {},
        }
        assert(items.deep_view() =~= start + file_and_image(side, self@));
    }

    /// The snapshot of the X11 clipboard.
    pub fn snapshot(&self, marked_from_wayland: bool) -> (res: X11Snapshot)
        ensures
            res@ == (SnapshotView { marked_from_wayland, items: snapshot_items(self@) }),
    {
        let mut items: Vec<Item> = Vec::new();
        self.push_file_and_image(Side::X11, &mut items);
        let ghost head = items.deep_view();
        assert(head =~= file_and_image(Side::X11, self@));
        match &self.text {
            Some(t) => {
                let a = Item::new(TEXT_MIME, t.as_slice());
                let b = Item::new("text/plain", t.as_slice());
                items.push(a);
                items.push(b);
                assert(items.deep_view() =~= head.push(a@).push(b@));
                let ghost two = items.deep_view();
                if self.files.len() == 0 {
                    let s = lossy_text(t.as_slice());
                    if looks_like_file_uri_list_text(s.as_str()) {
                        let c = Item::new(URI_LIST_MIME, t.as_slice());
                        items.push(c);
                        assert(items.deep_view() =~= two.push(c@));
                    }
                }
            },
            None => {},
        }
        assert(items.deep_view() =~= snapshot_items(self@));
        X11Snapshot { marked_from_wayland, items }
    }

    /// What the Wayland clipboard puts on the X11 clipboard. `last` is the digest of what
    /// was put there last.
    pub fn to_x11_of(&self, last: Option<&str>) -> (res: Option<ItemSet>)
        ensures
            is_set(res, to_x11(self@, opt_str(last))),
    {
        let mut items: Vec<Item> = Vec::new();
        items.push(Item::text(X11_SYNC_MARKER_MIME, "from=wl"));
        assert(items.deep_view() =~= seq![marker_from_wl()]);
        self.push_file_and_image(Side::Wayland, &mut items);
        let ghost head = items.deep_view();
        match &self.text {
            Some(t) => {
                let a = Item::new("UTF8_STRING", t.as_slice());
                let b = Item::new("STRING", t.as_slice());
                let c = Item::new(TEXT_MIME, t.as_slice());
                let d = Item::new("text/plain", t.as_slice());
                items.push(a);
                items.push(b);
                items.push(c);
                items.push(d);
                assert(items.deep_view() =~= head.push(a@).push(b@).push(c@).push(d@));
            },
            None => {},
        }
        assert(items.deep_view() =~= x11_items(self@));
        assert(items.deep_view().len() == items@.len());
        if items.len() <= 1 {
            return None;
        }
        let sha = set_digest_of(&items);
        if let Some(l) = last {
            if same(l, sha.as_str()) {
                return None;
            }
        }
        Some(ItemSet { items, sha })
    }
}

/// A clipboard's marker says where its content came from. Where the marker is offered but
/// cannot be read, it is taken to say so, so that content does not go round in a circle.
pub open spec fn says_from(offered: bool, payload: Option<Seq<u8>>, from: Seq<char>) -> bool {
    offered && match payload {
        Some(b) => vstd::utf8::encode_utf8(from).is_prefix_of(b),
        None => true,
    }
}

/// Whether a clipboard's marker says that its content came from a side.
pub fn marker_says(offered: bool, payload: Option<&[u8]>, from: &str) -> (res: bool)
    ensures
        res == says_from(
            offered,
            match payload {
                Some(b) => Some(b@),
                None => None,
            },
            from@,
        ),
{
    if !offered {
        return false;
    }
    match payload {
        Some(b) => crate::bytes::starts_with(b, from.as_bytes()),
        None => true,
    }
}

/// Whether the content of the Wayland clipboard came from X11, given its list of types and
/// the marker's payload.
pub fn wl_marker_origin_is_x11(types: &str, payload: Option<&[u8]>) -> (res: bool)
    ensures
        res == says_from(
            crate::text::has_line(types@, X11_SYNC_MARKER_MIME@),
            match payload {
                Some(b) => Some(b@),
                None => None,
            },
            "from=x11"@,
        ),
{
    marker_says(any_line(types, X11_SYNC_MARKER_MIME), payload, "from=x11")
}

/// What is brought from X11 to Wayland is marked so, and is not brought back.
pub proof fn law_x11_content_is_not_brought_back(s: SnapshotView, last: Option<Seq<char>>)
    requires
        to_wayland(s, last) is Some,
    ensures
        ({
            let items = to_wayland(s, last)->0;
            &&& items[0].mime == X11_SYNC_MARKER_MIME@
            &&& says_from(true, Some(items[0].bytes), "from=x11"@)
        }),
{
    let items = to_wayland(s, last)->0;
    assert(items[0] == marker_from_x11());
}

/// What is brought from Wayland to X11 is marked so, and is not brought back.
pub proof fn law_wayland_content_is_not_brought_back(
    g: GatherView,
    last: Option<Seq<char>>,
    items: Seq<ItemView>,
    before: Option<Seq<char>>,
)
    requires
        to_x11(g, last) is Some,
    ensures
        to_x11(g, last)->0[0].mime == X11_SYNC_MARKER_MIME@,
        to_wayland(
            SnapshotView {
                marked_from_wayland: says_from(
                    true,
                    Some(to_x11(g, last)->0[0].bytes),
                    "from=wl"@,
                ),
                items,
            },
            before,
        ) is None,
{
    assert(to_x11(g, last)->0[0] == marker_from_wl());
}

/// Content that is brought to Wayland is never empty, and is marked once.
pub proof fn law_wayland_gets_content(s: SnapshotView, last: Option<Seq<char>>, i: int)
    requires
        to_wayland(s, last) is Some,
        1 <= i < to_wayland(s, last)->0.len(),
    ensures
        to_wayland(s, last)->0[i].bytes.len() > 0,
        to_wayland(s, last)->0[i].mime != X11_SYNC_MARKER_MIME@,
        to_wayland(s, last)->0.len() >= 2,
{
    lemma_content(s.items, i - 1);
}

proof fn lemma_content(items: Seq<ItemView>, i: int)
    requires
        0 <= i < content(items).len(),
    ensures
        content(items)[i].bytes.len() > 0,
        content(items)[i].mime != X11_SYNC_MARKER_MIME@,
    decreases items.len(),
{
    let before = content(items.drop_last());
    if i < before.len() {
        lemma_content(items.drop_last(), i);
    }
}

/// Content that was brought to Wayland is not brought there a second time in a row.
pub proof fn law_same_content_is_brought_once(s: SnapshotView, last: Option<Seq<char>>)
    requires
        to_wayland(s, last) is Some,
    ensures
        to_wayland(s, Some(set_digest(to_wayland(s, last)->0))) is None,
{
}

/// No two items of a snapshot have the same type, and neither have two items that go to
/// X11.
pub proof fn law_types_are_distinct(steps: nat, reads: Seq<Option<Seq<u8>>>)
    requires
        steps >= 7,
    ensures
        ({
            let g = gather_run(nothing_gathered(steps), reads);
            &&& distinct_types(snapshot_items(g))
            &&& distinct_types(x11_items(g))
        }),
{
    law_gather_is_complete(steps, reads);
    let g = gather_run(nothing_gathered(steps), reads);
    lemma_full_reads_ordered(reads, 0, 3);
    lemma_full_reads_ordered(reads, 3, 7);
    lemma_type_names();
    let a = snapshot_items(g);
    let b = x11_items(g);
    let n = g.files.len() as int;
    assert(n <= 3);
    assert forall|i: int, j: int| 0 <= i < j < a.len() implies a[i].mime != a[j].mime by {
        if i < n {
            assert(a[i].mime == step_type(Side::X11, g.files[i].0));
        }
        if j < n {
            assert(a[j].mime == step_type(Side::X11, g.files[j].0));
        }
    }
    assert forall|i: int, j: int| 0 <= i < j < b.len() implies b[i].mime != b[j].mime by {
        if 1 <= i <= n {
            assert(b[i].mime == step_type(Side::Wayland, g.files[i - 1].0));
        }
        if 1 <= j <= n {
            assert(b[j].mime == step_type(Side::Wayland, g.files[j - 1].0));
        }
    }
}

/// No two items have the same type.
pub open spec fn distinct_types(items: Seq<ItemView>) -> bool {
    forall|i: int, j: int|
        0 <= i < j < items.len() ==> (#[trigger] items[i]).mime != (#[trigger] items[j]).mime
}

/// Reads stand in the order of their steps.
proof fn lemma_full_reads_ordered(reads: Seq<Option<Seq<u8>>>, from: nat, to: nat)
    ensures
        ({
            let f = full_reads(reads, from, to);
            &&& f.len() <= to - from || f.len() == 0
            &&& forall|i: int| 0 <= i < f.len() ==> from <= (#[trigger] f[i]).0 < to
            &&& forall|i: int, j: int|
                0 <= i < j < f.len() ==> (#[trigger] f[i]).0 < (#[trigger] f[j]).0
        }),
    decreases to,
{
    if to > from {
        lemma_full_reads_ordered(reads, from, (to - 1) as nat);
    }
}

/// The types' names differ.
proof fn lemma_type_names()
    ensures
        forall|i: nat, j: nat, a: Side|
            i < j < 7 ==> #[trigger] step_type(a, i) != #[trigger] step_type(a, j),
        forall|i: nat, a: Side|
            i < 7 ==> {
                let t = #[trigger] step_type(a, i);
                &&& t != TEXT_MIME@
                &&& t != "text/plain"@
                &&& t != "STRING"@
                &&& t != "UTF8_STRING"@
                &&& t != X11_SYNC_MARKER_MIME@
            },
        forall|i: nat, a: Side| 3 <= i < 7 ==> #[trigger] step_type(a, i) != URI_LIST_MIME@,
        TEXT_MIME@ != "text/plain"@,
        TEXT_MIME@ != "STRING"@,
        TEXT_MIME@ != "UTF8_STRING"@,
        TEXT_MIME@ != URI_LIST_MIME@,
        TEXT_MIME@ != X11_SYNC_MARKER_MIME@,
        "text/plain"@ != "STRING"@,
        "text/plain"@ != "UTF8_STRING"@,
        "text/plain"@ != URI_LIST_MIME@,
        "text/plain"@ != X11_SYNC_MARKER_MIME@,
        "STRING"@ != "UTF8_STRING"@,
        "STRING"@ != X11_SYNC_MARKER_MIME@,
        "UTF8_STRING"@ != X11_SYNC_MARKER_MIME@,
{
    reveal_strlit("text/uri-list");
    reveal_strlit("application/x-kde4-urilist");
    reveal_strlit("x-special/gnome-copied-files");
    reveal_strlit("image/png");
    reveal_strlit("image/jpeg");
    reveal_strlit("image/gif");
    reveal_strlit("image/webp");
    reveal_strlit("text/plain;charset=utf-8");
    reveal_strlit("text/plain");
    reveal_strlit("STRING");
    reveal_strlit("UTF8_STRING");
    reveal_strlit("application/x-multicliprelay-x11-sync");
    assert("image/png"@[6] == 'p');
    assert("image/jpeg"@[6] == 'j');
    assert("image/gif"@[6] == 'g');
    assert("image/webp"@[6] == 'w');
    assert("text/uri-list"@[0] == 't');
    assert("STRING"@[0] == 'S');
    assert("UTF8_STRING"@[0] == 'U');
    assert("image/png"@[0] == 'i');
    assert("image/jpeg"@[0] == 'i');
    assert("image/gif"@[0] == 'i');
    assert("image/webp"@[0] == 'i');
    assert("application/x-kde4-urilist"@[0] == 'a');
    assert("x-special/gnome-copied-files"@[0] == 'x');
    assert("application/x-multicliprelay-x11-sync"@[0] == 'a');
    assert("text/plain"@[0] == 't');
    assert("text/plain;charset=utf-8"@[0] == 't');
    assert("text/plain"@.len() == 10);
    assert("text/plain;charset=utf-8"@.len() == 24);
    assert("text/uri-list"@.len() == 13);
    assert("application/x-kde4-urilist"@.len() == 26);
    assert("application/x-multicliprelay-x11-sync"@.len() == 37);
}

/// What reading a clipboard gives in each step, where it holds the given content for some types.
pub open spec fn reads_of(side: Side, held: Map<Seq<char>, Seq<u8>>) -> Seq<Option<Seq<u8>>> {
    Seq::new(
        7 + texts(side),
        |i: int|
            if held.contains_key(step_type(side, i as nat)) {
                Some(held[step_type(side, i as nat)])
            } else {
                None
            },
    )
}

/// What is gathered of a clipboard.
pub open spec fn gathered_of(side: Side, held: Map<Seq<char>, Seq<u8>>) -> GatherView {
    gather_run(nothing_gathered(7 + texts(side)), reads_of(side, held))
}

/// The clipboard holds content of the type.
pub open spec fn holds_some(held: Map<Seq<char>, Seq<u8>>, mime: Seq<char>) -> bool {
    held.contains_key(mime) && held[mime].len() > 0
}

/// One of the items has the type and the content.
pub open spec fn carries(items: Seq<ItemView>, mime: Seq<char>, bytes: Seq<u8>) -> bool {
    exists|i: int|
        0 <= i < items.len() && (#[trigger] items[i]).mime == mime && items[i].bytes == bytes
}

/// The content of the first of four types that the clipboard holds.
pub open spec fn first_held(
    held: Map<Seq<char>, Seq<u8>>,
    a: Seq<char>,
    b: Seq<char>,
    c: Seq<char>,
    d: Seq<char>,
) -> Option<Seq<char>> {
    if holds_some(held, a) {
        Some(a)
    } else if holds_some(held, b) {
        Some(b)
    } else if holds_some(held, c) {
        Some(c)
    } else if holds_some(held, d) {
        Some(d)
    } else {
        None
    }
}

/// The type of the image that is carried over: the first that the clipboard holds.
pub open spec fn held_image(held: Map<Seq<char>, Seq<u8>>) -> Option<Seq<char>> {
    first_held(held, "image/png"@, "image/jpeg"@, "image/gif"@, "image/webp"@)
}

/// The type of the text that is carried over.
pub open spec fn held_text(side: Side, held: Map<Seq<char>, Seq<u8>>) -> Option<Seq<char>> {
    match side {
        Side::X11 => first_held(
            held,
            "UTF8_STRING"@,
            "text/plain;charset=utf-8"@,
            "text/plain"@,
            "STRING"@,
        ),
        Side::Wayland => first_held(
            held,
            "text/plain;charset=utf-8"@,
            "text/plain"@,
            "text/plain"@,
            "text/plain"@,
        ),
    }
}

/// A type of lists of files that is carried over.
pub open spec fn is_list_name(m: Seq<char>) -> bool {
    m == "text/uri-list"@ || m == "application/x-kde4-urilist"@ || m
        == "x-special/gnome-copied-files"@
}

proof fn lemma_gathered_of(side: Side, held: Map<Seq<char>, Seq<u8>>)
    ensures
        ({
            let g = gathered_of(side, held);
            &&& g.image matches Some(i) ==> held_image(held) == Some(step_type(side, i.0)) && i.1
                == held[held_image(held)->0]
            &&& g.image is None ==> held_image(held) is None
            &&& g.text matches Some(t) ==> held_text(side, held) is Some && t == held[held_text(
                side,
                held,
            )->0]
            &&& g.text is None ==> held_text(side, held) is None
            &&& forall|m: Seq<char>| #[trigger]
                is_list_name(m) && holds_some(held, m) ==> carries(
                    read_items(side, g.files),
                    m,
                    held[m],
                )
            &&& forall|i: int|
                0 <= i < g.files.len() ==> is_list_name(
                    step_type(side, (#[trigger] g.files[i]).0),
                ) && holds_some(held, step_type(side, g.files[i].0)) && g.files[i].1
                    == held[step_type(side, g.files[i].0)]
        }),
{
    let n = 7 + texts(side);
    let reads = reads_of(side, held);
    let g = gathered_of(side, held);
    law_gather_is_complete(n, reads);
    reveal_with_fuel(full_reads, 5);
    let f0 = full_reads(reads, 0, 0);
    assert(f0 =~= Seq::<(nat, Seq<u8>)>::empty());
    let items = read_items(side, g.files);
    assert(items.len() == g.files.len());
    assert(g.files == full_reads(reads, 0, 3));
    let f1 = full_reads(reads, 0, 1);
    let f2 = full_reads(reads, 0, 2);
    if holds_some(held, "text/uri-list"@) {
        assert(f1[0] == (0nat, held["text/uri-list"@]));
        assert(f2[0] == f1[0]);
        assert(g.files[0] == f1[0]);
        assert(items[0].mime == "text/uri-list"@ && items[0].bytes == held["text/uri-list"@]);
    }
    if holds_some(held, "application/x-kde4-urilist"@) {
        let k = f1.len() as int;
        assert(f2[k] == (1nat, held["application/x-kde4-urilist"@]));
        assert(g.files[k] == f2[k]);
        assert(items[k].mime == "application/x-kde4-urilist"@ && items[k].bytes
            == held["application/x-kde4-urilist"@]);
    }
    if holds_some(held, "x-special/gnome-copied-files"@) {
        let k = f2.len() as int;
        assert(g.files[k] == (2nat, held["x-special/gnome-copied-files"@]));
        assert(items[k].mime == "x-special/gnome-copied-files"@ && items[k].bytes
            == held["x-special/gnome-copied-files"@]);
    }
    assert forall|i: int| 0 <= i < g.files.len() implies is_list_name(
        step_type(side, (#[trigger] g.files[i]).0),
    ) && holds_some(held, step_type(side, g.files[i].0)) && g.files[i].1 == held[step_type(
        side,
        g.files[i].0,
    )] by {
        lemma_full_reads_held(side, held, 0, 3, i);
        lemma_full_reads_ordered(reads, 0, 3);
    }
}

proof fn lemma_full_reads_held(
    side: Side,
    held: Map<Seq<char>, Seq<u8>>,
    from: nat,
    to: nat,
    i: int,
)
    requires
        to <= 7 + texts(side),
        0 <= i < full_reads(reads_of(side, held), from, to).len(),
    ensures
        ({
            let r = full_reads(reads_of(side, held), from, to)[i];
            holds_some(held, step_type(side, r.0)) && r.1 == held[step_type(side, r.0)]
        }),
    decreases to,
{
    if to > from {
        let before = full_reads(reads_of(side, held), from, (to - 1) as nat);
        if i < before.len() {
            lemma_full_reads_held(side, held, from, (to - 1) as nat, i);
        }
    }
}

/// What the Wayland clipboard holds is put on the X11 clipboard as it is: every list of files
/// and the first image under their own types, and the text under each of the four types that
/// X11 programs ask for. Nothing else is put there but the marker.
pub proof fn law_wayland_content_reaches_x11(
    held: Map<Seq<char>, Seq<u8>>,
    last: Option<Seq<char>>,
    list: Seq<char>,
    i: int,
)
    ensures
        ({
            let items = x11_items(gathered_of(Side::Wayland, held));
            let image = held_image(held);
            let text = held_text(Side::Wayland, held);
            &&& is_list_name(list) && holds_some(held, list) ==> carries(items, list, held[list])
            &&& image is Some ==> carries(items, image->0, held[image->0])
            &&& text is Some ==> {
                let t = held[text->0];
                &&& carries(items, "UTF8_STRING"@, t)
                &&& carries(items, "STRING"@, t)
                &&& carries(items, "text/plain;charset=utf-8"@, t)
                &&& carries(items, "text/plain"@, t)
            }
            &&& items[0].mime == "application/x-multicliprelay-x11-sync"@
            &&& items[0].bytes == vstd::utf8::encode_utf8("from=wl"@)
            &&& 1 <= i < items.len() ==> {
                ||| is_list_name(items[i].mime) && holds_some(held, items[i].mime) && items[i].bytes
                    == held[items[i].mime]
                ||| image == Some(items[i].mime) && items[i].bytes == held[items[i].mime]
                ||| text is Some && items[i].bytes == held[text->0] && (items[i].mime
                    == "UTF8_STRING"@ || items[i].mime == "STRING"@ || items[i].mime
                    == "text/plain;charset=utf-8"@ || items[i].mime == "text/plain"@)
            }
            &&& ((is_list_name(list) && holds_some(held, list)) || image is Some || text is Some)
                && last != Some(set_digest(items)) ==> to_x11(
                gathered_of(Side::Wayland, held),
                last,
            ) == Some(items)
            &&& image is None && text is None && !holds_some(held, "text/uri-list"@) && !holds_some(
                held,
                "application/x-kde4-urilist"@,
            ) && !holds_some(held, "x-special/gnome-copied-files"@) ==> to_x11(
                gathered_of(Side::Wayland, held),
                last,
            ) is None
        }),
{
    let g = gathered_of(Side::Wayland, held);
    lemma_gathered_of(Side::Wayland, held);
    let items = x11_items(g);
    let files = read_items(Side::Wayland, g.files);
    let n = g.files.len() as int;
    let m = n + 1 + if g.image is Some {
        1int
    } else {
        0int
    };
    if is_list_name(list) && holds_some(held, list) {
        assert(carries(files, list, held[list]));
        let k = choose|k: int|
            0 <= k < files.len() && (#[trigger] files[k]).mime == list && files[k].bytes
                == held[list];
        assert(items[k + 1] == files[k]);
    }
    if g.image is Some {
        assert(items[n + 1].mime == held_image(held)->0);
    }
    if g.text is Some {
        assert(items[m].mime == "UTF8_STRING"@);
        assert(items[m + 1].mime == "STRING"@);
        assert(items[m + 2].mime == "text/plain;charset=utf-8"@);
        assert(items[m + 3].mime == "text/plain"@);
    }
    if 1 <= i <= n {
        assert(items[i] == files[i - 1]);
        assert(g.files[i - 1].1 == items[i].bytes);
    }
    if n > 0 {
        assert(is_list_name(step_type(Side::Wayland, g.files[0].0)));
    }
}

/// Content that is not empty and not the sync's own marker is all kept.
proof fn lemma_content_is_all(items: Seq<ItemView>)
    requires
        forall|i: int|
            0 <= i < items.len() ==> (#[trigger] items[i]).bytes.len() > 0 && items[i].mime
                != X11_SYNC_MARKER_MIME@,
    ensures
        content(items) == items,
    decreases items.len(),
{
    if items.len() > 0 {
        let t = items.drop_last();
        assert forall|i: int| 0 <= i < t.len() implies (#[trigger] t[i]).bytes.len() > 0
            && t[i].mime != X11_SYNC_MARKER_MIME@ by {
            assert(t[i] == items[i]);
        }
        lemma_content_is_all(t);
        assert(items[items.len() - 1].bytes.len() > 0);
        assert(content(items) =~= items);
    } else {
        assert(content(items) =~= items);
    }
}

/// What the X11 clipboard holds is put on the Wayland clipboard as it is: every list of files
/// and the first image under their own types, and the text under both types of plain text;
/// text that names files counts as a list of files too where there is no other. Nothing else is
/// put there but the marker.
pub proof fn law_x11_content_reaches_wayland(
    held: Map<Seq<char>, Seq<u8>>,
    last: Option<Seq<char>>,
    list: Seq<char>,
    i: int,
)
    requires
        (is_list_name(list) && holds_some(held, list)) || held_image(held) is Some || held_text(
            Side::X11,
            held,
        ) is Some,
    ensures
        ({
            let snap = SnapshotView {
                marked_from_wayland: false,
                items: snapshot_items(gathered_of(Side::X11, held)),
            };
            let items = to_wayland(snap, None)->0;
            let image = held_image(held);
            let text = held_text(Side::X11, held);
            &&& to_wayland(snap, None) is Some
            &&& last != Some(set_digest(items)) ==> to_wayland(snap, last) == Some(items)
            &&& is_list_name(list) && holds_some(held, list) ==> carries(items, list, held[list])
            &&& image is Some ==> carries(items, image->0, held[image->0])
            &&& text is Some ==> {
                let t = held[text->0];
                &&& carries(items, "text/plain;charset=utf-8"@, t)
                &&& carries(items, "text/plain"@, t)
                &&& names_files(lossy(t)) && !holds_some(held, "text/uri-list"@) && !holds_some(
                    held,
                    "application/x-kde4-urilist"@,
                ) && !holds_some(held, "x-special/gnome-copied-files"@) ==> carries(
                    items,
                    "text/uri-list"@,
                    t,
                )
            }
            &&& items[0].mime == "application/x-multicliprelay-x11-sync"@
            &&& items[0].bytes == vstd::utf8::encode_utf8("from=x11"@)
            &&& 1 <= i < items.len() ==> {
                ||| is_list_name(items[i].mime) && holds_some(held, items[i].mime) && items[i].bytes
                    == held[items[i].mime]
                ||| image == Some(items[i].mime) && items[i].bytes == held[items[i].mime]
                ||| text is Some && items[i].bytes == held[text->0] && (items[i].mime
                    == "text/plain;charset=utf-8"@ || items[i].mime == "text/plain"@ || (
                items[i].mime == "text/uri-list"@ && names_files(lossy(held[text->0]))))
            }
        }),
{
    let g = gathered_of(Side::X11, held);
    lemma_gathered_of(Side::X11, held);
    lemma_type_names();
    let all = snapshot_items(g);
    let files = read_items(Side::X11, g.files);
    let n = g.files.len() as int;
    let m = n + if g.image is Some {
        1int
    } else {
        0int
    };
    law_gather_is_complete(7 + texts(Side::X11), reads_of(Side::X11, held));
    lemma_full_reads_ordered(reads_of(Side::X11, held), 0, 3);
    lemma_full_reads_ordered(reads_of(Side::X11, held), 3, 7);
    assert forall|k: int| 0 <= k < all.len() implies (#[trigger] all[k]).bytes.len() > 0
        && all[k].mime != X11_SYNC_MARKER_MIME@ by {
        if k < n {
            assert(all[k] == files[k]);
            assert(holds_some(held, step_type(Side::X11, g.files[k].0)));
        }
    }
    lemma_content_is_all(all);
    let snap = SnapshotView { marked_from_wayland: false, items: all };
    let items = seq![marker_from_x11()] + all;
    if is_list_name(list) && holds_some(held, list) {
        assert(carries(files, list, held[list]));
        let k = choose|k: int|
            0 <= k < files.len() && (#[trigger] files[k]).mime == list && files[k].bytes
                == held[list];
        assert(items[k + 1] == files[k]);
    }
    if g.image is Some {
        assert(items[n + 1].mime == held_image(held)->0);
    }
    if g.text is Some {
        assert(items[m + 1].mime == "text/plain;charset=utf-8"@);
        assert(items[m + 2].mime == "text/plain"@);
        if n == 0 && names_files(lossy(g.text->0)) {
            assert(items[m + 3].mime == "text/uri-list"@);
        }
    }
    if n > 0 {
        assert(is_list_name(step_type(Side::X11, g.files[0].0)));
    }
    if 1 <= i <= n {
        assert(items[i] == files[i - 1]);
        assert(g.files[i - 1].1 == items[i].bytes);
    }
    assert(to_wayland(snap, None) == Some(items));
}

/// Sets of items that have one digest are the same sets, unless two different contents have
/// one digest.
pub proof fn law_digest_tells_sets_apart(a: Seq<ItemView>, b: Seq<ItemView>)
    requires
        set_digest(a) == set_digest(b),
        a.len() > 0,
        b.len() > 0,
        forall|i: int| 0 <= i < a.len() ==> !(#[trigger] a[i]).mime.contains('\n'),
        forall|i: int| 0 <= i < b.len() ==> !(#[trigger] b[i]).mime.contains('\n'),
    ensures
        a == b || exists|x: Seq<u8>, y: Seq<u8>|
            x != y && #[trigger] sha256_text(x) == #[trigger] sha256_text(y),
{
    reveal_strlit("\n");
    assert("\n"@ =~= seq!['\n']);
    let la = a.map_values(|i: ItemView| digest_line(i));
    let lb = b.map_values(|i: ItemView| digest_line(i));
    let ta = crate::text::joined(la, seq!['\n']);
    let tb = crate::text::joined(lb, seq!['\n']);
    let x = vstd::utf8::encode_utf8(ta);
    let y = vstd::utf8::encode_utf8(tb);
    assert(sha256_text(x) == sha256_text(y));
    if x == y {
        vstd::utf8::encode_utf8_decode_utf8(ta);
        vstd::utf8::encode_utf8_decode_utf8(tb);
        assert(ta == tb);
        assert forall|i: int| 0 <= i < la.len() implies !(#[trigger] la[i]).contains('\n') by {
            lemma_digest_line(a[i]);
        }
        assert forall|i: int| 0 <= i < lb.len() implies !(#[trigger] lb[i]).contains('\n') by {
            lemma_digest_line(b[i]);
        }
        crate::text::law_joined_texts_are_taken_apart(la, '\n');
        crate::text::law_joined_texts_are_taken_apart(lb, '\n');
        assert(la == lb);
        assert(a.len() == b.len());
        assert forall|i: int| 0 <= i < a.len() implies (#[trigger] a[i]).mime == b[i].mime
            && sha256_text(a[i].bytes) == sha256_text(b[i].bytes) by {
            assert(la[i] == digest_line(a[i]));
            assert(lb[i] == digest_line(b[i]));
            lemma_digest_line_parts(a[i], b[i]);
        }
        if a != b {
            assert(exists|i: int| 0 <= i < a.len() && #[trigger] a[i] != b[i]) by {
                if forall|i: int| 0 <= i < a.len() ==> #[trigger] a[i] == b[i] {
                    assert(a =~= b);
                }
            }
            let i = choose|i: int| 0 <= i < a.len() && #[trigger] a[i] != b[i];
            assert(a[i].bytes != b[i].bytes);
            assert(sha256_text(a[i].bytes) == sha256_text(b[i].bytes));
        }
    }
}

proof fn lemma_no_sign_in_digest(b: Seq<u8>, c: char)
    requires
        c == ':' || c == '\n',
    ensures
        !sha256_text(b).contains(c),
{
    crate::hash::lemma_hex(crate::hash::sha256(b));
    let d = sha256_text(b);
    if d.contains(c) {
        let i = choose|i: int| 0 <= i < d.len() && d[i] == c;
        assert(crate::message::is_hex(d[i]));
    }
}

proof fn lemma_digest_line(it: ItemView)
    requires
        !it.mime.contains('\n'),
    ensures
        !digest_line(it).contains('\n'),
{
    reveal_strlit(":");
    let l = digest_line(it);
    let d = sha256_text(it.bytes);
    lemma_no_sign_in_digest(it.bytes, '\n');
    if l.contains('\n') {
        let i = choose|i: int| 0 <= i < l.len() && l[i] == '\n';
        if i < it.mime.len() {
            assert(it.mime[i] == '\n');
        } else if i > it.mime.len() {
            assert(d[i - it.mime.len() - 1] == '\n');
        }
    }
}

proof fn lemma_digest_line_parts(a: ItemView, b: ItemView)
    requires
        digest_line(a) == digest_line(b),
    ensures
        a.mime == b.mime,
        sha256_text(a.bytes) == sha256_text(b.bytes),
{
    reveal_strlit(":");
    assert(":"@ =~= seq![':']);
    lemma_no_sign_in_digest(a.bytes, ':');
    lemma_no_sign_in_digest(b.bytes, ':');
    lemma_last_sign(a.mime, sha256_text(a.bytes), b.mime, sha256_text(b.bytes), ':');
}

proof fn lemma_last_sign(a: Seq<char>, x: Seq<char>, b: Seq<char>, y: Seq<char>, c: char)
    requires
        a + seq![c] + x == b + seq![c] + y,
        !x.contains(c),
        !y.contains(c),
    ensures
        a == b,
        x == y,
{
    let l = a + seq![c] + x;
    let m = b + seq![c] + y;
    assert(l.len() == a.len() + 1 + x.len());
    assert(m.len() == b.len() + 1 + y.len());
    assert(l[a.len() as int] == c);
    assert(m[b.len() as int] == c);
    if a.len() < b.len() {
        assert(x[b.len() - a.len() - 1] == l[b.len() as int]);
    } else if b.len() < a.len() {
        assert(y[a.len() - b.len() - 1] == m[a.len() as int]);
    }
    assert(l.take(a.len() as int) =~= a);
    assert(m.take(b.len() as int) =~= b);
    assert(l.skip(a.len() as int + 1) =~= x);
    assert(m.skip(b.len() as int + 1) =~= y);
}

/// New content that does not come from the other side is brought there.
pub proof fn law_new_content_is_brought(s: SnapshotView, g: GatherView, last: Option<Seq<char>>)
    ensures
        !s.marked_from_wayland && content(s.items).len() > 0 && last is None ==> to_wayland(s, last)
            is Some,
        g.text is Some && last is None ==> to_x11(g, last) is Some,
        to_wayland(s, last) is None && !s.marked_from_wayland && content(s.items).len() > 0 ==> last
            == Some(set_digest(seq![marker_from_x11()] + content(s.items))),
        to_x11(g, last) is None && x11_items(g).len() > 1 ==> last == Some(
            set_digest(x11_items(g)),
        ),
{
}

/// A marker says from where content came by the start of its text; without a marker nothing is
/// said.
pub proof fn law_what_a_marker_says(from: Seq<char>, rest: Seq<u8>, other: Seq<u8>)
    ensures
        says_from(true, Some(vstd::utf8::encode_utf8(from) + rest), from),
        !says_from(false, Some(other), from),
        says_from(true, None, from),
        !vstd::utf8::encode_utf8(from).is_prefix_of(other) ==> !says_from(true, Some(other), from),
{
    let f = vstd::utf8::encode_utf8(from);
    let b = f + rest;
    assert(f =~= b.take(f.len() as int));
}

/// A text names files where one of its lines, without the white space around it, starts as the
/// address of a file does.
pub proof fn law_which_text_names_files(ls: Seq<Seq<char>>)
    requires
        forall|i: int|
            0 <= i < ls.len() ==> !(#[trigger] ls[i]).contains('\n') && (ls[i].len() > 0 ==> ls[i].last()
                != '\r'),
    ensures
        names_files(crate::text::ended_lines(ls)) <==> exists|i: int|
            0 <= i < ls.len() && "file:/"@.is_prefix_of(trimmed(#[trigger] ls[i])),
{
    crate::text::law_lines_are_read_back(ls, Seq::empty());
}

/// A task is allowed while fewer than the limit were allowed within the window, and counts from
/// then on.
pub proof fn law_allowed_tasks_count(s: SchedulerView, now: u128)
    ensures
        allowed(s, now) ==> asked(s, now).hits == recent(s.hits, now, s.window).push(now),
        !allowed(s, now) ==> asked(s, now).hits == recent(s.hits, now, s.window),
        asked(s, now).pending_x11 == s.pending_x11,
        asked(s, now).pending_wl == s.pending_wl,
        asked(s, now).max == s.max,
        asked(s, now).window == s.window,
        s.hits.len() == 0 && s.max > 0 ==> allowed(s, now),
{
}

/// No change is lost: it is taken up at once or waits, and what waits is taken up or waits on.
/// Only the newest state of the X11 clipboard waits.
pub proof fn law_no_change_is_lost(s: SchedulerView, snap: SnapshotView, now: u128)
    ensures
        ({
            let x = after_snapshot(s, snap, now);
            let w = after_wayland(s, now);
            let t = after_tick(s, now);
            &&& x.0 == TaskView::ToWayland(snap) && x.1.pending_x11 == s.pending_x11 || x.0 is Idle
                && x.1.pending_x11 == Some(snap)
            &&& x.1.pending_wl == s.pending_wl
            &&& w.0 is ToX11 && w.1.pending_wl == s.pending_wl || w.0 is Idle && w.1.pending_wl
            &&& w.1.pending_x11 == s.pending_x11
            &&& s.pending_x11 matches Some(p) ==> t.0 == TaskView::ToWayland(p)
                && t.1.pending_x11 is None || t.0 is Idle && t.1.pending_x11 == Some(p)
            &&& s.pending_x11 is Some ==> t.1.pending_wl == s.pending_wl
            &&& s.pending_x11 is None && s.pending_wl ==> t.0 is ToX11 && !t.1.pending_wl || t.0
                is Idle && t.1.pending_wl
            &&& s.pending_x11 is None && !s.pending_wl ==> t.0 is Idle && t.1 == s
        }),
{
}

/// Work is done as soon as the limit allows it; it is done only then, and each time counts.
pub proof fn law_work_is_done_when_allowed(s: SchedulerView, snap: SnapshotView, now: u128)
    ensures
        ({
            let x = after_snapshot(s, snap, now);
            let w = after_wayland(s, now);
            let t = after_tick(s, now);
            &&& allowed(s, now) <==> x.0 !is Idle
            &&& allowed(s, now) <==> w.0 !is Idle
            &&& allowed(s, now) && (s.pending_x11 is Some || s.pending_wl) <==> t.0 !is Idle
            &&& x.0 !is Idle ==> x.1.hits.len() > 0 && x.1.hits.last() == now
            &&& w.0 !is Idle ==> w.1.hits.len() > 0 && w.1.hits.last() == now
            &&& t.0 !is Idle ==> t.1.hits.len() > 0 && t.1.hits.last() == now
        }),
{
}

/// Fewer tasks so far than the limit hold no task back; as many as the limit, the first of them
/// within the window, do.
pub proof fn law_when_a_task_is_held_back(s: SchedulerView, now: u128)
    ensures
        s.hits.len() < s.max ==> allowed(s, now),
        s.hits.len() >= s.max && (s.hits.len() > 0 ==> 0 <= now - s.hits[0]
            < s.window) ==> !allowed(s, now),
{
    lemma_recent(s.hits, now, s.window);
}

/// Exactly the items that are to go over go over, with the digest of just these.
pub proof fn law_what_goes_over(res: Option<ItemSet>, want: Option<Seq<ItemView>>)
    ensures
        is_set(res, want) ==> (res is Some <==> want is Some),
        is_set(res, want) && want is Some ==> res->0.items.deep_view() == want->0 && res->0.sha@
            == set_digest(want->0),
        res is None && want is None ==> is_set(res, want),
{
}

/// What is read and not empty is kept under its step, and nothing that was kept before is lost;
/// reading nothing changes nothing that is kept. Each read leads on.
pub proof fn law_what_is_read_is_kept(g: GatherView, read: Option<Seq<u8>>)
    requires
        g.step < g.steps,
        g.step >= 7 ==> g.text is None,
    ensures
        ({
            let n = gathered(g, read);
            let full = read is Some && read->0.len() > 0;
            &&& g.step < n.step <= n.steps
            &&& n.steps == g.steps
            &&& g.files.is_prefix_of(n.files)
            &&& full && g.step < 3 ==> n.files.len() == g.files.len() + 1 && n.files.last() == (
                g.step,
                read->0,
            )
            &&& !(full && g.step < 3) ==> n.files == g.files
            &&& full && 3 <= g.step < 7 ==> n.image == Some((g.step, read->0))
            &&& !(full && 3 <= g.step < 7) ==> n.image == g.image
            &&& full && g.step >= 7 ==> n.text == Some(read->0)
            &&& !(full && g.step >= 7) ==> n.text == g.text
        }),
{
    let full = read is Some && read->0.len() > 0;
    let kept = if full {
        if g.step < 3 {
            GatherView { files: g.files.push((g.step, read->0)), ..g }
        } else if g.step < 7 {
            GatherView { image: Some((g.step, read->0)), ..g }
        } else {
            GatherView { text: Some(read->0), ..g }
        }
    } else {
        g
    };
    lemma_settled_keeps(GatherView { step: g.step + 1, ..kept });
    assert(g.files =~= gathered(g, read).files.take(g.files.len() as int));
}

/// Passing over steps loses nothing.
proof fn lemma_settled_keeps(g: GatherView)
    requires
        g.step <= g.steps,
    ensures
        ({
            let n = settled(g);
            n.files == g.files && n.image == g.image && n.text == g.text && n.steps == g.steps
                && g.step <= n.step <= g.steps
        }),
    decreases g.steps - g.step,
{
    if g.step < g.steps && is_passed(g) {
        lemma_settled_keeps(GatherView { step: g.step + 1, ..g });
    }
}

} // verus!
