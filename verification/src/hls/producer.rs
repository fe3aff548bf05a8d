//! The rules by which segment producers are started, followed, throttled and
//! reaped.
//!
//! A producer is one ffmpeg child that writes segments from some number on.
//! Requests for a region that a producer covers follow it; a request for another
//! region starts one more. A producer runs only as far ahead of the requests as the
//! look-ahead allows, and goes away when nobody asks for its segments any more.

use crate::hls::hwenc::HwEncoder;
use crate::text;
use vstd::prelude::*;

verus! {

/// How many segments past the one requested last ffmpeg may read ahead.
pub const LOOKAHEAD_BUFFER: u32 = 3;

/// How many segments past its head a producer is followed to.
pub const LOOKAHEAD_WINDOW: u32 = 8;

/// How many segments before the requested one ffmpeg starts.
pub const PREROLL_SEGMENTS: u32 = 1;

/// A producer without a request for this long is reaped.
pub const IDLE_TIMEOUT_MS: u64 = 30_000;

/// A request gives up after this long.
pub const SEGMENT_WAIT_TIMEOUT_MS: u64 = 60_000;

/// A leader whose head stands still this long, short of the wanted segment, is
/// given up.
pub const FOLLOWER_STALL_GRACE_MS: u64 = 1_500;

/// What a decision needs to know of a pooled producer.
#[derive(Debug, Clone, Copy, PartialEq, Eq, Structural)]
pub struct ProducerView {
    /// Tells producers apart.
    pub id: u64,
    /// The first segment that it delivers.
    pub start_idx: u32,
    /// The last segment up to which it has delivered without a gap.
    pub head: u32,
}

// ---- who serves a segment ----

/// A producer serves `idx` without a new seek: it lies at or behind its start and
/// not too far past its head.
pub open spec fn in_window(start_idx: u32, head: u32, idx: u32) -> bool {
    start_idx <= idx <= head + LOOKAHEAD_WINDOW
}

/// Whether a run that stands at `head` has made a segment or is about to.
pub fn covers(start_idx: u32, head: u32, idx: u32) -> (r: bool)
    ensures
        r == in_window(start_idx, head, idx),
{
    idx >= start_idx && idx <= head.saturating_add(LOOKAHEAD_WINDOW)
}

/// The producer covers `idx` and is not among those to skip.
pub open spec fn is_candidate(p: ProducerView, idx: u32, skip: Seq<u64>) -> bool {
    in_window(p.start_idx, p.head, idx) && !skip.contains(p.id)
}

/// `i` is the candidate furthest along, the last of them where several are.
pub open spec fn is_best_candidate(pool: Seq<ProducerView>, idx: u32, skip: Seq<u64>, i: int) -> bool {
    &&& 0 <= i < pool.len()
    &&& is_candidate(pool[i], idx, skip)
    &&& forall|j: int|
        0 <= j < pool.len() && is_candidate(#[trigger] pool[j], idx, skip) ==> pool[j].head
            < pool[i].head || (pool[j].head == pool[i].head && j <= i)
}

fn listed(v: &Vec<u64>, x: u64) -> (r: bool)
    ensures
        r == v@.contains(x),
{
    let mut i: usize = 0;
    while i < v.len()
        invariant
            i <= v@.len(),
            forall|j: int| 0 <= j < i ==> v@[j] != x,
        decreases v@.len() - i,
    {
        if v[i] == x {
            assert(v@[i as int] == x);
            return true;
        }
        i += 1;
    }
    false
}

/// The producer to follow for segment `idx`: of those that cover it and are not in
/// `skip`, the one furthest along.
pub fn pick_covering(pool: &Vec<ProducerView>, idx: u32, skip: &Vec<u64>) -> (r: Option<usize>)
    ensures
        match r {
            Some(i) => is_best_candidate(pool@, idx, skip@, i as int),
            None => forall|j: int|
                0 <= j < pool@.len() ==> !is_candidate(#[trigger] pool@[j], idx, skip@),
        },
{
    let mut best: Option<usize> = None;
    let mut i: usize = 0;
    while i < pool.len()
        invariant
            i <= pool@.len(),
            match best {
                Some(b) => b < i && is_best_candidate(pool@.take(i as int), idx, skip@, b as int),
                None => forall|j: int|
                    0 <= j < i ==> !is_candidate(#[trigger] pool@[j], idx, skip@),
            },
        decreases pool@.len() - i,
    {
        let p: ProducerView = pool[i];
        let ghost before = pool@.take(i as int);
        let ghost after = pool@.take(i + 1);
        proof {
            assert forall|j: int| 0 <= j < i implies #[trigger] after[j] == before[j] by {}
            assert forall|j: int| 0 <= j < i implies before[j] == #[trigger] pool@[j] by {}
            assert(after[i as int] == p);
        }
        if covers(p.start_idx, p.head, idx) && !listed(skip, p.id) {
            let take_it = match best {
                Some(b) => pool[b].head <= p.head,
                None => true,
            };
            if take_it {
                best = Some(i);
            }
        }
        proof {
            match best {
                Some(b) => {
                    assert(is_candidate(after[b as int], idx, skip@));
                    assert forall|j: int|
                        0 <= j < after.len() && is_candidate(
                            #[trigger] after[j],
                            idx,
                            skip@,
                        ) implies after[j].head < after[b as int].head || (after[j].head
                        == after[b as int].head && j <= b) by {
                        if j < i {
                            assert(is_candidate(before[j], idx, skip@));
                            assert(is_candidate(pool@[j], idx, skip@));
                        }
                    }
                },
                None => {},
            }
        }
        i += 1;
    }
    assert(pool@.take(i as int) =~= pool@);
    best
}

/// The furthest that a request for `idx` lets a producer run.
pub open spec fn pull_target(idx: u32, total: u32) -> int {
    if idx + LOOKAHEAD_BUFFER < total {
        idx + LOOKAHEAD_BUFFER
    } else {
        total as int
    }
}

/// The target of a producer that had one, after a request for `idx`.
pub open spec fn nudged(target_head: u32, idx: u32, total: u32) -> int {
    if target_head as int > pull_target(idx, total) {
        target_head as int
    } else {
        pull_target(idx, total)
    }
}

/// The new read-ahead target of a producer after a request for `idx`: it never
/// moves back.
pub fn nudged_target(target_head: u32, idx: u32, total: u32) -> (r: u32)
    ensures
        r == nudged(target_head, idx, total),
{
    let bumped: u32 = idx.saturating_add(LOOKAHEAD_BUFFER);
    let wanted: u32 = if bumped < total { bumped } else { total };
    if target_head > wanted { target_head } else { wanted }
}

/// What is to be done about a request for a segment.
#[derive(Debug, Clone, Copy, PartialEq, Eq, Structural)]
pub enum SegmentStep {
    /// The plan has no such segment.
    OutOfRange,
    /// It is on disk: serve it, and nudge this producer if one covers it.
    Serve { nudge: Option<usize> },
    /// This producer will deliver it: nudge it and wait.
    Follow { leader: usize },
    /// Nobody will: start a producer there.
    Spawn,
}

/// Decides about a request for segment `idx` of `total`. `stalled` are the producers
/// that were followed for it in vain.
pub fn segment_step(
    idx: u32,
    total: u32,
    cached: bool,
    pool: &Vec<ProducerView>,
    stalled: &Vec<u64>,
) -> (r: SegmentStep)
    ensures
        r is OutOfRange <==> (idx == 0 || idx > total),
        r is Serve <==> (1 <= idx <= total && cached),
        r matches SegmentStep::Serve { nudge } ==> match nudge {
            Some(i) => is_best_candidate(pool@, idx, Seq::empty(), i as int),
            None => forall|j: int|
                0 <= j < pool@.len() ==> !is_candidate(#[trigger] pool@[j], idx, Seq::empty()),
        },
        r matches SegmentStep::Follow { leader } ==> is_best_candidate(
            pool@,
            idx,
            stalled@,
            leader as int,
        ),
        r is Spawn <==> (1 <= idx <= total && !cached && forall|j: int|
            0 <= j < pool@.len() ==> !is_candidate(#[trigger] pool@[j], idx, stalled@)),
{
    if idx == 0 || idx > total {
        return SegmentStep::OutOfRange;
    }
    if cached {
        let nobody: Vec<u64> = Vec::new();
        assert(nobody@ =~= Seq::<u64>::empty());
        return SegmentStep::Serve { nudge: pick_covering(pool, idx, &nobody) };
    }
    match pick_covering(pool, idx, stalled) {
        Some(i) => {
            assert(is_candidate(pool@[i as int], idx, stalled@));
            SegmentStep::Follow { leader: i }
        },
        None => SegmentStep::Spawn,
    }
}

/// What following a producer came to.
#[derive(Debug, Clone, Copy, PartialEq, Eq, Structural)]
pub enum FollowOutcome {
    /// The segment is there.
    Ready,
    /// The leader stalled or went away: decide anew without it.
    Respawn,
    /// The request's time is up.
    Timeout,
}

/// The progress of a leader as its follower sees it.
#[derive(Debug, Clone, Copy, PartialEq, Eq, Structural)]
pub struct FollowState {
    pub last_head: u32,
    pub last_progress_ms: u64,
}

/// What a follower does before it sleeps.
pub open spec fn outcome_before(cached: bool, now_ms: u64, deadline_ms: u64) -> Option<
    FollowOutcome,
> {
    if cached {
        Some(FollowOutcome::Ready)
    } else if now_ms >= deadline_ms {
        Some(FollowOutcome::Timeout)
    } else {
        None
    }
}

/// Before a follower sleeps: `None` means that it goes on waiting.
pub fn before_wait(cached: bool, now_ms: u64, deadline_ms: u64) -> (r: Option<FollowOutcome>)
    ensures
        r == outcome_before(cached, now_ms, deadline_ms),
{
    if cached {
        Some(FollowOutcome::Ready)
    } else if now_ms >= deadline_ms {
        Some(FollowOutcome::Timeout)
    } else {
        None
    }
}

/// What a follower knows of its leader's progress after a look at its head.
pub open spec fn seen_progress(s: FollowState, leader_head: u32, now_ms: u64) -> FollowState {
    if leader_head > s.last_head {
        FollowState { last_head: leader_head, last_progress_ms: now_ms }
    } else {
        s
    }
}

/// What a follower does after it woke up, with what it knows of its leader by now.
pub open spec fn outcome_after(
    s: FollowState,
    cached: bool,
    in_pool: bool,
    leader_head: u32,
    idx: u32,
    now_ms: u64,
) -> Option<FollowOutcome> {
    if cached {
        Some(FollowOutcome::Ready)
    } else if !in_pool || (now_ms >= s.last_progress_ms + FOLLOWER_STALL_GRACE_MS && leader_head
        < idx) {
        Some(FollowOutcome::Respawn)
    } else {
        None
    }
}

/// After a follower woke up: the leader's head counts as progress where it grew; a
/// leader that left the pool, or whose head has stood still short of the segment for
/// too long, is given up. `None` means that the follower goes on waiting.
pub fn after_wait(
    state: &mut FollowState,
    cached: bool,
    in_pool: bool,
    leader_head: u32,
    idx: u32,
    now_ms: u64,
) -> (r: Option<FollowOutcome>)
    ensures
        *final(state) == seen_progress(*old(state), leader_head, now_ms),
        r == outcome_after(*final(state), cached, in_pool, leader_head, idx, now_ms),
{
    if leader_head > state.last_head {
        state.last_head = leader_head;
        state.last_progress_ms = now_ms;
    }
    if cached {
        return Some(FollowOutcome::Ready);
    }
    if !in_pool {
        return Some(FollowOutcome::Respawn);
    }
    let stood: u64 = now_ms.saturating_sub(state.last_progress_ms);
    if stood >= FOLLOWER_STALL_GRACE_MS && leader_head < idx {
        return Some(FollowOutcome::Respawn);
    }
    None
}

// ---- starting a producer ----

/// The window with which a producer starts.
#[derive(Debug, Clone, Copy, PartialEq, Eq, Structural)]
pub struct LaunchWindow {
    /// The first segment that ffmpeg writes; those before the wanted one are
    /// thrown away.
    pub ff_start_idx: u32,
    pub head: u32,
    pub target_head: u32,
}

/// `w` is the window of a producer that is to deliver from `target_idx` on.
pub open spec fn is_window_for(w: LaunchWindow, target_idx: u32, total: u32) -> bool {
    &&& w.ff_start_idx == if target_idx > PREROLL_SEGMENTS {
        (target_idx - PREROLL_SEGMENTS) as u32
    } else {
        1
    }
    &&& w.head == target_idx - 1
    &&& w.target_head == pull_target(target_idx, total)
}

/// The window for a producer that is to deliver from `target_idx` on.
pub fn launch_window(target_idx: u32, total: u32) -> (r: LaunchWindow)
    requires
        1 <= target_idx <= total,
    ensures
        is_window_for(r, target_idx, total),
        1 <= r.ff_start_idx <= target_idx,
{
    let early: u32 = target_idx.saturating_sub(PREROLL_SEGMENTS);
    LaunchWindow {
        ff_start_idx: if early < 1 { 1 } else { early },
        head: target_idx.saturating_sub(1),
        target_head: nudged_target(0, target_idx, total),
    }
}

/// The encoder in force: the software encoder once a hardware encoder has failed.
pub open spec fn hw_in_force(disabled: bool, hw: HwEncoder) -> HwEncoder {
    if disabled {
        HwEncoder::Software
    } else {
        hw
    }
}

/// The encoder that is used, given whether hardware encoders are ruled out.
pub fn effective_hw(disabled: bool, ctx_hw: HwEncoder) -> (r: HwEncoder)
    ensures
        r == hw_in_force(disabled, ctx_hw),
{
    if disabled {
        HwEncoder::Software
    } else {
        ctx_hw
    }
}

/// The name of the encoder in force.
pub fn current_encoder_name(disabled: bool, ctx_hw: HwEncoder) -> (r: &'static str)
    ensures
        r@ == hw_in_force(disabled, ctx_hw).name(),
{
    effective_hw(disabled, ctx_hw).ffmpeg_name()
}

/// Whether a start has to be repeated in software: a hardware encoder's child ended
/// right after its start.
pub fn falls_back(active: HwEncoder, exited_early: bool) -> (r: bool)
    ensures
        r == (active != HwEncoder::Software && exited_early),
{
    exited_early && match active {
        HwEncoder::Software => false,
        _ => true,
    }
}

/// After one fallback no start is repeated again.
pub proof fn fallback_is_final(hw: HwEncoder, exited_early: bool)
    ensures
        hw_in_force(true, hw) == HwEncoder::Software,
        !(hw_in_force(true, hw) != HwEncoder::Software && exited_early),
{
}

// ---- delivering segments ----

/// A segment file in a producer's scratch directory.
#[derive(Debug, Clone, Copy, PartialEq, Eq, Structural)]
pub struct ScratchFile {
    pub idx: u32,
    pub size: u64,
}

/// What is to be done with a scratch file.
#[derive(Debug, Clone, Copy, PartialEq, Eq, Structural)]
pub enum ScratchAction {
    /// Pre-roll, out of range, or delivered already.
    Delete,
    /// ffmpeg may still be writing it.
    Wait,
    /// It is finished: deliver it.
    Promote,
    /// Its size stood still: deliver it if its boxes are complete.
    PromoteIfComplete,
}

pub open spec fn has_idx(files: Seq<ScratchFile>, idx: int) -> bool {
    exists|i: int| 0 <= i < files.len() && (#[trigger] files[i]).idx == idx
}

pub open spec fn has_file(files: Seq<ScratchFile>, f: ScratchFile) -> bool {
    exists|i: int| 0 <= i < files.len() && #[trigger] files[i] == f
}

/// The rule for one scratch file: what lies outside the producer's part of the plan
/// or is delivered already goes; a file with a successor is finished; one whose size
/// is as at the last look may be.
pub open spec fn scratch_rule(
    f: ScratchFile,
    scratch: Seq<ScratchFile>,
    seen: Seq<ScratchFile>,
    delivered: Seq<u32>,
    total: u32,
    target_idx: u32,
) -> ScratchAction {
    if f.idx == 0 || f.idx > total || f.idx < target_idx || delivered.contains(f.idx) {
        ScratchAction::Delete
    } else if has_idx(scratch, f.idx + 1) {
        ScratchAction::Promote
    } else if has_file(seen, f) {
        ScratchAction::PromoteIfComplete
    } else {
        ScratchAction::Wait
    }
}

fn holds_idx(files: &Vec<ScratchFile>, idx: u64) -> (r: bool)
    ensures
        r == has_idx(files@, idx as int),
{
    let mut i: usize = 0;
    while i < files.len()
        invariant
            i <= files@.len(),
            forall|j: int| 0 <= j < i ==> (#[trigger] files@[j]).idx != idx,
        decreases files@.len() - i,
    {
        if files[i].idx as u64 == idx {
            assert(files@[i as int].idx == idx);
            return true;
        }
        i += 1;
    }
    false
}

fn holds_file(files: &Vec<ScratchFile>, f: &ScratchFile) -> (r: bool)
    ensures
        r == has_file(files@, *f),
{
    let mut i: usize = 0;
    while i < files.len()
        invariant
            i <= files@.len(),
            forall|j: int| 0 <= j < i ==> #[trigger] files@[j] != *f,
        decreases files@.len() - i,
    {
        if files[i] == *f {
            assert(files@[i as int] == *f);
            return true;
        }
        i += 1;
    }
    false
}

fn holds_u32(v: &Vec<u32>, x: u32) -> (r: bool)
    ensures
        r == v@.contains(x),
{
    let mut i: usize = 0;
    while i < v.len()
        invariant
            i <= v@.len(),
            forall|j: int| 0 <= j < i ==> v@[j] != x,
        decreases v@.len() - i,
    {
        if v[i] == x {
            assert(v@[i as int] == x);
            return true;
        }
        i += 1;
    }
    false
}

/// One look at the scratch directory: what is to be done with each file in it.
/// `seen` are the files of the look before, `delivered` the segments in the cache.
pub fn plan_tick(
    scratch: &Vec<ScratchFile>,
    seen: &Vec<ScratchFile>,
    delivered: &Vec<u32>,
    total: u32,
    target_idx: u32,
) -> (r: Vec<ScratchAction>)
    ensures
        r@.len() == scratch@.len(),
        forall|k: int|
            0 <= k < r@.len() ==> #[trigger] r@[k] == scratch_rule(
                scratch@[k],
                scratch@,
                seen@,
                delivered@,
                total,
                target_idx,
            ),
{
    let mut out: Vec<ScratchAction> = Vec::new();
    let mut i: usize = 0;
    while i < scratch.len()
        invariant
            i <= scratch@.len(),
            out@.len() == i,
            forall|k: int|
                0 <= k < i ==> #[trigger] out@[k] == scratch_rule(
                    scratch@[k],
                    scratch@,
                    seen@,
                    delivered@,
                    total,
                    target_idx,
                ),
        decreases scratch@.len() - i,
    {
        let f: ScratchFile = scratch[i];
        let action = if f.idx == 0 || f.idx > total || f.idx < target_idx || holds_u32(
            delivered,
            f.idx,
        ) {
            ScratchAction::Delete
        } else if holds_idx(scratch, f.idx as u64 + 1) {
            ScratchAction::Promote
        } else if holds_file(seen, &f) {
            ScratchAction::PromoteIfComplete
        } else {
            ScratchAction::Wait
        };
        out.push(action);
        i += 1;
    }
    out
}

/// Nothing below the producer's target is ever delivered by it.
pub proof fn preroll_is_discarded(
    f: ScratchFile,
    scratch: Seq<ScratchFile>,
    seen: Seq<ScratchFile>,
    delivered: Seq<u32>,
    total: u32,
    target_idx: u32,
)
    requires
        f.idx < target_idx,
    ensures
        scratch_rule(f, scratch, seen, delivered, total, target_idx) == ScratchAction::Delete,
{
}

/// Whether the initialisation segment may be delivered: it is not there yet, ffmpeg
/// has written one, and a segment shows that it has been closed.
pub fn promotes_init(delivered: bool, written: bool, any_segment: bool) -> (r: bool)
    ensures
        r == (!delivered && written && any_segment),
{
    !delivered && written && any_segment
}

/// Where the search for a producer's head begins: at the head it has, or right before
/// the first segment that it delivers.
pub open spec fn head_base(cur: u32, target_idx: u32) -> int {
    if cur as int > target_idx - 1 {
        cur as int
    } else {
        target_idx - 1
    }
}

/// Recomputes a producer's head: the last segment up to which everything from its
/// start on is in the cache.
pub fn advance_head(cur: u32, target_idx: u32, delivered: &Vec<u32>) -> (r: u32)
    ensures
        r >= head_base(cur, target_idx),
        forall|k: int|
            head_base(cur, target_idx) < k <= r ==> delivered@.contains(#[trigger] (k as u32)),
        r == u32::MAX || !delivered@.contains((r + 1) as u32),
{
    let start: u32 = target_idx.saturating_sub(1);
    let base: u32 = if cur > start { cur } else { start };
    let mut next: u32 = base;
    while next < u32::MAX && holds_u32(delivered, next + 1)
        invariant
            base <= next,
            forall|k: int| base < k <= next ==> delivered@.contains(#[trigger] (k as u32)),
        decreases u32::MAX - next,
    {
        next += 1;
    }
    next
}

/// A big-endian 32-bit number at `i`.
pub open spec fn be32(b: Seq<u8>, i: int) -> int {
    b[i] * 0x1000000 + b[i + 1] * 0x10000 + b[i + 2] * 0x100 + b[i + 3]
}

/// Reads a big-endian 32-bit number.
pub fn read_be32(b: &Vec<u8>, i: usize) -> (r: u32)
    requires
        i + 4 <= b@.len(),
    ensures
        r == be32(b@, i as int),
{
    let total: usize = b.len();
    assert(i + 4 <= total);
    let x: u32 = b[i] as u32 * 0x1000000;
    let y: u32 = b[i + 1] as u32 * 0x10000;
    let z: u32 = b[i + 2] as u32 * 0x100;
    x + y + z + b[i + 3] as u32
}

/// From `pos` on, boxes with plain 32-bit sizes follow one another up to the very end.
pub open spec fn boxes_tile(b: Seq<u8>, pos: int) -> bool
    decreases b.len() - pos,
{
    if pos < 0 || pos > b.len() {
        false
    } else if pos == b.len() {
        true
    } else if b.len() - pos < 8 {
        false
    } else {
        let size = be32(b, pos);
        size >= 8 && pos + size <= b.len() && boxes_tile(b, pos + size)
    }
}

/// Whether the top-level boxes of a segment add up to exactly its length. A segment
/// cut off in the middle of a write does not pass.
pub fn segment_is_complete(b: &Vec<u8>) -> (r: bool)
    ensures
        r == boxes_tile(b@, 0),
{
    let total: usize = b.len();
    let mut pos: usize = 0;
    while pos < total
        invariant
            pos <= total == b@.len(),
            boxes_tile(b@, 0) == boxes_tile(b@, pos as int),
        decreases total - pos,
    {
        if total - pos < 8 {
            return false;
        }
        let size: u32 = read_be32(b, pos);
        if size < 8 {
            return false;
        }
        if size as u64 > (total - pos) as u64 {
            return false;
        }
        pos += size as usize;
    }
    true
}

/// From `pos` on, boxes follow one another up to exactly `q`.
pub open spec fn boxes_reach(b: Seq<u8>, pos: int, q: int) -> bool
    decreases q - pos,
{
    if pos >= q {
        pos == q
    } else {
        let size = be32(b, pos);
        q - pos >= 8 && 8 <= size <= q - pos && boxes_reach(b, pos + size, q)
    }
}

/// What is there of a segment while it is written is taken for complete exactly where
/// the write has come to the end of a box: a segment cut off within a box never is.
pub proof fn truncated_segment_is_incomplete(b: Seq<u8>, pos: int, cut: int)
    requires
        0 <= pos <= cut <= b.len(),
    ensures
        boxes_tile(b.take(cut), pos) == boxes_reach(b, pos, cut),
    decreases cut - pos,
{
    let t = b.take(cut);
    if cut - pos >= 8 {
        assert(be32(t, pos) == be32(b, pos));
        let size = be32(b, pos);
        if size >= 8 && pos + size <= cut {
            truncated_segment_is_incomplete(b, pos + size, cut);
        }
    }
}

// ---- throttling ----

/// What a producer's supervisor does.
#[derive(Debug, Clone, Copy, PartialEq, Eq, Structural)]
pub enum ReaperAction {
    Reap,
    Pause,
    Resume,
    Nothing,
}

/// What the supervisor does about a producer.
pub open spec fn supervised(idle_ms: u64, head: u32, target_head: u32, paused: bool) -> ReaperAction {
    if idle_ms >= IDLE_TIMEOUT_MS {
        ReaperAction::Reap
    } else if !paused && head >= target_head {
        ReaperAction::Pause
    } else if paused && head < target_head {
        ReaperAction::Resume
    } else {
        ReaperAction::Nothing
    }
}

/// One look of the supervisor: a producer nobody asks goes away; one that has reached
/// its target is stopped, and goes on when the target moves past its head.
pub fn reaper_action(idle_ms: u64, head: u32, target_head: u32, paused: bool) -> (r: ReaperAction)
    ensures
        r == supervised(idle_ms, head, target_head, paused),
{
    if idle_ms >= IDLE_TIMEOUT_MS {
        ReaperAction::Reap
    } else if !paused && head >= target_head {
        ReaperAction::Pause
    } else if paused && target_head > head {
        ReaperAction::Resume
    } else {
        ReaperAction::Nothing
    }
}

/// Of the producers, the one furthest along, the last of them where several are.
pub fn lead_producer(pool: &Vec<ProducerView>) -> (r: Option<usize>)
    ensures
        r is None <==> pool@.len() == 0,
        r matches Some(i) ==> i < pool@.len() && forall|j: int|
            0 <= j < pool@.len() ==> (#[trigger] pool@[j]).head < pool@[i as int].head || (
            pool@[j].head == pool@[i as int].head && j <= i),
{
    if pool.len() == 0 {
        return None;
    }
    let mut best: usize = 0;
    let mut i: usize = 1;
    while i < pool.len()
        invariant
            best < i <= pool@.len(),
            forall|j: int|
                0 <= j < i ==> (#[trigger] pool@[j]).head < pool@[best as int].head || (
                pool@[j].head == pool@[best as int].head && j <= best),
        decreases pool@.len() - i,
    {
        if pool[i].head >= pool[best].head {
            best = i;
        }
        i += 1;
    }
    Some(best)
}

/// Whether a failed delivery is reported: the first, then every fiftieth.
pub fn reports_failure(failures_before: u64) -> (r: bool)
    ensures
        r == (failures_before % 50 == 0),
{
    failures_before % 50 == 0
}

// ---- ffmpeg's warnings ----

/// What in ffmpeg's output hints at a source with broken timestamps.
pub open spec fn warn_needles() -> Seq<Seq<char>> {
    seq!["Packet duration"@, "out of range"@, "Non-monotonous DTS"@, "corrupt"@]
}

/// The hint with number `k`.
pub fn needle(k: usize) -> (r: &'static str)
    requires
        k < 4,
    ensures
        r@ == warn_needles()[k as int],
{
    if k == 0 {
        "Packet duration"
    } else if k == 1 {
        "out of range"
    } else if k == 2 {
        "Non-monotonous DTS"
    } else {
        "corrupt"
    }
}

/// Which hints are in a line.
pub open spec fn hints_in(line: Seq<char>) -> Seq<bool> {
    Seq::new(4, |k: int| text::has_text(line, warn_needles()[k]))
}

/// Which hints came up, now that a line has been read.
pub open spec fn noted(warned: Seq<bool>, line: Seq<char>) -> Seq<bool> {
    Seq::new(4, |k: int| warned[k] || hints_in(line)[k])
}

/// Which hints a line is the first to have.
pub open spec fn fresh_hints(warned: Seq<bool>, line: Seq<char>) -> Seq<bool> {
    Seq::new(4, |k: int| !warned[k] && hints_in(line)[k])
}

/// Takes note of the hints in one line of ffmpeg's output, and says of each whether it
/// came up for the first time in this run.
pub fn fresh_warnings(line: &str, warned: &mut Vec<bool>) -> (r: Vec<bool>)
    requires
        old(warned)@.len() == 4,
    ensures
        final(warned)@ == noted(old(warned)@, line@),
        r@ == fresh_hints(old(warned)@, line@),
{
    let ghost before = warned@;
    let mut out: Vec<bool> = Vec::new();
    let mut k: usize = 0;
    while k < 4
        invariant
            k <= 4,
            before.len() == 4,
            warned@.len() == 4,
            out@.len() == k,
            forall|j: int| 0 <= j < k ==> #[trigger] warned@[j] == noted(before, line@)[j],
            forall|j: int| 0 <= j < k ==> #[trigger] out@[j] == fresh_hints(before, line@)[j],
            forall|j: int| k <= j < 4 ==> #[trigger] warned@[j] == before[j],
        decreases 4 - k,
    {
        let here = text::contains(line, needle(k));
        let fresh = here && !warned[k];
        if fresh {
            warned.set(k, true);
        }
        out.push(fresh);
        k += 1;
    }
    assert(warned@ =~= noted(before, line@));
    assert(out@ =~= fresh_hints(before, line@));
    out
}

/// Which hints came up in the lines of a run.
pub open spec fn noted_in_run(lines: Seq<Seq<char>>) -> Seq<bool>
    decreases lines.len(),
{
    if lines.len() == 0 {
        seq![false, false, false, false]
    } else {
        noted(noted_in_run(lines.drop_last()), lines.last())
    }
}

/// How often the hint `k` is reported in a run.
pub open spec fn reports_in_run(lines: Seq<Seq<char>>, k: int) -> nat
    decreases lines.len(),
{
    if lines.len() == 0 {
        0
    } else {
        reports_in_run(lines.drop_last(), k) + if fresh_hints(
            noted_in_run(lines.drop_last()),
            lines.last(),
        )[k] {
            1nat
        } else {
            0
        }
    }
}

/// However many lines of a run have a hint, it is reported once; one that none has is not
/// reported.
pub proof fn hint_is_reported_once(lines: Seq<Seq<char>>, k: int)
    requires
        0 <= k < 4,
    ensures
        reports_in_run(lines, k) == if exists|i: int|
            0 <= i < lines.len() && hints_in(#[trigger] lines[i])[k] {
            1nat
        } else {
            0
        },
        noted_in_run(lines)[k] == (reports_in_run(lines, k) == 1),
    decreases lines.len(),
{
    if lines.len() > 0 {
        let front = lines.drop_last();
        hint_is_reported_once(front, k);
        assert(forall|i: int| 0 <= i < front.len() ==> #[trigger] front[i] == lines[i]);
        if exists|i: int| 0 <= i < front.len() && hints_in(#[trigger] front[i])[k] {
            let i = choose|i: int| 0 <= i < front.len() && hints_in(#[trigger] front[i])[k];
            assert(hints_in(lines[i])[k]);
        } else if hints_in(lines.last())[k] {
            assert(hints_in(lines[lines.len() - 1])[k]);
        } else {
            assert forall|i: int| 0 <= i < lines.len() implies !hints_in(#[trigger] lines[i])[k] by {
                if i < front.len() {
                    assert(!hints_in(front[i])[k]);
                }
            }
        }
    }
}

/// The beginning of a line that goes into a report: at most 200 characters.
pub fn sample(line: &str) -> (r: String)
    ensures
        r@ == if line@.len() > 200 {
            line@.take(200)
        } else {
            line@
        },
{
    let v = text::chars_of(line);
    let n: usize = if v.len() > 200 { 200 } else { v.len() };
    let r = text::string_of(&v, 0, n);
    assert(r@ =~= if line@.len() > 200 {
        line@.take(200)
    } else {
        line@
    });
    r
}

// ---- laws ----

/// A producer is followed from its first segment up to eight past its head, and no further;
/// it goes on covering what it covers as its head moves on.
pub proof fn window_reaches_eight_ahead(start: u32, head: u32, later: u32, idx: u32)
    ensures
        idx < start ==> !in_window(start, head, idx),
        start <= idx && idx <= head ==> in_window(start, head, idx),
        start <= idx && idx - head == 8 ==> in_window(start, head, idx),
        idx - head == 9 ==> !in_window(start, head, idx),
        in_window(start, head, idx) && head <= later ==> in_window(start, later, idx),
        !in_window(start, head, idx) && later <= head ==> !in_window(start, later, idx),
{
}

/// A request lets a producer run three segments past the one that is wanted, but not past
/// the last one; it never takes back what an earlier request allowed.
pub proof fn requests_pull_three_ahead(target_head: u32, idx: u32, total: u32)
    requires
        1 <= idx <= total,
    ensures
        idx <= pull_target(idx, total) <= total,
        pull_target(idx, total) <= idx + 3,
        pull_target(idx, total) == total || pull_target(idx, total) == idx + 3,
        nudged(target_head, idx, total) >= target_head,
        nudged(target_head, idx, total) >= pull_target(idx, total),
        nudged(target_head, idx, total) == target_head || nudged(target_head, idx, total)
            == pull_target(idx, total),
{
}

/// What is there is served, however late it is; nobody waits past the deadline; and a leader
/// in the pool that moved on within the last second and a half, or has come to the segment, is
/// not given up. One that stood still for as long short of the segment is.
pub proof fn stalled_leaders_are_given_up(
    s: FollowState,
    in_pool: bool,
    head: u32,
    idx: u32,
    now_ms: u64,
    deadline_ms: u64,
)
    ensures
        outcome_before(true, now_ms, deadline_ms) == Some(FollowOutcome::Ready),
        outcome_after(s, true, in_pool, head, idx, now_ms) == Some(FollowOutcome::Ready),
        outcome_before(false, now_ms, deadline_ms) is Some <==> now_ms >= deadline_ms,
        outcome_after(s, false, false, head, idx, now_ms) == Some(FollowOutcome::Respawn),
        now_ms < s.last_progress_ms + 1_500 ==> outcome_after(s, false, true, head, idx, now_ms) is None,
        head >= idx ==> outcome_after(s, false, true, head, idx, now_ms) is None,
        now_ms >= s.last_progress_ms + 1_500 && head < idx ==> outcome_after(
            s,
            false,
            true,
            head,
            idx,
            now_ms,
        ) == Some(FollowOutcome::Respawn),
        outcome_after(s, false, in_pool, head, idx, now_ms) != Some(FollowOutcome::Ready),
{
}

/// A head that moved on is progress made now; one that did not leaves the time of the last
/// progress as it was. The highest head seen is never forgotten.
pub proof fn progress_is_a_higher_head(s: FollowState, head: u32, now_ms: u64)
    ensures
        seen_progress(s, head, now_ms).last_head >= s.last_head,
        seen_progress(s, head, now_ms).last_head >= head,
        seen_progress(s, head, now_ms).last_head > s.last_head ==> seen_progress(
            s,
            head,
            now_ms,
        ).last_progress_ms == now_ms,
        seen_progress(s, head, now_ms).last_head == s.last_head ==> seen_progress(
            s,
            head,
            now_ms,
        ) == s,
{
}

/// A producer that nobody asked for half a minute goes. Any other runs while its head is
/// short of its target and stands still once it is not: after what is done, nothing more is to
/// be done until something changes.
pub proof fn producers_run_up_to_their_target(idle_ms: u64, head: u32, target_head: u32, paused: bool)
    ensures
        supervised(idle_ms, head, target_head, paused) is Reap <==> idle_ms >= 30_000,
        idle_ms < 30_000 ==> {
            let after = match supervised(idle_ms, head, target_head, paused) {
                ReaperAction::Pause => true,
                ReaperAction::Resume => false,
                _ => paused,
            };
            &&& after <==> head >= target_head
            &&& supervised(idle_ms, head, target_head, paused) is Nothing <==> after == paused
            &&& supervised(idle_ms, head, target_head, after) is Nothing
        },
{
}

/// What is delivered of a look at the scratch files: segments of the plan from the wanted one
/// on that are not there yet, once they are finished. A segment is finished where the one
/// behind it has been begun; where it has not, its size must have stood still since the last
/// look. Whatever else lies there goes, but for the one that is being written.
pub proof fn finished_segments_are_delivered(
    f: ScratchFile,
    scratch: Seq<ScratchFile>,
    seen: Seq<ScratchFile>,
    delivered: Seq<u32>,
    total: u32,
    target_idx: u32,
)
    ensures
        ({
            let a = scratch_rule(f, scratch, seen, delivered, total, target_idx);
            let wanted = 1 <= f.idx <= total && target_idx <= f.idx && !delivered.contains(f.idx);
            &&& a is Delete <==> !wanted
            &&& a is Promote <==> wanted && exists|i: int|
                0 <= i < scratch.len() && (#[trigger] scratch[i]).idx == f.idx + 1
            &&& a is PromoteIfComplete ==> seen.contains(f)
            &&& a is Wait ==> !seen.contains(f)
        }),
{
    let a = scratch_rule(f, scratch, seen, delivered, total, target_idx);
    if a is PromoteIfComplete {
        let i = choose|i: int| 0 <= i < seen.len() && #[trigger] seen[i] == f;
        assert(seen[i] == f);
    }
}

/// A new producer starts one segment early, but not before the first, covers the segment that
/// is wanted from the start, and runs three past it at most.
pub proof fn producers_start_one_early(w: LaunchWindow, target_idx: u32, total: u32)
    requires
        1 <= target_idx <= total,
        is_window_for(w, target_idx, total),
    ensures
        target_idx == 1 ==> w.ff_start_idx == 1,
        target_idx > 1 ==> w.ff_start_idx == target_idx - 1,
        in_window(target_idx, w.head, target_idx),
        w.head + 1 == target_idx,
        target_idx <= w.target_head <= total,
        w.target_head <= target_idx + 3,
        w.head < w.target_head,
{
}

/// The producer that is picked reaches up to eight segments ahead of what it has delivered to
/// the one that is asked for, has not stalled, and of all of those is the furthest.
pub proof fn furthest_producer_is_picked(
    pool: Seq<ProducerView>,
    idx: u32,
    skip: Seq<u64>,
    i: int,
    j: int,
)
    requires
        is_best_candidate(pool, idx, skip, i),
        0 <= j < pool.len(),
        pool[j].start_idx <= idx <= pool[j].head + 8,
        forall|k: int| 0 <= k < skip.len() ==> skip[k] != pool[j].id,
    ensures
        pool[j].head <= pool[i].head,
        pool[i].start_idx <= idx <= pool[i].head + 8,
        forall|k: int| 0 <= k < skip.len() ==> skip[k] != pool[i].id,
{
    assert(is_candidate(pool[j], idx, skip));
    assert forall|k: int| 0 <= k < skip.len() implies skip[k] != pool[i].id by {
        assert(skip.contains(skip[k]));
    }
}

/// What is delivered counts from the segment that was wanted on, and never backwards.
pub proof fn heads_never_fall(cur: u32, target_idx: u32)
    ensures
        head_base(cur, target_idx) >= cur,
        head_base(cur, target_idx) >= target_idx - 1,
        head_base(cur, target_idx) == cur || head_base(cur, target_idx) == target_idx - 1,
{
}

/// Of producers that have come equally far the one that was started last is picked.
pub proof fn latest_of_equals_is_picked(
    pool: Seq<ProducerView>,
    idx: u32,
    skip: Seq<u64>,
    i: int,
    j: int,
)
    requires
        is_best_candidate(pool, idx, skip, i),
        0 <= j < pool.len(),
        pool[j].start_idx <= idx <= pool[j].head + 8,
        !skip.contains(pool[j].id),
        pool[j].head == pool[i].head,
    ensures
        j <= i,
{
    assert(is_candidate(pool[j], idx, skip));
}

/// Each of the four troubles is told of once: in the line in which it first appears.
pub proof fn four_troubles_are_told_of(warned: Seq<bool>, line: Seq<char>, k: int)
    requires
        warned.len() == 4,
        0 <= k < 4,
    ensures
        noted(warned, line).len() == 4,
        fresh_hints(warned, line).len() == 4,
        noted(warned, line)[k] <==> warned[k] || fresh_hints(warned, line)[k],
        !(warned[k] && fresh_hints(warned, line)[k]),
        hints_in(line)[0] <==> text::has_text(line, "Packet duration"@),
        hints_in(line)[1] <==> text::has_text(line, "out of range"@),
        hints_in(line)[2] <==> text::has_text(line, "Non-monotonous DTS"@),
        hints_in(line)[3] <==> text::has_text(line, "corrupt"@),
{
}

/// A file that the encoder left is thrown away where it is no segment, comes before the one
/// that was wanted or has been delivered; any other is delivered once the next one is there.
pub proof fn unwanted_files_are_thrown_away(
    f: ScratchFile,
    scratch: Seq<ScratchFile>,
    seen: Seq<ScratchFile>,
    delivered: Seq<u32>,
    total: u32,
    target_idx: u32,
)
    ensures
        ({
            let r = scratch_rule(f, scratch, seen, delivered, total, target_idx);
            let unwanted = f.idx == 0 || f.idx > total || f.idx < target_idx || delivered.contains(
                f.idx,
            );
            let followed = exists|i: int|
                0 <= i < scratch.len() && (#[trigger] scratch[i]).idx == f.idx + 1;
            &&& r is Delete <==> unwanted
            &&& r is Promote <==> !unwanted && followed
        }),
{
}

} // verus!
