//! What is told of a scan while it runs, and of the last one.

use crate::text;
use crate::types;
use vstd::prelude::*;

verus! {

/// Something that is being worked on.
#[derive(Debug)]
pub struct ActiveJob {
    pub media_id: String,
    pub title: String,
    pub stage: String,
}

#[verifier::ext_equal]
pub struct JobView {
    pub media_id: Seq<char>,
    pub title: Seq<char>,
    pub stage: Seq<char>,
}

impl View for ActiveJob {
    type V = JobView;

    open spec fn view(&self) -> JobView {
        JobView { media_id: self.media_id@, title: self.title@, stage: self.stage@ }
    }
}

pub open spec fn job_views(v: Seq<ActiveJob>) -> Seq<JobView> {
    v.map_values(|j: ActiveJob| j@)
}

#[derive(Debug)]
pub struct ScanProgress {
    pub running: bool,
    pub phase: String,
    pub done: usize,
    pub total: usize,
    pub current: Option<String>,
    pub message: Option<String>,
    pub last_finished_at: Option<i64>,
    pub last_summary: Option<String>,
    pub last_elapsed_ms: Option<u64>,
    pub active: Vec<ActiveJob>,
}

#[verifier::ext_equal]
pub struct ProgressView {
    pub running: bool,
    pub phase: Seq<char>,
    pub done: usize,
    pub total: usize,
    pub current: Option<Seq<char>>,
    pub message: Option<Seq<char>>,
    pub last_finished_at: Option<i64>,
    pub last_summary: Option<Seq<char>>,
    pub last_elapsed_ms: Option<u64>,
    pub active: Seq<JobView>,
}

impl View for ScanProgress {
    type V = ProgressView;

    open spec fn view(&self) -> ProgressView {
        ProgressView {
            running: self.running,
            phase: self.phase@,
            done: self.done,
            total: self.total,
            current: types::opt_text(self.current),
            message: types::opt_text(self.message),
            last_finished_at: self.last_finished_at,
            last_summary: types::opt_text(self.last_summary),
            last_elapsed_ms: self.last_elapsed_ms,
            active: job_views(self.active@),
        }
    }
}

impl Default for ScanProgress {
    fn default() -> (r: Self)
        ensures
            r@ == (ProgressView {
                running: false,
                phase: ""@,
                done: 0,
                total: 0,
                current: None,
                message: None,
                last_finished_at: None,
                last_summary: None,
                last_elapsed_ms: None,
                active: Seq::empty(),
            }),
    {
        let r = ScanProgress {
            running: false,
            phase: text::own(""),
            done: 0,
            total: 0,
            current: None,
            message: None,
            last_finished_at: None,
            last_summary: None,
            last_elapsed_ms: None,
            active: Vec::new(),
        };
        assert(r@.active =~= Seq::empty());
        r
    }
}

/// The jobs but for those of `id`.
pub open spec fn without_job(v: Seq<JobView>, id: Seq<char>) -> Seq<JobView>
    decreases v.len(),
{
    if v.len() == 0 {
        v
    } else if v.last().media_id == id {
        without_job(v.drop_last(), id)
    } else {
        without_job(v.drop_last(), id).push(v.last())
    }
}

fn copy_job(j: &ActiveJob) -> (r: ActiveJob)
    ensures
        r@ == j@,
{
    ActiveJob {
        media_id: text::own(j.media_id.as_str()),
        title: text::own(j.title.as_str()),
        stage: text::own(j.stage.as_str()),
    }
}

fn drop_job(v: &Vec<ActiveJob>, id: &str) -> (r: Vec<ActiveJob>)
    ensures
        job_views(r@) == without_job(job_views(v@), id@),
{
    let mut out: Vec<ActiveJob> = Vec::new();
    let ghost all = job_views(v@);
    let mut i: usize = 0;
    assert(all.take(0) =~= Seq::<JobView>::empty());
    assert(job_views(out@) =~= without_job(all.take(0), id@));
    while i < v.len()
        invariant
            i <= v@.len(),
            all == job_views(v@),
            job_views(out@) == without_job(all.take(i as int), id@),
        decreases v@.len() - i,
    {
        proof {
            assert(all.take(i + 1).drop_last() =~= all.take(i as int));
            assert(all.take(i + 1).last() == v@[i as int]@);
        }
        if *v[i].media_id.as_str() != *id {
            let ghost before = out@;
            let j = copy_job(&v[i]);
            out.push(j);
            assert(job_views(out@) =~= job_views(before).push(j@));
        }
        i += 1;
    }
    assert(all.take(i as int) =~= all);
    out
}

/// The state at the start of a run: what is told of the last one stays.
pub open spec fn started(p: ProgressView) -> ProgressView {
    ProgressView {
        running: true,
        phase: "starting"@,
        done: 0,
        total: 0,
        current: None,
        message: None,
        active: Seq::empty(),
        ..p
    }
}

/// The state after a request for a scan: one that runs is left alone, or told to start
/// again.
pub open spec fn requested(p: ProgressView, restart: bool) -> ProgressView {
    if p.running && !restart {
        p
    } else if p.running {
        ProgressView { phase: "restarting"@, current: None, active: Seq::empty(), ..p }
    } else {
        ProgressView {
            running: true,
            phase: "starting"@,
            done: 0,
            total: 0,
            current: None,
            message: None,
            ..p
        }
    }
}

/// What a request for a scan sets off.
#[derive(Debug, Clone, Copy, PartialEq, Eq, Structural)]
pub struct ScanRequest {
    /// A scan is started, once the one that runs is over.
    pub start: bool,
    /// The one that runs is told to stop.
    pub cancel: bool,
}

/// The name of a pass over the files.
#[derive(Debug, Clone, Copy, PartialEq, Eq, Structural)]
pub enum Pass {
    Subtitles,
    Thumbnails,
    Trickplay,
    AudioMatch,
}

impl Pass {
    pub open spec fn name(self) -> Seq<char> {
        match self {
            Pass::Subtitles => "subtitles"@,
            Pass::Thumbnails => "thumbnails"@,
            Pass::Trickplay => "trickplay"@,
            Pass::AudioMatch => "audio-match"@,
        }
    }

    pub open spec fn forgets_current(self) -> bool {
        self is Subtitles || self is AudioMatch
    }

    /// What it is called.
    pub fn as_str(self) -> (r: &'static str)
        ensures
            r@ == self.name(),
    {
        match self {
            Pass::Subtitles => "subtitles",
            Pass::Thumbnails => "thumbnails",
            Pass::Trickplay => "trickplay",
            Pass::AudioMatch => "audio-match",
        }
    }
}

impl ScanProgress {
    /// A run starts.
    pub fn start(&mut self)
        ensures
            final(self)@ == started(old(self)@),
    {
        let ghost before = self@;
        self.running = true;
        self.phase = text::own("starting");
        self.done = 0;
        self.total = 0;
        self.current = None;
        self.message = None;
        self.active = Vec::new();
        assert(self@ =~= started(before));
    }

    /// Someone asks for a scan.
    pub fn request(&mut self, restart: bool) -> (r: ScanRequest)
        ensures
            final(self)@ == requested(old(self)@, restart),
            r.start == (!old(self).running || restart),
            r.cancel == (old(self).running && restart),
    {
        let ghost before = self@;
        if self.running && !restart {
            return ScanRequest { start: false, cancel: false };
        }
        self.current = None;
        if self.running {
            self.phase = text::own("restarting");
            self.active = Vec::new();
            assert(self@ =~= requested(before, restart));
            ScanRequest { start: true, cancel: true }
        } else {
            self.running = true;
            self.phase = text::own("starting");
            self.done = 0;
            self.total = 0;
            self.message = None;
            assert(self@ =~= requested(before, restart));
            ScanRequest { start: true, cancel: false }
        }
    }

    /// The files of the library at `root` are looked through.
    pub fn start_indexing(&mut self, root: &str)
        ensures
            final(self)@ == (ProgressView {
                phase: "indexing"@,
                done: 0,
                total: 0,
                current: Some(root@),
                ..old(self)@
            }),
    {
        let ghost before = self@;
        self.phase = text::own("indexing");
        self.done = 0;
        self.total = 0;
        self.current = Some(text::own(root));
        assert(self@ =~= ProgressView {
            phase: "indexing"@,
            done: 0,
            total: 0,
            current: Some(root@),
            ..before
        });
    }

    /// The file `name` is the `n`th that was found.
    pub fn found(&mut self, n: usize, name: &str)
        ensures
            final(self)@ == (ProgressView { done: n, current: Some(name@), ..old(self)@ }),
    {
        let ghost before = self@;
        self.done = n;
        self.current = Some(text::own(name));
        assert(self@ =~= ProgressView { done: n, current: Some(name@), ..before });
    }

    /// A pass over `total` files starts.
    pub fn start_pass(&mut self, pass: Pass, total: usize)
        ensures
            final(self)@ == (ProgressView {
                phase: pass.name(),
                done: 0,
                total,
                current: if pass.forgets_current() {
                    None
                } else {
                    old(self)@.current
                },
                active: Seq::empty(),
                ..old(self)@
            }),
    {
        let ghost before = self@;
        self.phase = text::own(pass.as_str());
        self.done = 0;
        self.total = total;
        match pass {
            Pass::Subtitles => {
                self.current = None;
            },
            Pass::AudioMatch => {
                self.current = None;
            },
            _ => {},
        }
        self.active = Vec::new();
        assert(self@ =~= ProgressView {
            phase: pass.name(),
            done: 0,
            total,
            current: if pass.forgets_current() {
                None
            } else {
                before.current
            },
            active: Seq::empty(),
            ..before
        });
    }

    /// Work on something starts.
    pub fn add_active(&mut self, media_id: &str, title: &str, stage: &str)
        ensures
            final(self)@ == (ProgressView {
                active: old(self)@.active.push(
                    JobView { media_id: media_id@, title: title@, stage: stage@ },
                ),
                ..old(self)@
            }),
    {
        let ghost before = self@;
        self.active.push(
            ActiveJob {
                media_id: text::own(media_id),
                title: text::own(title),
                stage: text::own(stage),
            },
        );
        assert(self@ =~= ProgressView {
            active: before.active.push(
                JobView { media_id: media_id@, title: title@, stage: stage@ },
            ),
            ..before
        });
    }

    /// Work on something is over, as the `n`th of its pass. A file is named; a season is
    /// not.
    pub fn finish_job(&mut self, n: usize, media_id: &str, title: Option<&str>)
        ensures
            final(self)@ == (ProgressView {
                done: n,
                current: match title {
                    Some(t) => Some(t@),
                    None => old(self)@.current,
                },
                active: without_job(old(self)@.active, media_id@),
                ..old(self)@
            }),
    {
        let ghost before = self@;
        self.done = n;
        if let Some(t) = title {
            self.current = Some(text::own(t));
        }
        self.active = drop_job(&self.active, media_id);
        assert(self@ =~= ProgressView {
            done: n,
            current: match title {
                Some(t) => Some(t@),
                None => before.current,
            },
            active: without_job(before.active, media_id@),
            ..before
        });
    }

    /// Work on something outside of a run is over.
    pub fn drop_active(&mut self, media_id: &str)
        ensures
            final(self)@ == (ProgressView {
                active: without_job(old(self)@.active, media_id@),
                ..old(self)@
            }),
    {
        let ghost before = self@;
        self.active = drop_job(&self.active, media_id);
        assert(self@ =~= ProgressView {
            active: without_job(before.active, media_id@),
            ..before
        });
    }

    /// The run is over.
    pub fn finish(&mut self, error: Option<String>, now: i64, summary: String, elapsed_ms: u64)
        ensures
            final(self)@ == (ProgressView {
                running: false,
                phase: "idle"@,
                current: None,
                active: Seq::empty(),
                message: types::opt_text(error),
                last_finished_at: Some(now),
                last_summary: Some(summary@),
                last_elapsed_ms: Some(elapsed_ms),
                ..old(self)@
            }),
    {
        let ghost before = self@;
        self.running = false;
        self.phase = text::own("idle");
        self.current = None;
        self.active = Vec::new();
        self.message = error;
        self.last_finished_at = Some(now);
        self.last_summary = Some(summary);
        self.last_elapsed_ms = Some(elapsed_ms);
        assert(self@ =~= ProgressView {
            running: false,
            phase: "idle"@,
            current: None,
            active: Seq::empty(),
            message: types::opt_text(error),
            last_finished_at: Some(now),
            last_summary: Some(summary@),
            last_elapsed_ms: Some(elapsed_ms),
            ..before
        });
    }
}

/// What is being worked on is told until it is over: starting and finishing a job leaves
/// the list as it was. Nothing else runs under its id.
pub proof fn job_comes_and_goes(v: Seq<JobView>, job: JobView)
    requires
        forall|i: int| 0 <= i < v.len() ==> (#[trigger] v[i]).media_id != job.media_id,
    ensures
        without_job(v.push(job), job.media_id) == v,
    decreases v.len(),
{
    assert(v.push(job).drop_last() =~= v);
    without_absent_job(v, job.media_id);
}

proof fn without_absent_job(v: Seq<JobView>, id: Seq<char>)
    requires
        forall|i: int| 0 <= i < v.len() ==> (#[trigger] v[i]).media_id != id,
    ensures
        without_job(v, id) == v,
    decreases v.len(),
{
    if v.len() > 0 {
        assert(v[v.len() - 1].media_id != id);
        assert forall|i: int| 0 <= i < v.drop_last().len() implies (
        #[trigger] v.drop_last()[i]).media_id != id by {
            assert(v[i].media_id != id);
        }
        without_absent_job(v.drop_last(), id);
        assert(v.drop_last().push(v.last()) =~= v);
    }
}

/// A job that is over is taken off the list, and no other.
pub proof fn only_the_job_goes(v: Seq<JobView>, id: Seq<char>)
    ensures
        without_job(v, id) == v.filter(|j: JobView| j.media_id != id),
    decreases v.len(),
{
    reveal(Seq::filter);
    if v.len() > 0 {
        only_the_job_goes(v.drop_last(), id);
    } else {
        assert(v =~= Seq::empty());
    }
}

/// A request starts a scan where none runs, and leaves one that runs alone unless it asks
/// for a restart; either way a scan runs afterwards, and what is told of the last one stays.
pub proof fn requests_keep_one_scan_running(p: ProgressView, restart: bool)
    ensures
        requested(p, restart).running,
        p.running && !restart ==> requested(p, restart) == p,
        p.running && restart ==> requested(p, restart).phase == "restarting"@,
        !p.running ==> requested(p, restart).phase == "starting"@ && requested(p, restart).done == 0
            && requested(p, restart).total == 0,
        requested(p, restart).last_finished_at == p.last_finished_at,
        requested(p, restart).last_summary == p.last_summary,
        requested(p, restart).last_elapsed_ms == p.last_elapsed_ms,
{
}

} // verus!
