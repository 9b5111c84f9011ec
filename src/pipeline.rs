use crate::op::{ExportPage, Op};
use crate::time::Dt;
use vstd::prelude::*;

verus! {

/// A page of at least this many ops means the poller is still behind.
pub const FULL_PAGE_MIN: usize = 900;

/// How old the last op of a small page may be for the poller to count as
/// caught up.
pub const CAUGHT_UP_MAX_AGE_SECS: i64 = 6 * 3600;

/// Ops per page when reading a weekly bundle.
pub const BUNDLE_PAGE_SIZE: usize = 10_000;

/// What the full-pages filter does with a page.
#[derive(Debug, Clone, Copy, PartialEq, Eq, Structural)]
pub enum FullPagesStep {
    /// A full page: forward it and keep going.
    Forward,
    /// A small page whose last op is recent: caught up; stop cleanly.
    CaughtUp,
    /// A small page whose last op is old: stop, with a warning.
    StaleStop,
    /// A page with no ops at all: stop cleanly.
    EmptyStop,
}

/// `t` is at most the caught-up age before `now`.
pub open spec fn recent_at(t: Dt, now: Dt) -> bool {
    now.no_later(Dt { secs: (t.secs + CAUGHT_UP_MAX_AGE_SECS) as i64, nanos: t.nanos })
        || t.secs + CAUGHT_UP_MAX_AGE_SECS > i64::MAX
}

/// The full-pages decision for a page of `ops` at `now`.
pub open spec fn full_pages_spec(ops: Seq<Op>, now: Dt) -> FullPagesStep {
    if ops.len() >= FULL_PAGE_MIN {
        FullPagesStep::Forward
    } else if ops.len() == 0 {
        FullPagesStep::EmptyStop
    } else if recent_at(ops.last().created_at, now) {
        FullPagesStep::CaughtUp
    } else {
        FullPagesStep::StaleStop
    }
}

/// Decides what the full-pages filter does with `page` at `now`: pages of
/// at least `FULL_PAGE_MIN` ops go on; a smaller page ends the filter.
pub fn full_pages_step_at(page: &ExportPage, now: Dt) -> (r: FullPagesStep)
    ensures
        r == full_pages_spec(page.ops@, now),
{
    let n = page.ops.len();
    if n >= FULL_PAGE_MIN {
        return FullPagesStep::Forward;
    }
    if n == 0 {
        return FullPagesStep::EmptyStop;
    }
    let t = page.ops[n - 1].created_at;
    let limit: i128 = t.secs as i128 + CAUGHT_UP_MAX_AGE_SECS as i128;
    let recent = if limit > i64::MAX as i128 {
        true
    } else {
        let edge = Dt { secs: limit as i64, nanos: t.nanos };
        !edge.is_earlier(&now)
    };
    if recent {
        FullPagesStep::CaughtUp
    } else {
        FullPagesStep::StaleStop
    }
}

/// The full-pages decision for `page` by the current time.
pub fn full_pages_step(page: &ExportPage) -> (r: FullPagesStep)
    ensures
        exists|now: Dt| r == full_pages_spec(page.ops@, now),
        page.ops@.len() >= FULL_PAGE_MIN ==> r == FullPagesStep::Forward,
        page.ops@.len() == 0 ==> r == FullPagesStep::EmptyStop,
{
    let now = Dt::now();
    full_pages_step_at(page, now)
}

/// The later of a known time and a page's final op time.
pub open spec fn fold_last_at_spec(last: Option<Dt>, ops: Seq<Op>) -> Option<Dt> {
    if ops.len() == 0 {
        last
    } else {
        let t = ops.last().created_at;
        match last {
            Some(l) => if t.earlier(l) {
                Some(l)
            } else {
                Some(t)
            },
            None => Some(t),
        }
    }
}

/// Carries the latest op time seen forward over one more page: a sink
/// reports it to the catch-up poller once its input ends.
pub fn fold_last_at(last: Option<Dt>, page: &ExportPage) -> (r: Option<Dt>)
    ensures
        r == fold_last_at_spec(last, page.ops@),
{
    let n = page.ops.len();
    if n == 0 {
        return last;
    }
    let t = page.ops[n - 1].created_at;
    match last {
        Some(l) => if t.is_earlier(&l) {
            Some(l)
        } else {
            Some(t)
        },
        None => Some(t),
    }
}

/// Groups a stream of ops into pages of `BUNDLE_PAGE_SIZE`, in order.
#[derive(Debug)]
pub struct PageChunker {
    pub pending: Vec<Op>,
}

impl PageChunker {
    pub open spec fn wf(&self) -> bool {
        self.pending@.len() < BUNDLE_PAGE_SIZE
    }

    pub fn new() -> (r: PageChunker)
        ensures
            r.pending@.len() == 0,
            r.wf(),
    {
        PageChunker { pending: Vec::new() }
    }

    /// Adds `op`; hands back a full page when this op completes one.
    pub fn push(&mut self, op: Op) -> (r: Option<ExportPage>)
        requires
            old(self).wf(),
        ensures
            final(self).wf(),
            old(self).pending@.len() + 1 == BUNDLE_PAGE_SIZE ==> {
                &&& r matches Some(p) && p.ops@ == old(self).pending@.push(op)
                &&& final(self).pending@.len() == 0
            },
            old(self).pending@.len() + 1 < BUNDLE_PAGE_SIZE ==> {
                &&& r is None
                &&& final(self).pending@ == old(self).pending@.push(op)
            },
    {
        self.pending.push(op);
        if self.pending.len() == BUNDLE_PAGE_SIZE {
            let mut ops: Vec<Op> = Vec::new();
            core::mem::swap(&mut ops, &mut self.pending);
            Some(ExportPage { ops })
        } else {
            None
        }
    }

    /// The last, partial page, if any ops are left.
    pub fn finish(self) -> (r: Option<ExportPage>)
        ensures
            self.pending@.len() == 0 ==> r is None,
            self.pending@.len() > 0 ==> (r matches Some(p) && p.ops@ == self.pending@),
    {
        if self.pending.len() == 0 {
            None
        } else {
            Some(ExportPage { ops: self.pending })
        }
    }
}

} // verus!

verus! {

/// Parallel bundle fetchers when none are asked for, for a local folder.
pub const DEFAULT_FOLDER_WORKERS: usize = 1;

/// Parallel bundle fetchers when none are asked for, over HTTP.
pub const DEFAULT_HTTP_WORKERS: usize = 4;

/// Where weekly bundles come from.
#[derive(Debug, Clone, Copy, PartialEq, Eq, Structural)]
pub enum BulkSource {
    Folder,
    Http,
}

/// Where pages end up.
#[derive(Debug, Clone, Copy, PartialEq, Eq, Structural)]
pub enum SinkKind {
    Stdout,
    Postgres,
}

/// What a backfill run was asked to do.
#[derive(Debug, Clone, Copy, PartialEq, Eq, Structural)]
pub struct BackfillOptions {
    /// A local bundle folder was given.
    pub has_dir: bool,
    /// The bundle URL prefix is the default one.
    pub http_is_default: bool,
    /// Skip weekly bundles and poll upstream from the beginning.
    pub no_bulk: bool,
    /// Parallel bundle fetchers asked for.
    pub source_workers: Option<usize>,
    /// Load into postgres rather than print.
    pub to_postgres: bool,
    /// After the bundles, poll upstream until caught up.
    pub catch_up: bool,
}

/// The tasks of a backfill run.
#[derive(Debug, Clone, Copy, PartialEq, Eq, Structural)]
pub enum BackfillPlan {
    /// Poll upstream from the beginning, through the full-pages filter, to
    /// stdout.
    PollOnly,
    /// Fetch bundles with `workers` fetchers into `sink`; when `catch_up`,
    /// then poll upstream from the last bundled op, through the full-pages
    /// filter, into the same kind of sink.
    Bulk { source: BulkSource, workers: usize, sink: SinkKind, catch_up: bool },
}

/// Why a backfill run cannot start.
#[derive(Debug, Clone, Copy, PartialEq, Eq, Structural)]
pub enum PlanError {
    /// A bundle folder and a non-default bundle URL were both given.
    FolderAndHttp,
}

/// The plan for `o`, as a value.
pub open spec fn plan_spec(o: BackfillOptions) -> Result<BackfillPlan, PlanError> {
    if o.no_bulk {
        Ok(BackfillPlan::PollOnly)
    } else if o.has_dir && !o.http_is_default {
        Err(PlanError::FolderAndHttp)
    } else {
        let source = if o.has_dir {
            BulkSource::Folder
        } else {
            BulkSource::Http
        };
        let workers = match o.source_workers {
            Some(n) => n,
            None => if o.has_dir {
                DEFAULT_FOLDER_WORKERS
            } else {
                DEFAULT_HTTP_WORKERS
            },
        };
        let sink = if o.to_postgres {
            SinkKind::Postgres
        } else {
            SinkKind::Stdout
        };
        Ok(BackfillPlan::Bulk { source, workers, sink, catch_up: o.catch_up })
    }
}

/// Decides which tasks a backfill run wires together.
pub fn plan_backfill(o: &BackfillOptions) -> (r: Result<BackfillPlan, PlanError>)
    ensures
        r == plan_spec(*o),
{
    if o.no_bulk {
        return Ok(BackfillPlan::PollOnly);
    }
    if o.has_dir && !o.http_is_default {
        return Err(PlanError::FolderAndHttp);
    }
    let source = if o.has_dir {
        BulkSource::Folder
    } else {
        BulkSource::Http
    };
    let workers = match o.source_workers {
        Some(n) => n,
        None => if o.has_dir {
            DEFAULT_FOLDER_WORKERS
        } else {
            DEFAULT_HTTP_WORKERS
        },
    };
    let sink = if o.to_postgres {
        SinkKind::Postgres
    } else {
        SinkKind::Stdout
    };
    Ok(BackfillPlan::Bulk { source, workers, sink, catch_up: o.catch_up })
}

/// How a supervised task ended.
#[derive(Debug, Clone, Copy, PartialEq, Eq, Structural)]
pub enum TaskEnd {
    Panicked,
    JoinFailed,
    Failed,
    Completed,
}

/// Whether the whole pipeline stops on a task's end: on a panic, a failed
/// join or a task error it does; a task that completed lets the rest go on.
pub fn aborts_pipeline(end: TaskEnd) -> (r: bool)
    ensures
        r == !(end is Completed),
{
    match end {
        TaskEnd::Completed => false,
        _ => true,
    }
}

} // verus!
