//! The orchestrator's decisions: which files of a year to (re)process, what
//! to store for a downloaded file, and the run's state machine of delays,
//! cycles and shutdown.

use crate::config::{contains_text, texts_of, LocationFilter, SchedulerConfig, SourceConfig};
use crate::db::models::{InsertResult, NewObservation, NewProcessedFile, NewStation};
use crate::error::Result;
use crate::fetcher::FileInfo;
use crate::parser::{default_threshold, file_outcome, ParseStats, Parser};
use crate::text::text;
use vstd::prelude::*;

verus! {

// ------------------------------------------------------------------ years

/// What a cycle does with a listed file.
#[derive(Clone, Copy, Debug, PartialEq, Eq, Structural)]
pub enum FileAction {
    /// Never recorded: process it.
    Process,
    /// Recorded, but of the current year, whose files still grow: process it again.
    Reprocess,
    /// Recorded, of a past year, whose files no longer change: leave it, with no download.
    Skip,
}

/// The action for a file of `year` in `current_year`, by whether it is recorded.
pub open spec fn file_action(year: i32, current_year: i32, recorded: bool) -> FileAction {
    if !recorded {
        FileAction::Process
    } else if year == current_year {
        FileAction::Reprocess
    } else {
        FileAction::Skip
    }
}

/// A file already recorded is processed again in the current year, and left
/// alone, with no download, in any past year; a file never recorded is
/// processed in any year.
pub proof fn lemma_current_year_override(year: i32, current_year: i32)
    ensures
        file_action(current_year, current_year, true) == FileAction::Reprocess,
        year != current_year ==> file_action(year, current_year, true) == FileAction::Skip,
        file_action(year, current_year, false) == FileAction::Process,
{
}

/// For each listed file of `year`, what a cycle in `current_year` does with it,
/// given the names of the files already recorded for that year.
pub fn plan_year(
    year: i32,
    current_year: i32,
    files: &Vec<FileInfo>,
    recorded: &Vec<String>,
) -> (r: Vec<FileAction>)
    ensures
        r.len() == files.len(),
        forall|k: int|
            0 <= k < files.len() ==> r@[k] == file_action(
                year,
                current_year,
                texts_of(recorded@).contains(#[trigger] files@[k].name@),
            ),
{
    let mut plan: Vec<FileAction> = Vec::new();
    let mut j: usize = 0;
    while j < files.len()
        invariant
            j <= files.len(),
            plan.len() == j,
            forall|k: int|
                0 <= k < j ==> plan@[k] == file_action(
                    year,
                    current_year,
                    texts_of(recorded@).contains(#[trigger] files@[k].name@),
                ),
        decreases files.len() - j,
    {
        let seen = contains_text(recorded, &files[j].name);
        let action = if !seen {
            FileAction::Process
        } else if year == current_year {
            FileAction::Reprocess
        } else {
            FileAction::Skip
        };
        plan.push(action);
        j += 1;
    }
    plan
}

/// The pause after each file, in milliseconds; none where it is configured as zero.
pub fn request_delay(source: &SourceConfig) -> (r: Option<u64>)
    ensures
        r == if source.request_delay_ms > 0 {
            Some(source.request_delay_ms)
        } else {
            None::<u64>
        },
{
    if source.request_delay_ms > 0 {
        Some(source.request_delay_ms)
    } else {
        None
    }
}

// ------------------------------------------------------------------ files

/// The observations of `s` whose station the filter admits, in order.
pub open spec fn kept(filter: LocationFilter, s: Seq<NewObservation>) -> Seq<NewObservation>
    decreases s.len(),
{
    if s.len() == 0 {
        Seq::empty()
    } else {
        let k = kept(filter, s.drop_last());
        if filter.station_selected(s.last().wbanno) {
            k.push(s.last())
        } else {
            k
        }
    }
}

proof fn lemma_kept_concat(filter: LocationFilter, a: Seq<NewObservation>, b: Seq<NewObservation>)
    ensures
        kept(filter, a + b) == kept(filter, a) + kept(filter, b),
    decreases b.len(),
{
    if b.len() == 0 {
        assert(a + b =~= a);
        assert(kept(filter, a) + kept(filter, b) =~= kept(filter, a));
    } else {
        lemma_kept_concat(filter, a, b.drop_last());
        assert((a + b).drop_last() =~= a + b.drop_last());
        if filter.station_selected(b.last().wbanno) {
            assert(kept(filter, a) + kept(filter, b) =~= (kept(filter, a) + kept(
                filter,
                b.drop_last(),
            )).push(b.last()));
        }
    }
}

/// The observations whose station passes the filter's station stage, in order.
pub fn keep_selected_stations(observations: Vec<NewObservation>, filter: &LocationFilter) -> (r: Vec<
    NewObservation,
>)
    ensures
        r@ == kept(*filter, observations@),
{
    let ghost orig = observations@;
    let mut v = observations;
    let mut back: Vec<NewObservation> = Vec::new();
    while v.len() > 0
        invariant
            v@ == orig.take(v.len() as int),
            v.len() <= orig.len(),
            back.len() == kept(*filter, orig.skip(v.len() as int)).len(),
            forall|k: int|
                0 <= k < back.len() ==> #[trigger] back@[k] == kept(
                    *filter,
                    orig.skip(v.len() as int),
                )[back.len() - 1 - k],
        decreases v.len(),
    {
        let ghost i = v.len() as int;
        let o = v.pop().unwrap();
        proof {
            assert(orig.take(i).drop_last() =~= orig.take(i - 1));
            let one = seq![orig[i - 1]];
            assert(orig.skip(i - 1) =~= one + orig.skip(i));
            lemma_kept_concat(*filter, one, orig.skip(i));
            assert(one.drop_last() =~= Seq::<NewObservation>::empty());
        }
        let ghost before = back@;
        let ghost rest = kept(*filter, orig.skip(i));
        let sel = filter.matches_station(o.wbanno);
        if sel {
            back.push(o);
        }
        proof {
            let one = seq![orig[i - 1]];
            assert(o == orig[i - 1]);
            assert(one.drop_last() =~= Seq::<NewObservation>::empty());
            assert(one.last() == o);
            assert(kept(*filter, one.drop_last()) =~= Seq::<NewObservation>::empty());
            if sel {
                assert(kept(*filter, one) =~= one);
                assert(kept(*filter, orig.skip(i - 1)) =~= one + rest);
                assert forall|k: int| 0 <= k < back.len() implies #[trigger] back@[k] == (one
                    + rest)[back.len() - 1 - k] by {
                    if k < before.len() {
                        assert(back@[k] == before[k]);
                    }
                }
            } else {
                assert(kept(*filter, one) =~= Seq::<NewObservation>::empty());
                assert(kept(*filter, orig.skip(i - 1)) =~= rest);
            }
        }
    }
    assert(orig.skip(0) =~= orig);
    let mut out: Vec<NewObservation> = Vec::new();
    while back.len() > 0
        invariant
            out.len() + back.len() == kept(*filter, orig).len(),
            forall|k: int| 0 <= k < out.len() ==> #[trigger] out@[k] == kept(*filter, orig)[k],
            forall|k: int|
                0 <= k < back.len() ==> #[trigger] back@[k] == kept(*filter, orig)[kept(
                    *filter,
                    orig,
                ).len() - 1 - k],
        decreases back.len(),
    {
        let o = back.pop().unwrap();
        out.push(o);
    }
    assert(out@ =~= kept(*filter, orig));
    out
}

/// The station ids of `ids`, each once, in order of first appearance.
pub open spec fn distinct_ids(ids: Seq<i32>) -> Seq<i32>
    decreases ids.len(),
{
    if ids.len() == 0 {
        Seq::empty()
    } else {
        let d = distinct_ids(ids.drop_last());
        if d.contains(ids.last()) {
            d
        } else {
            d.push(ids.last())
        }
    }
}

pub open spec fn station_ids(s: Seq<NewObservation>) -> Seq<i32> {
    s.map_values(|o: NewObservation| o.wbanno)
}

/// `st` is the station row that a file's observations create for station `id`.
pub open spec fn is_station_of(st: NewStation, id: i32, info: FileInfo) -> bool {
    &&& st.wbanno == id
    &&& st.name is Some && st.name->0@ == info.station_name@
    &&& st.state@ == info.state@
    &&& st.latitude is None
    &&& st.longitude is None
}

/// One station row for each station that `observations` mention, in order of
/// first mention, named and placed by the file they came from.
pub fn distinct_stations(observations: &Vec<NewObservation>, info: &FileInfo) -> (r: Vec<NewStation>)
    ensures
        r.len() == distinct_ids(station_ids(observations@)).len(),
        forall|k: int|
            0 <= k < r.len() ==> is_station_of(
                #[trigger] r@[k],
                distinct_ids(station_ids(observations@))[k],
                *info,
            ),
{
    let ghost ids = station_ids(observations@);
    let mut seen: Vec<i32> = Vec::new();
    let mut out: Vec<NewStation> = Vec::new();
    let mut j: usize = 0;
    while j < observations.len()
        invariant
            ids == station_ids(observations@),
            j <= observations.len(),
            seen@ == distinct_ids(ids.take(j as int)),
            out.len() == seen.len(),
            forall|k: int| 0 <= k < out.len() ==> is_station_of(#[trigger] out@[k], seen@[k], *info),
        decreases observations.len() - j,
    {
        assert(ids.take(j + 1).drop_last() =~= ids.take(j as int));
        let id = observations[j].wbanno;
        let mut found = false;
        let mut i: usize = 0;
        while i < seen.len()
            invariant
                i <= seen.len(),
                found == exists|q: int| 0 <= q < i && seen@[q] == id,
            decreases seen.len() - i,
        {
            if seen[i] == id {
                found = true;
            }
            i += 1;
        }
        if !found {
            seen.push(id);
            out.push(
                NewStation {
                    wbanno: id,
                    name: Some(info.station_name.clone()),
                    state: info.state.clone(),
                    latitude: None,
                    longitude: None,
                },
            );
        } else {
            let ghost q = choose|q: int| 0 <= q < seen.len() && seen@[q] == id;
            assert(seen@.contains(id));
        }
        j += 1;
    }
    assert(ids.take(observations.len() as int) =~= ids);
    out
}

// ------------------------------------------------------------- provenance

/// Where an attempt at a file stands.
#[derive(Clone, Copy, Debug, PartialEq, Eq, Structural)]
pub enum FileStatus {
    Processing,
    Completed,
    Failed,
}

pub open spec fn status_text(s: FileStatus) -> Seq<char> {
    match s {
        FileStatus::Processing => "processing"@,
        FileStatus::Completed => "completed"@,
        FileStatus::Failed => "failed"@,
    }
}

impl FileStatus {
    /// The name under which the status is stored.
    pub fn as_str(&self) -> (r: &'static str)
        ensures
            r@ == status_text(*self),
    {
        match self {
            FileStatus::Processing => "processing",
            FileStatus::Completed => "completed",
            FileStatus::Failed => "failed",
        }
    }
}

/// A count as stored: the largest `i32` where it does not fit.
pub open spec fn stored_count(n: nat) -> i32 {
    if n <= i32::MAX {
        n as i32
    } else {
        i32::MAX
    }
}

fn to_stored_count(n: usize) -> (r: i32)
    ensures
        r == stored_count(n as nat),
{
    if n <= 2147483647 {
        n as i32
    } else {
        2147483647
    }
}

/// `rec` records an attempt at the file `info` with the given counts and status.
pub open spec fn is_record_for(
    rec: NewProcessedFile,
    info: FileInfo,
    rows: nat,
    inserted: nat,
    updated: nat,
    failures: nat,
    status: FileStatus,
) -> bool {
    &&& rec.file_name@ == info.name@
    &&& rec.file_url@ == info.url@
    &&& rec.year == info.year
    &&& rec.state@ == info.state@
    &&& rec.station_name@ == info.station_name@
    &&& rec.last_modified is None
    &&& rec.file_hash is None
    &&& rec.rows_processed == stored_count(rows)
    &&& rec.observations_inserted == stored_count(inserted)
    &&& rec.observations_updated == stored_count(updated)
    &&& rec.parse_failures == stored_count(failures)
    &&& rec.processing_status@ == status_text(status)
}

/// The provenance record of an attempt at the file `info`.
pub fn file_record(
    info: &FileInfo,
    rows: usize,
    inserted: usize,
    updated: usize,
    parse_failures: usize,
    status: FileStatus,
) -> (r: NewProcessedFile)
    ensures
        is_record_for(
            r,
            *info,
            rows as nat,
            inserted as nat,
            updated as nat,
            parse_failures as nat,
            status,
        ),
{
    NewProcessedFile {
        file_name: info.name.clone(),
        file_url: info.url.clone(),
        year: info.year,
        state: info.state.clone(),
        station_name: info.station_name.clone(),
        last_modified: None,
        rows_processed: to_stored_count(rows),
        file_hash: None,
        observations_inserted: to_stored_count(inserted),
        observations_updated: to_stored_count(updated),
        parse_failures: to_stored_count(parse_failures),
        processing_status: text(status.as_str()),
    }
}

/// What a downloaded file leads to storing.
pub struct PreparedFile {
    /// The parsed observations of admitted stations, in file order.
    pub observations: Vec<NewObservation>,
    pub stats: ParseStats,
    /// A station row for each station of `observations`.
    pub stations: Vec<NewStation>,
    /// The first provenance record: `failed` with no rows where no
    /// observation is left, else `processing` with their count.
    pub record: NewProcessedFile,
}

/// `p` is what the parsed observations `parsed` of the file `info` lead to storing.
pub open spec fn prepared_from(
    p: PreparedFile,
    parsed: Seq<NewObservation>,
    info: FileInfo,
    filter: LocationFilter,
) -> bool {
    let obs = kept(filter, parsed);
    &&& p.observations@ == obs
    &&& p.stations.len() == distinct_ids(station_ids(obs)).len()
    &&& forall|k: int|
        0 <= k < p.stations.len() ==> is_station_of(
            #[trigger] p.stations@[k],
            distinct_ids(station_ids(obs))[k],
            info,
        )
    &&& if obs.len() == 0 {
        is_record_for(p.record, info, 0, 0, 0, p.stats.parse_failures as nat, FileStatus::Failed)
    } else {
        is_record_for(
            p.record,
            info,
            obs.len(),
            0,
            0,
            p.stats.parse_failures as nat,
            FileStatus::Processing,
        )
    }
}

/// Narrows parsed observations to the admitted stations and derives the station
/// rows and first provenance record to store for them.
pub fn prepare_parsed(
    observations: Vec<NewObservation>,
    stats: ParseStats,
    info: &FileInfo,
    filter: &LocationFilter,
) -> (r: PreparedFile)
    ensures
        r.stats == stats,
        prepared_from(r, observations@, *info, *filter),
{
    let obs = keep_selected_stations(observations, filter);
    let stations = distinct_stations(&obs, info);
    let record = if obs.len() == 0 {
        file_record(info, 0, 0, 0, stats.parse_failures, FileStatus::Failed)
    } else {
        file_record(info, obs.len(), 0, 0, stats.parse_failures, FileStatus::Processing)
    };
    PreparedFile { observations: obs, stats, stations, record }
}

/// Parses a downloaded file under the default quality gate and prepares what
/// to store for it (see `prepare_parsed`).
pub fn prepare_file(content: &str, info: &FileInfo, filter: &LocationFilter) -> (r: Result<
    PreparedFile,
>)
    ensures
        match r {
            Ok(p) => exists|parsed: Vec<NewObservation>|
                file_outcome(content@, default_threshold(), Ok((parsed, p.stats))) && prepared_from(
                    p,
                    parsed@,
                    *info,
                    *filter,
                ),
            Err(e) => file_outcome(content@, default_threshold(), Err(e)),
        },
{
    match Parser::parse_file(content) {
        Ok((parsed, stats)) => {
            let ghost g = parsed;
            let p = prepare_parsed(parsed, stats, info, filter);
            assert(file_outcome(content@, default_threshold(), Ok((g, p.stats))));
            Ok(p)
        },
        Err(e) => Err(e),
    }
}

/// The final provenance record of a file whose observations were merged.
pub fn completed_record(
    info: &FileInfo,
    rows: usize,
    result: &InsertResult,
    parse_failures: usize,
) -> (r: NewProcessedFile)
    ensures
        is_record_for(
            r,
            *info,
            rows as nat,
            result.inserted as nat,
            result.updated as nat,
            parse_failures as nat,
            FileStatus::Completed,
        ),
{
    file_record(info, rows, result.inserted, result.updated, parse_failures, FileStatus::Completed)
}

// -------------------------------------------------------------------- runs

/// Where a run stands.
#[derive(Clone, Copy, Debug, PartialEq, Eq, Structural)]
pub enum RunPhase {
    Idle,
    InitialDelay,
    /// A cycle is under way; `stop_requested` records a shutdown seen meanwhile.
    Cycle { stop_requested: bool },
    Waiting,
    Stopped,
}

/// What happened at the point where the run was suspended.
#[derive(Clone, Copy, Debug, PartialEq, Eq, Structural)]
pub enum RunEvent {
    Started,
    DelayElapsed,
    CycleFinished,
    Tick,
    Shutdown,
}

/// What the run does next.
#[derive(Clone, Copy, Debug, PartialEq, Eq, Structural)]
pub enum RunAction {
    /// Wait this many seconds, or until shutdown.
    Sleep { seconds: u64 },
    /// Run one ingestion cycle over every configured year.
    RunCycle,
    /// Wait this many seconds for the next tick, or until shutdown.
    WaitForTick { seconds: u64 },
    Stop,
    /// Carry on with what is under way.
    Continue,
}

/// Seconds between two cycles.
pub open spec fn interval_seconds(cfg: SchedulerConfig) -> u64 {
    if cfg.interval_minutes * 60 <= u64::MAX {
        (cfg.interval_minutes * 60) as u64
    } else {
        u64::MAX
    }
}

/// The run's next phase and action after `event` in `phase`: an initial
/// delay, a first cycle at once, then a cycle at each tick; shutdown ends the
/// run at a delay or a wait, and after the cycle under way, never within one.
pub open spec fn run_step(cfg: SchedulerConfig, phase: RunPhase, event: RunEvent) -> (RunPhase, RunAction) {
    match (phase, event) {
        (RunPhase::Idle, RunEvent::Started) => (
            RunPhase::InitialDelay,
            RunAction::Sleep { seconds: cfg.initial_delay_seconds },
        ),
        (RunPhase::InitialDelay, RunEvent::DelayElapsed) => (
            RunPhase::Cycle { stop_requested: false },
            RunAction::RunCycle,
        ),
        (RunPhase::InitialDelay, RunEvent::Shutdown) => (RunPhase::Stopped, RunAction::Stop),
        (RunPhase::Cycle { stop_requested }, RunEvent::Shutdown) => (
            RunPhase::Cycle { stop_requested: true },
            RunAction::Continue,
        ),
        (RunPhase::Cycle { stop_requested }, RunEvent::CycleFinished) => if stop_requested {
            (RunPhase::Stopped, RunAction::Stop)
        } else {
            (RunPhase::Waiting, RunAction::WaitForTick { seconds: interval_seconds(cfg) })
        },
        (RunPhase::Waiting, RunEvent::Tick) => (
            RunPhase::Cycle { stop_requested: false },
            RunAction::RunCycle,
        ),
        (RunPhase::Waiting, RunEvent::Shutdown) => (RunPhase::Stopped, RunAction::Stop),
        (RunPhase::Stopped, _) => (RunPhase::Stopped, RunAction::Stop),
        (p, _) => (p, RunAction::Continue),
    }
}

/// The run's next phase and action (see `run_step`).
pub fn next_step(cfg: &SchedulerConfig, phase: RunPhase, event: RunEvent) -> (r: (RunPhase, RunAction))
    ensures
        r == run_step(*cfg, phase, event),
{
    match (phase, event) {
        (RunPhase::Idle, RunEvent::Started) => (
            RunPhase::InitialDelay,
            RunAction::Sleep { seconds: cfg.initial_delay_seconds },
        ),
        (RunPhase::InitialDelay, RunEvent::DelayElapsed) => (
            RunPhase::Cycle { stop_requested: false },
            RunAction::RunCycle,
        ),
        (RunPhase::InitialDelay, RunEvent::Shutdown) => (RunPhase::Stopped, RunAction::Stop),
        (RunPhase::Cycle { stop_requested: _ }, RunEvent::Shutdown) => (
            RunPhase::Cycle { stop_requested: true },
            RunAction::Continue,
        ),
        (RunPhase::Cycle { stop_requested }, RunEvent::CycleFinished) => if stop_requested {
            (RunPhase::Stopped, RunAction::Stop)
        } else {
            let seconds = cfg.interval_minutes.checked_mul(60).unwrap_or(u64::MAX);
            (RunPhase::Waiting, RunAction::WaitForTick { seconds })
        },
        (RunPhase::Waiting, RunEvent::Tick) => (
            RunPhase::Cycle { stop_requested: false },
            RunAction::RunCycle,
        ),
        (RunPhase::Waiting, RunEvent::Shutdown) => (RunPhase::Stopped, RunAction::Stop),
        (RunPhase::Stopped, _) => (RunPhase::Stopped, RunAction::Stop),
        (p, _) => (p, RunAction::Continue),
    }
}

} // verus!
