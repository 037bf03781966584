//! A collection run as a state machine. The run hands out one task at a
//! time; whoever drives it carries the task out and reports what came of
//! it. The run itself touches neither files nor the network.

use crate::codes::{loaded, set_codes, InputRead, LoadFailure};
use crate::config::{
    combined_targets_of, directories_of, json_dir_of, report_target_of, set_targets_of,
    text_dir_of, Settings,
};
use crate::fetch::{fetched, request_target, success_status, Reply};
use crate::report::report_text;
use crate::results::{lemma_store, Results};
use crate::text::trimmed;
use vstd::prelude::*;

verus! {

/// What the run asks for next.
pub enum Task {
    /// Read the list of set codes.
    ReadInput { path: Seq<char> },
    /// See to it that the directory exists.
    MakeDirectory { path: Seq<char> },
    /// Ask the service for a set.
    Fetch { url: Seq<char>, user_agent: Seq<char> },
    /// Write `content` to the file at `path`, replacing what is there.
    WriteFile { path: Seq<char>, content: Seq<char> },
    /// Wait.
    Pause { millis: u64 },
    /// Stop: with a failure where there was no list of codes, else in good
    /// order.
    Exit { failure: Option<LoadFailure> },
}

/// What came of a task.
pub enum Occurrence {
    Input(InputRead),
    Directory { ready: bool },
    Response(Reply),
    Write { saved: bool },
    Resumed,
}

/// Where a run stands: the task that is under way.
pub enum Stage {
    /// Reading the list of set codes.
    Loading,
    /// Making the directory with the index `next`.
    Preparing { next: nat },
    /// Asking for the set with the index `set`.
    Fetching { set: nat },
    /// Writing the payload `body` of `set` to its target with the index
    /// `target`; `saved` tells whether an earlier target took it.
    Saving { set: nat, target: nat, body: Seq<char>, saved: bool },
    /// Waiting after `set`.
    Pausing { set: nat },
    /// Writing the combined text to its target with the index `target`.
    Combining { target: nat },
    /// Writing the report.
    Reporting,
    /// Over.
    Done { failure: Option<LoadFailure> },
}

/// A run: its settings, the launch time as the report shows it, the set
/// codes once they are loaded, what was collected, and where it stands.
pub struct Run {
    pub config: Settings,
    pub stamp: Seq<char>,
    pub codes: Seq<Seq<char>>,
    pub results: Results,
    pub stage: Stage,
}

impl Run {
    /// A run before its first task.
    pub open spec fn begin(config: Settings, stamp: Seq<char>) -> Run {
        Run {
            config,
            stamp,
            codes: Seq::empty(),
            results: Results::empty(),
            stage: Stage::Loading,
        }
    }

    /// The files that take the payload of the set with the index `set`.
    pub open spec fn targets(self, set: int) -> Seq<Seq<char>> {
        set_targets_of(self.config.layout, self.codes[set])
    }

    /// The stage points at something that is there, and nothing is made
    /// or asked for without a set code.
    pub open spec fn wf(self) -> bool {
        &&& self.results.wf()
        &&& match self.stage {
            Stage::Loading => true,
            Stage::Preparing { next } => next < directories_of(self.config.layout).len()
                && self.codes.len() > 0,
            Stage::Fetching { set } => set < self.codes.len(),
            Stage::Saving { set, target, .. } => set < self.codes.len() && target
                < self.targets(set as int).len(),
            Stage::Pausing { set } => set < self.codes.len(),
            Stage::Combining { target } => target < combined_targets_of(self.config.layout).len(),
            Stage::Reporting => report_target_of(self.config.layout) is Some,
            Stage::Done { .. } => true,
        }
    }

    /// The run at another stage.
    pub open spec fn at(self, stage: Stage) -> Run {
        Run { stage, ..self }
    }

    /// The run once all sets are through: the combined text is due where
    /// anything was collected and the layout has a place for it.
    pub open spec fn wrap_up(self) -> Run {
        if self.results.count() > 0 && combined_targets_of(self.config.layout).len() > 0 {
            self.at(Stage::Combining { target: 0 })
        } else {
            self.close()
        }
    }

    /// The run once the combined text is through: the report is due where
    /// the layout has a place for it.
    pub open spec fn close(self) -> Run {
        if report_target_of(self.config.layout) is Some {
            self.at(Stage::Reporting)
        } else {
            self.at(Stage::Done { failure: None })
        }
    }

    /// The task that is under way.
    pub open spec fn pending(self) -> Task {
        match self.stage {
            Stage::Loading => Task::ReadInput { path: self.config.input_file },
            Stage::Preparing { next } => Task::MakeDirectory {
                path: directories_of(self.config.layout)[next as int],
            },
            Stage::Fetching { set } => Task::Fetch {
                url: request_target(self.config.base_url, self.codes[set as int]),
                user_agent: self.config.user_agent,
            },
            Stage::Saving { set, target, body, .. } => Task::WriteFile {
                path: self.targets(set as int)[target as int],
                content: body,
            },
            Stage::Pausing { .. } => Task::Pause { millis: self.config.pause_millis },
            Stage::Combining { target } => Task::WriteFile {
                path: combined_targets_of(self.config.layout)[target as int],
                content: self.results.combined(),
            },
            Stage::Reporting => Task::WriteFile {
                path: report_target_of(self.config.layout).unwrap(),
                content: report_text(
                    self.stamp,
                    self.codes,
                    self.results.count(),
                    text_dir_of(self.config.layout),
                    json_dir_of(self.config.layout),
                ),
            },
            Stage::Done { failure } => Task::Exit { failure },
        }
    }

    /// The run after `event`. An event that does not answer the task under
    /// way changes nothing, and neither does any event once the run is
    /// over.
    ///
    /// - The list of codes: without a list the run is over and has failed;
    ///   with an empty list it is over in good order, before anything is
    ///   made or asked for; else the directories are made, one by one.
    /// - A directory: whether or not it is ready, the next one is made, and
    ///   after the last the first set is asked for.
    /// - An answer: the payload of a success is written to each target of
    ///   the set in turn; any other answer leaves the set out.
    /// - A write of a payload: after the last target the payload is kept
    ///   for the combined text if at least one target took it.
    /// - After each set, kept or not, the run waits, then goes on to the
    ///   next set, and after the last one to the combined text and the
    ///   report, whose writes may fail without further consequence.
    pub open spec fn after(self, event: Occurrence) -> Run {
        match (self.stage, event) {
            (Stage::Loading, Occurrence::Input(read)) => match loaded(
                self.config.input_file,
                read,
            ) {
                Err(failure) => self.at(Stage::Done { failure: Some(failure) }),
                Ok(codes) => if codes.len() == 0 {
                    self.at(Stage::Done { failure: None })
                } else {
                    Run { codes, stage: Stage::Preparing { next: 0 }, ..self }
                },
            },
            (Stage::Preparing { next }, Occurrence::Directory { .. }) => if next + 1
                < directories_of(self.config.layout).len() {
                self.at(Stage::Preparing { next: next + 1 })
            } else {
                self.at(Stage::Fetching { set: 0 })
            },
            (Stage::Fetching { set }, Occurrence::Response(reply)) => match fetched(
                request_target(self.config.base_url, self.codes[set as int]),
                reply,
            ) {
                Ok(body) => self.at(Stage::Saving { set, target: 0, body, saved: false }),
                Err(_) => self.at(Stage::Pausing { set }),
            },
            (Stage::Saving { set, target, body, saved }, Occurrence::Write { saved: taken }) => if target
                + 1 < self.targets(set as int).len() {
                self.at(Stage::Saving { set, target: target + 1, body, saved: saved || taken })
            } else {
                Run {
                    results: if saved || taken {
                        self.results.store(trimmed(self.codes[set as int]), body)
                    } else {
                        self.results
                    },
                    stage: Stage::Pausing { set },
                    ..self
                }
            },
            (Stage::Pausing { set }, Occurrence::Resumed) => if set + 1 < self.codes.len() {
                self.at(Stage::Fetching { set: set + 1 })
            } else {
                self.wrap_up()
            },
            (Stage::Combining { target }, Occurrence::Write { .. }) => if target + 1
                < combined_targets_of(self.config.layout).len() {
                self.at(Stage::Combining { target: target + 1 })
            } else {
                self.close()
            },
            (Stage::Reporting, Occurrence::Write { .. }) => self.at(Stage::Done { failure: None }),
            _ => self,
        }
    }

    /// The run after each of `events` in turn.
    pub open spec fn through(self, events: Seq<Occurrence>) -> Run
        decreases events.len(),
    {
        if events.len() == 0 {
            self
        } else {
            self.through(events.drop_last()).after(events.last())
        }
    }
}

/// The outcomes of writes, as events.
pub open spec fn writes(taken: Seq<bool>) -> Seq<Occurrence> {
    Seq::new(taken.len(), |i: int| Occurrence::Write { saved: taken[i] })
}

/// Every layout has a directory to make and a target for each set.
pub proof fn lemma_layout_has_places(config: Settings, code: Seq<char>)
    ensures
        directories_of(config.layout).len() > 0,
        set_targets_of(config.layout, code).len() > 0,
{
}

/// A run stays well formed, whatever happens.
pub proof fn lemma_after_keeps_wf(run: Run, event: Occurrence)
    requires
        run.wf(),
    ensures
        run.after(event).wf(),
{
    match (run.stage, event) {
        (Stage::Saving { set, body, .. }, Occurrence::Write { .. }) => {
            lemma_store(run.results, trimmed(run.codes[set as int]), body);
        },
        (Stage::Fetching { set }, Occurrence::Response(_)) => {
            lemma_layout_has_places(run.config, run.codes[set as int]);
        },
        _ => {
            lemma_layout_has_places(run.config, Seq::empty());
        },
    }
}

/// A run stays well formed through any events.
pub proof fn lemma_through_keeps_wf(run: Run, events: Seq<Occurrence>)
    requires
        run.wf(),
    ensures
        run.through(events).wf(),
    decreases events.len(),
{
    if events.len() > 0 {
        lemma_through_keeps_wf(run, events.drop_last());
        lemma_after_keeps_wf(run.through(events.drop_last()), events.last());
    }
}

/// Without a list of set codes nothing is asked of the service: when the
/// first thing that happens to a fresh run is that its list is missing or
/// unreadable, the run is over and has failed, and whatever happens next,
/// it never asks for a set, nor for anything but to stop.
pub proof fn lemma_failed_load_fetches_nothing(
    config: Settings,
    stamp: Seq<char>,
    read: InputRead,
    later: Seq<Occurrence>,
)
    requires
        !(read is Text),
    ensures
        Run::begin(config, stamp).pending() is ReadInput,
        Run::begin(config, stamp).after(Occurrence::Input(read)).through(later).pending()
            == (Task::Exit { failure: Some(loaded(config.input_file, read)->Err_0) }),
    decreases later.len(),
{
    if later.len() > 0 {
        lemma_failed_load_fetches_nothing(config, stamp, read, later.drop_last());
    }
}

/// A list without codes ends the run in good order before anything is
/// made, asked for or written.
pub proof fn lemma_empty_list_ends_run(config: Settings, stamp: Seq<char>, content: Seq<char>)
    requires
        set_codes(content).len() == 0,
    ensures
        Run::begin(config, stamp).after(
            Occurrence::Input(InputRead::Text { content }),
        ).pending() == (Task::Exit { failure: None }),
{
}

/// Whether any write succeeded, told from the last write and those before.
proof fn lemma_any_taken(taken: Seq<bool>)
    requires
        taken.len() > 0,
    ensures
        taken.contains(true) == (taken.drop_last().contains(true) || taken.last()),
{
    let fewer = taken.drop_last();
    if fewer.contains(true) {
        let i = choose|i: int| 0 <= i < fewer.len() && fewer[i] == true;
        assert(taken[i] == true);
    }
    if taken.last() {
        assert(taken[taken.len() - 1] == true);
    }
    if taken.contains(true) {
        let i = choose|i: int| 0 <= i < taken.len() && taken[i] == true;
        if i < fewer.len() {
            assert(fewer[i] == true);
        }
    }
}

/// Where a run stands while the payload of a set is written: after a
/// success came for `set` and the first targets were tried, the next target
/// is under way, nothing else has changed, and the run remembers whether a
/// target took the payload.
proof fn lemma_saving_progress(run: Run, reply: Reply, taken: Seq<bool>)
    requires
        run.wf(),
        run.stage is Fetching,
        reply is Responded,
        success_status(reply->status),
        taken.len() < run.targets(run.stage->Fetching_set as int).len(),
    ensures
        run.after(Occurrence::Response(reply)).through(writes(taken)) == run.at(
            Stage::Saving {
                set: run.stage->Fetching_set,
                target: taken.len(),
                body: reply->body,
                saved: taken.contains(true),
            },
        ),
    decreases taken.len(),
{
    let set = run.stage->Fetching_set;
    let first = run.after(Occurrence::Response(reply));
    if taken.len() == 0 {
        assert(!taken.contains(true));
    } else {
        let fewer = taken.drop_last();
        lemma_saving_progress(run, reply, fewer);
        lemma_any_taken(taken);
        assert(writes(taken).drop_last() == writes(fewer));
        assert(writes(taken).last() == Occurrence::Write { saved: taken.last() });
        let before = first.through(writes(fewer));
        assert(before.targets(set as int) == run.targets(set as int));
    }
}

/// Where a run stands once every target of a set was tried: it waits, and
/// nothing has changed but what was collected.
proof fn lemma_saving_done(run: Run, reply: Reply, taken: Seq<bool>)
    requires
        run.wf(),
        run.stage is Fetching,
        reply is Responded,
        success_status(reply->status),
        taken.len() == run.targets(run.stage->Fetching_set as int).len(),
    ensures
        run.after(Occurrence::Response(reply)).through(writes(taken)) == (Run {
            results: if taken.contains(true) {
                run.results.store(
                    trimmed(run.codes[run.stage->Fetching_set as int]),
                    reply->body,
                )
            } else {
                run.results
            },
            stage: Stage::Pausing { set: run.stage->Fetching_set },
            ..run
        }),
{
    let set = run.stage->Fetching_set;
    lemma_layout_has_places(run.config, run.codes[set as int]);
    let fewer = taken.drop_last();
    lemma_saving_progress(run, reply, fewer);
    lemma_any_taken(taken);
    assert(writes(taken).drop_last() == writes(fewer));
    assert(writes(taken).last() == Occurrence::Write { saved: taken.last() });
    let before = run.after(Occurrence::Response(reply)).through(writes(fewer));
    assert(before.targets(set as int) == run.targets(set as int));
}

/// Each file of a set holds the payload as it came: after a success for a
/// set, the write that is under way for any of its targets, the text file
/// first, carries the body of the answer unchanged, whatever became of the
/// writes before it.
pub proof fn lemma_write_carries_body(run: Run, reply: Reply, taken: Seq<bool>)
    requires
        run.wf(),
        run.stage is Fetching,
        reply is Responded,
        success_status(reply->status),
        taken.len() < run.targets(run.stage->Fetching_set as int).len(),
    ensures
        run.after(Occurrence::Response(reply)).through(writes(taken)).pending() == (
        Task::WriteFile {
            path: run.targets(run.stage->Fetching_set as int)[taken.len() as int],
            content: reply->body,
        }),
{
    lemma_saving_progress(run, reply, taken);
}

/// A payload is kept if and only if at least one of its files was written:
/// once every target of a set was tried, the payload stands under the
/// trimmed code of the set where any write succeeded, and the collection is
/// what it was where none did. Either way the run waits next.
pub proof fn lemma_kept_if_any_write_saved(run: Run, reply: Reply, taken: Seq<bool>)
    requires
        run.wf(),
        run.stage is Fetching,
        reply is Responded,
        success_status(reply->status),
        taken.len() == run.targets(run.stage->Fetching_set as int).len(),
    ensures
        ({
            let set = run.stage->Fetching_set;
            let code = trimmed(run.codes[set as int]);
            let end = run.after(Occurrence::Response(reply)).through(writes(taken));
            &&& end.stage == Stage::Pausing { set }
            &&& taken.contains(true) ==> end.results == run.results.store(code, reply->body)
                && end.results.payloads.contains_key(code) && end.results.payloads[code]
                == reply->body
            &&& !taken.contains(true) ==> end.results == run.results
        }),
{
    lemma_saving_done(run, reply, taken);
}

/// Each set is asked for once, in the order of the list: when the wait
/// after a set is over, the next set of the list is asked for, whether the
/// set before it was kept, dropped or never answered; after the last set
/// nothing more is asked of the service.
pub proof fn lemma_sets_in_turn(run: Run, reply: Reply, taken: Seq<bool>)
    requires
        run.wf(),
        run.stage is Fetching,
        taken.len() == if reply is Responded && success_status(reply->status) {
            run.targets(run.stage->Fetching_set as int).len()
        } else {
            0
        },
    ensures
        ({
            let set = run.stage->Fetching_set;
            let end = run.after(Occurrence::Response(reply)).through(writes(taken)).after(
                Occurrence::Resumed,
            );
            &&& set + 1 < run.codes.len() ==> end.pending() == (Task::Fetch {
                url: request_target(run.config.base_url, run.codes[set as int + 1]),
                user_agent: run.config.user_agent,
            })
            &&& set + 1 >= run.codes.len() ==> !(end.pending() is Fetch)
        }),
{
    if reply is Responded && success_status(reply->status) {
        lemma_saving_done(run, reply, taken);
    } else {
        assert(writes(taken).len() == 0);
    }
}

/// A set whose request fails leaves no trace: nothing is written for it and
/// the collection is what it was.
pub proof fn lemma_failed_fetch_is_skipped(run: Run, reply: Reply)
    requires
        run.wf(),
        run.stage is Fetching,
        !(reply is Responded && success_status(reply->status)),
    ensures
        run.after(Occurrence::Response(reply)) == run.at(
            Stage::Pausing { set: run.stage->Fetching_set },
        ),
{
}

/// The report counts what was collected, not what was asked for: the
/// number it gives is the number of set codes that have a payload.
pub proof fn lemma_report_counts_collected(run: Run)
    requires
        run.wf(),
        run.stage is Reporting,
    ensures
        run.pending() == (Task::WriteFile {
            path: report_target_of(run.config.layout).unwrap(),
            content: report_text(
                run.stamp,
                run.codes,
                run.results.payloads.dom().len(),
                text_dir_of(run.config.layout),
                json_dir_of(run.config.layout),
            ),
        }),
{
}

} // verus!
