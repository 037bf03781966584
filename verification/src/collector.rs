//! The run that a program drives: it holds the state of a
//! [`Run`](crate::pipeline::Run), hands out the task under way as an
//! [`Action`] and moves on with each [`Event`].

use crate::codes::{load_set_codes, InputOutcome, LoadError};
use crate::config::Config;
use crate::fetch::{interpret, request_url, HttpOutcome};
use crate::pipeline::{lemma_after_keeps_wf, Occurrence, Run, Stage, Task};
use crate::report::{formatted_time, launch_stamp, metadata_report, stamp_pattern, LaunchTime};
use crate::results::ResultMap;
use crate::text::trim;
use vstd::pervasive::unreached;
use vstd::prelude::*;

verus! {

/// What came of an action.
#[derive(Clone, Debug, PartialEq, Eq)]
pub enum Event {
    /// What reading the list of set codes gave.
    Input(InputOutcome),
    /// Whether the directory is there now.
    Directory { ready: bool },
    /// How the request ended.
    Response(HttpOutcome),
    /// Whether the file was written.
    Write { saved: bool },
    /// The wait is over.
    Resumed,
}

/// What the run asks its driver to do.
#[derive(Clone, Debug, PartialEq, Eq)]
pub enum Action {
    /// Read the list of set codes and report it as [`Event::Input`].
    ReadInput { path: String },
    /// Make the directory unless it exists; report as [`Event::Directory`].
    MakeDirectory { path: String },
    /// Send a GET request to `url` under the name `user_agent`; report as
    /// [`Event::Response`].
    Fetch { url: String, user_agent: String },
    /// Write `content` to the file at `path`, replacing what is there;
    /// report as [`Event::Write`].
    WriteFile { path: String, content: String },
    /// Wait for so many milliseconds; report as [`Event::Resumed`].
    Pause { millis: u64 },
    /// Stop: with the failure, if there is one, else in good order.
    Exit { failure: Option<LoadError> },
}

impl View for Event {
    type V = Occurrence;

    open spec fn view(&self) -> Occurrence {
        match self {
            Event::Input(outcome) => Occurrence::Input(outcome@),
            Event::Directory { ready } => Occurrence::Directory { ready: *ready },
            Event::Response(outcome) => Occurrence::Response(outcome@),
            Event::Write { saved } => Occurrence::Write { saved: *saved },
            Event::Resumed => Occurrence::Resumed,
        }
    }
}

impl View for Action {
    type V = Task;

    open spec fn view(&self) -> Task {
        match self {
            Action::ReadInput { path } => Task::ReadInput { path: path@ },
            Action::MakeDirectory { path } => Task::MakeDirectory { path: path@ },
            Action::Fetch { url, user_agent } => Task::Fetch {
                url: url@,
                user_agent: user_agent@,
            },
            Action::WriteFile { path, content } => Task::WriteFile {
                path: path@,
                content: content@,
            },
            Action::Pause { millis } => Task::Pause { millis: *millis },
            Action::Exit { failure } => Task::Exit { failure: failure.deep_view() },
        }
    }
}

enum Phase {
    Loading,
    Preparing { next: usize },
    Fetching { set: usize },
    Saving { set: usize, target: usize, body: String, saved: bool },
    Pausing { set: usize },
    Combining { target: usize },
    Reporting,
    Done { failure: Option<LoadError> },
}

impl View for Phase {
    type V = Stage;

    closed spec fn view(&self) -> Stage {
        match self {
            Phase::Loading => Stage::Loading,
            Phase::Preparing { next } => Stage::Preparing { next: *next as nat },
            Phase::Fetching { set } => Stage::Fetching { set: *set as nat },
            Phase::Saving { set, target, body, saved } => Stage::Saving {
                set: *set as nat,
                target: *target as nat,
                body: body@,
                saved: *saved,
            },
            Phase::Pausing { set } => Stage::Pausing { set: *set as nat },
            Phase::Combining { target } => Stage::Combining { target: *target as nat },
            Phase::Reporting => Stage::Reporting,
            Phase::Done { failure } => Stage::Done { failure: failure.deep_view() },
        }
    }
}

/// A collection run.
pub struct Collector {
    config: Config,
    stamp: String,
    codes: Vec<String>,
    results: ResultMap,
    phase: Phase,
}

impl View for Collector {
    type V = Run;

    closed spec fn view(&self) -> Run {
        Run {
            config: self.config@,
            stamp: self.stamp@,
            codes: self.codes.deep_view(),
            results: self.results@,
            stage: self.phase@,
        }
    }
}

impl Collector {
    #[verifier::type_invariant]
    spec fn well_formed(self) -> bool {
        self@.wf()
    }

    /// A run before its first task, with the launch time as the report is
    /// to show it.
    pub fn with_stamp(config: Config, stamp: String) -> (run: Collector)
        ensures
            run@ == Run::begin(config@, stamp@),
            run@.wf(),
    {
        let codes: Vec<String> = Vec::new();
        assert(codes.deep_view() == Seq::<Seq<char>>::empty());
        Collector { config, stamp, codes, results: ResultMap::new(), phase: Phase::Loading }
    }

    /// A run before its first task, launched at `launch`. There is no run
    /// where the launch time cannot be written.
    pub fn start(config: Config, launch: LaunchTime) -> (run: Option<Collector>)
        ensures
            match run {
                Some(run) => {
                    &&& formatted_time(
                        launch.unix_seconds as int,
                        launch.utc_offset_seconds as int,
                        stamp_pattern(),
                    ) == Some(run@.stamp)
                    &&& run@ == Run::begin(config@, run@.stamp)
                    &&& run@.wf()
                },
                None => formatted_time(
                    launch.unix_seconds as int,
                    launch.utc_offset_seconds as int,
                    stamp_pattern(),
                ) is None,
            },
    {
        match launch_stamp(launch) {
            Some(stamp) => Some(Collector::with_stamp(config, stamp)),
            None => None,
        }
    }

    /// Whether the run is over.
    pub fn is_over(&self) -> (over: bool)
        ensures
            over == (self@.stage is Done),
            self@.wf(),
    {
        proof {
            use_type_invariant(self);
        }
        match &self.phase {
            Phase::Done { .. } => true,
            _ => false,
        }
    }

    /// The set codes of the run: none before the list is loaded.
    pub fn codes(&self) -> (codes: &Vec<String>)
        ensures
            codes.deep_view() == self@.codes,
            self@.wf(),
    {
        proof {
            use_type_invariant(self);
        }
        &self.codes
    }

    /// What the run has collected so far.
    pub fn results(&self) -> (results: &ResultMap)
        ensures
            results@ == self@.results,
            self@.wf(),
    {
        proof {
            use_type_invariant(self);
        }
        &self.results
    }

    /// The action that the run waits for.
    pub fn action(&self) -> (action: Action)
        ensures
            action@ == self@.pending(),
            self@.wf(),
    {
        proof {
            use_type_invariant(self);
        }
        match &self.phase {
            Phase::Loading => Action::ReadInput { path: self.config.input_file.clone() },
            Phase::Preparing { next } => {
                let dirs = self.config.layout.directories();
                assert(dirs.deep_view()[*next as int] == dirs[*next as int]@);
                Action::MakeDirectory { path: dirs[*next].clone() }
            },
            Phase::Fetching { set } => {
                assert(self.codes.deep_view()[*set as int] == self.codes[*set as int]@);
                Action::Fetch {
                    url: request_url(self.config.base_url.as_str(), self.codes[*set].as_str()),
                    user_agent: self.config.user_agent.clone(),
                }
            },
            Phase::Saving { set, target, body, .. } => {
                assert(self.codes.deep_view()[*set as int] == self.codes[*set as int]@);
                let targets = self.config.layout.set_targets(self.codes[*set].as_str());
                assert(targets.deep_view()[*target as int] == targets[*target as int]@);
                Action::WriteFile { path: targets[*target].clone(), content: body.clone() }
            },
            Phase::Pausing { .. } => Action::Pause { millis: self.config.pause_millis },
            Phase::Combining { target } => {
                let targets = self.config.layout.combined_targets();
                assert(targets.deep_view()[*target as int] == targets[*target as int]@);
                Action::WriteFile {
                    path: targets[*target].clone(),
                    content: self.results.combined_text(),
                }
            },
            Phase::Reporting => {
                match self.config.layout.report_target() {
                    Some(path) => Action::WriteFile {
                        path,
                        content: metadata_report(
                            self.stamp.as_str(),
                            &self.codes,
                            self.results.len(),
                            self.config.layout.text_dir().as_str(),
                            self.config.layout.json_dir().as_str(),
                        ),
                    },
                    None => unreached(),
                }
            },
            Phase::Done { failure } => Action::Exit {
                failure: match failure {
                    Some(error) => Some(error.duplicate()),
                    None => None,
                },
            },
        }
    }

    /// The run after `event`: see [`Run::after`]. An event that does not
    /// answer the action under way changes nothing.
    pub fn advance(self, event: Event) -> (next: Collector)
        ensures
            next@ == self@.after(event@),
            next@.wf(),
    {
        proof {
            use_type_invariant(&self);
            lemma_after_keeps_wf(self@, event@);
        }
        let Collector { config, stamp, codes, results, phase } = self;
        match phase {
            Phase::Loading => match event {
                Event::Input(outcome) => match load_set_codes(
                    config.input_file.as_str(),
                    &outcome,
                ) {
                    Err(error) => Collector {
                        config,
                        stamp,
                        codes,
                        results,
                        phase: Phase::Done { failure: Some(error) },
                    },
                    Ok(list) => if list.len() == 0 {
                        Collector {
                            config,
                            stamp,
                            codes,
                            results,
                            phase: Phase::Done { failure: None },
                        }
                    } else {
                        Collector {
                            config,
                            stamp,
                            codes: list,
                            results,
                            phase: Phase::Preparing { next: 0 },
                        }
                    },
                },
                _ => Collector { config, stamp, codes, results, phase: Phase::Loading },
            },
            Phase::Preparing { next } => match event {
                Event::Directory { .. } => {
                    let dirs = config.layout.directories();
                    let phase = if next + 1 < dirs.len() {
                        Phase::Preparing { next: next + 1 }
                    } else {
                        Phase::Fetching { set: 0 }
                    };
                    Collector { config, stamp, codes, results, phase }
                },
                _ => Collector { config, stamp, codes, results, phase: Phase::Preparing { next } },
            },
            Phase::Fetching { set } => match event {
                Event::Response(outcome) => {
                    assert(codes.deep_view()[set as int] == codes[set as int]@);
                    let url = request_url(config.base_url.as_str(), codes[set].as_str());
                    let phase = match interpret(url, outcome) {
                        Ok(body) => Phase::Saving { set, target: 0, body, saved: false },
                        Err(_) => Phase::Pausing { set },
                    };
                    Collector { config, stamp, codes, results, phase }
                },
                _ => Collector { config, stamp, codes, results, phase: Phase::Fetching { set } },
            },
            Phase::Saving { set, target, body, saved } => match event {
                Event::Write { saved: taken } => {
                    assert(codes.deep_view()[set as int] == codes[set as int]@);
                    let targets = config.layout.set_targets(codes[set].as_str());
                    if target + 1 < targets.len() {
                        Collector {
                            config,
                            stamp,
                            codes,
                            results,
                            phase: Phase::Saving {
                                set,
                                target: target + 1,
                                body,
                                saved: saved || taken,
                            },
                        }
                    } else {
                        let mut results = results;
                        if saved || taken {
                            results.insert(trim(codes[set].as_str()), body);
                        }
                        Collector { config, stamp, codes, results, phase: Phase::Pausing { set } }
                    }
                },
                _ => Collector {
                    config,
                    stamp,
                    codes,
                    results,
                    phase: Phase::Saving { set, target, body, saved },
                },
            },
            Phase::Pausing { set } => match event {
                Event::Resumed => {
                    assert(codes.deep_view().len() == codes.len());
                    let phase = if set + 1 < codes.len() {
                        Phase::Fetching { set: set + 1 }
                    } else if results.len() > 0 && config.layout.combined_targets().len() > 0 {
                        Phase::Combining { target: 0 }
                    } else if config.layout.report_target().is_some() {
                        Phase::Reporting
                    } else {
                        Phase::Done { failure: None }
                    };
                    Collector { config, stamp, codes, results, phase }
                },
                _ => Collector { config, stamp, codes, results, phase: Phase::Pausing { set } },
            },
            Phase::Combining { target } => match event {
                Event::Write { .. } => {
                    let phase = if target + 1 < config.layout.combined_targets().len() {
                        Phase::Combining { target: target + 1 }
                    } else if config.layout.report_target().is_some() {
                        Phase::Reporting
                    } else {
                        Phase::Done { failure: None }
                    };
                    Collector { config, stamp, codes, results, phase }
                },
                _ => Collector {
                    config,
                    stamp,
                    codes,
                    results,
                    phase: Phase::Combining { target },
                },
            },
            Phase::Reporting => match event {
                Event::Write { .. } => Collector {
                    config,
                    stamp,
                    codes,
                    results,
                    phase: Phase::Done { failure: None },
                },
                _ => Collector { config, stamp, codes, results, phase: Phase::Reporting },
            },
            Phase::Done { failure } => Collector {
                config,
                stamp,
                codes,
                results,
                phase: Phase::Done { failure },
            },
        }
    }
}

} // verus!
