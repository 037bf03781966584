use fab_card_collector::codes::{InputOutcome, LoadError};
use fab_card_collector::collector::{Action, Collector, Event};
use fab_card_collector::config::{Config, Layout};
use fab_card_collector::fetch::HttpOutcome;
use fab_card_collector::report::LaunchTime;

const BASE: &str = "https://cards.fabtcg.com/api/search/v1/cards/?set_code=";

/// What the driver of a test run answers to each action.
struct World {
    input: InputOutcome,
    replies: Vec<(String, HttpOutcome)>,
    failing_files: Vec<String>,
    failing_dirs: Vec<String>,
    actions: Vec<Action>,
    files: Vec<(String, String)>,
}

impl World {
    fn new(input: &str) -> World {
        World {
            input: InputOutcome::Text { content: input.to_string() },
            replies: vec![],
            failing_files: vec![],
            failing_dirs: vec![],
            actions: vec![],
            files: vec![],
        }
    }

    fn answer(mut self, code: &str, status: u16, body: &str) -> World {
        self.replies.push((
            format!("{}{}", BASE, code),
            HttpOutcome::Responded { status, body: body.to_string() },
        ));
        self
    }

    fn no_answer(mut self, code: &str, cause: &str) -> World {
        self.replies
            .push((format!("{}{}", BASE, code), HttpOutcome::Failed { cause: cause.to_string() }));
        self
    }

    fn failing(mut self, path: &str) -> World {
        self.failing_files.push(path.to_string());
        self
    }

    fn file(&self, path: &str) -> Option<&str> {
        self.files.iter().rev().find(|(p, _)| p == path).map(|(_, c)| c.as_str())
    }

    fn fetches(&self) -> Vec<String> {
        self.actions
            .iter()
            .filter_map(|a| match a {
                Action::Fetch { url, .. } => Some(url.clone()),
                _ => None,
            })
            .collect()
    }

    fn written_paths(&self) -> Vec<&str> {
        self.files.iter().map(|(p, _)| p.as_str()).collect()
    }

    fn react(&mut self, action: Action) -> Result<Event, Option<LoadError>> {
        self.actions.push(action.clone());
        Ok(match action {
            Action::ReadInput { .. } => Event::Input(self.input.clone()),
            Action::MakeDirectory { path } => {
                Event::Directory { ready: !self.failing_dirs.contains(&path) }
            }
            Action::Fetch { url, .. } => {
                let found = self.replies.iter().find(|(u, _)| *u == url).map(|(_, o)| o.clone());
                Event::Response(
                    found.unwrap_or(HttpOutcome::Failed { cause: "no route".to_string() }),
                )
            }
            Action::WriteFile { path, content } => {
                if self.failing_files.contains(&path) {
                    Event::Write { saved: false }
                } else {
                    self.files.push((path, content));
                    Event::Write { saved: true }
                }
            }
            Action::Pause { .. } => Event::Resumed,
            Action::Exit { failure } => return Err(failure),
        })
    }

    fn run_from(&mut self, mut run: Collector) -> (Collector, Option<LoadError>) {
        for _ in 0..10_000 {
            match self.react(run.action()) {
                Ok(event) => run = run.advance(event),
                Err(failure) => return (run, failure),
            }
        }
        panic!("the run does not end");
    }

    fn run(&mut self) -> (Collector, Option<LoadError>) {
        self.run_with(Config::standard())
    }

    fn run_with(&mut self, config: Config) -> (Collector, Option<LoadError>) {
        self.run_from(Collector::with_stamp(config, "2024-05-01 13:45:10 +02:00".to_string()))
    }
}

fn write(path: &str, content: &str) -> Action {
    Action::WriteFile { path: path.to_string(), content: content.to_string() }
}

fn fetch(code: &str) -> Action {
    Action::Fetch {
        url: format!("{}{}", BASE, code),
        user_agent: "fab-card-collector-rust-script/1.0".to_string(),
    }
}

fn make(path: &str) -> Action {
    Action::MakeDirectory { path: path.to_string() }
}

const TXT: &str = "script_generated_card_data/txt";
const JSON: &str = "script_generated_card_data/json";

#[test]
fn two_sets_end_to_end() {
    let mut world =
        World::new("WTR\nARC\n").answer("WTR", 200, "{\"a\":1}").answer("ARC", 200, "{\"b\":2}");
    let (run, failure) = world.run();
    assert_eq!(failure, None);
    assert!(run.is_over());
    let combined = "{\n  \"WTR\": {\"a\":1},\n  \"ARC\": {\"b\":2}\n}";
    let report = "FAB Card Scrapper - Script Execution Metadata\n\
                  =============================================\n\
                  Script Launch Time: 2024-05-01 13:45:10 +02:00\n\
                  Latest Set Processed: ARC\n\
                  Total Sets Processed: 2\n\
                  Sets List: WTR, ARC\n\
                  Output Structure:\n\
                  - TXT files: script_generated_card_data/txt/\n\
                  - JSON files: script_generated_card_data/json/\n";
    assert_eq!(
        world.actions,
        vec![
            Action::ReadInput { path: "sets_codes.txt".to_string() },
            make("script_generated_card_data"),
            make("script_generated_card_data/txt"),
            make("script_generated_card_data/json"),
            fetch("WTR"),
            write("script_generated_card_data/txt/WTR_cards.txt", "{\"a\":1}"),
            write("script_generated_card_data/json/WTR_cards.json", "{\"a\":1}"),
            Action::Pause { millis: 500 },
            fetch("ARC"),
            write("script_generated_card_data/txt/ARC_cards.txt", "{\"b\":2}"),
            write("script_generated_card_data/json/ARC_cards.json", "{\"b\":2}"),
            Action::Pause { millis: 500 },
            write("script_generated_card_data/txt/all_sets_combined.txt", combined),
            write("script_generated_card_data/json/all_sets_combined.json", combined),
            write("script_generated_card_data/script_metadata.txt", report),
            Action::Exit { failure: None },
        ]
    );
    assert_eq!(world.files.len(), 7);
    let reverse = "{\n  \"ARC\": {\"b\":2},\n  \"WTR\": {\"a\":1}\n}";
    let text = world.file("script_generated_card_data/json/all_sets_combined.json").unwrap();
    assert!(text == combined || text == reverse);
    let parsed: serde_json::Value = serde_json::from_str(text).unwrap();
    assert_eq!(parsed["WTR"]["a"].as_i64(), Some(1));
    assert_eq!(parsed["ARC"]["b"].as_i64(), Some(2));
    assert!(world
        .file("script_generated_card_data/script_metadata.txt")
        .unwrap()
        .contains("Total Sets Processed: 2"));
    assert_eq!(run.results().len(), 2);
    assert_eq!(run.codes(), &vec!["WTR".to_string(), "ARC".to_string()]);
}

#[test]
fn a_missing_list_ends_the_run_before_any_request() {
    let mut world = World::new("").answer("WTR", 200, "{}");
    world.input = InputOutcome::Missing;
    let (run, failure) = world.run();
    let error = LoadError::NotFound { path: "sets_codes.txt".to_string() };
    assert_eq!(failure, Some(error.clone()));
    assert_eq!(
        world.actions,
        vec![
            Action::ReadInput { path: "sets_codes.txt".to_string() },
            Action::Exit { failure: Some(error.clone()) },
        ]
    );
    assert_eq!(world.fetches(), Vec::<String>::new());
    assert!(world.files.is_empty());
    assert!(run.is_over());
    // Whatever happens afterwards, the run stays over and asks for nothing.
    let mut run = run;
    for event in [
        Event::Resumed,
        Event::Input(InputOutcome::Text { content: "WTR".to_string() }),
        Event::Directory { ready: true },
        Event::Write { saved: true },
        Event::Response(HttpOutcome::Responded { status: 200, body: "{}".to_string() }),
    ] {
        run = run.advance(event);
        assert_eq!(run.action(), Action::Exit { failure: Some(error.clone()) });
    }
}

#[test]
fn an_unreadable_list_ends_the_run_before_any_request() {
    let mut world = World::new("");
    world.input = InputOutcome::Unreadable { cause: "permission denied".to_string() };
    let (_, failure) = world.run();
    assert_eq!(
        failure,
        Some(LoadError::Unreadable {
            path: "sets_codes.txt".to_string(),
            cause: "permission denied".to_string()
        })
    );
    assert_eq!(world.actions.len(), 2);
    assert_eq!(world.fetches(), Vec::<String>::new());
}

#[test]
fn a_list_without_codes_ends_the_run_in_good_order() {
    let mut world = World::new("\n   \n\t\n");
    let (run, failure) = world.run();
    assert_eq!(failure, None);
    assert_eq!(
        world.actions,
        vec![
            Action::ReadInput { path: "sets_codes.txt".to_string() },
            Action::Exit { failure: None },
        ]
    );
    assert!(run.codes().is_empty());
    assert!(run.results().is_empty());
}

#[test]
fn files_hold_the_body_byte_for_byte() {
    let body = "  {\"name\": \"Ira, Crimson Haze\",\r\n\t\"text\": \"é \\u00e9 \\\"q\\\"\"}\n\n";
    let mut world = World::new("WTR").answer("WTR", 200, body);
    world.run();
    assert_eq!(world.file("script_generated_card_data/txt/WTR_cards.txt"), Some(body));
    assert_eq!(world.file("script_generated_card_data/json/WTR_cards.json"), Some(body));
    assert_eq!(
        world.file("script_generated_card_data/txt/WTR_cards.txt").unwrap().as_bytes(),
        body.as_bytes()
    );
}

#[test]
fn a_payload_is_kept_when_only_the_text_file_was_written() {
    let mut world = World::new("WTR")
        .answer("WTR", 200, "{\"a\":1}")
        .failing("script_generated_card_data/json/WTR_cards.json");
    let (run, _) = world.run();
    assert_eq!(run.results().get("WTR"), Some(&"{\"a\":1}".to_string()));
    assert_eq!(run.results().len(), 1);
    assert_eq!(
        world.written_paths(),
        vec![
            "script_generated_card_data/txt/WTR_cards.txt",
            "script_generated_card_data/txt/all_sets_combined.txt",
            "script_generated_card_data/json/all_sets_combined.json",
            "script_generated_card_data/script_metadata.txt",
        ]
    );
}

#[test]
fn a_payload_is_kept_when_only_the_json_file_was_written() {
    let mut world = World::new("WTR")
        .answer("WTR", 200, "{\"a\":1}")
        .failing("script_generated_card_data/txt/WTR_cards.txt");
    let (run, _) = world.run();
    assert_eq!(run.results().get("WTR"), Some(&"{\"a\":1}".to_string()));
    assert_eq!(
        world.file("script_generated_card_data/txt/all_sets_combined.txt"),
        Some("{\n  \"WTR\": {\"a\":1}\n}")
    );
    assert!(world.actions.contains(&write(
        "script_generated_card_data/json/WTR_cards.json",
        "{\"a\":1}"
    )));
}

#[test]
fn a_payload_is_dropped_when_no_file_was_written() {
    let mut world = World::new("WTR\nARC")
        .answer("WTR", 200, "{\"a\":1}")
        .answer("ARC", 200, "{\"b\":2}")
        .failing("script_generated_card_data/txt/WTR_cards.txt")
        .failing("script_generated_card_data/json/WTR_cards.json");
    let (run, failure) = world.run();
    assert_eq!(failure, None);
    assert_eq!(run.results().get("WTR"), None);
    assert_eq!(run.results().get("ARC"), Some(&"{\"b\":2}".to_string()));
    assert_eq!(
        world.file("script_generated_card_data/json/all_sets_combined.json"),
        Some("{\n  \"ARC\": {\"b\":2}\n}")
    );
}

#[test]
fn the_report_counts_what_was_collected() {
    let mut world = World::new("WTR\nARC\nCRU\nMON\n")
        .answer("WTR", 200, "{\"a\":1}")
        .answer("ARC", 404, "not found")
        .no_answer("CRU", "timed out")
        .answer("MON", 200, "{\"m\":4}")
        .failing("script_generated_card_data/txt/MON_cards.txt")
        .failing("script_generated_card_data/json/MON_cards.json");
    let (run, failure) = world.run();
    assert_eq!(failure, None);
    assert_eq!(run.codes().len(), 4);
    assert_eq!(run.results().len(), 1);
    assert_eq!(
        world.file("script_generated_card_data/script_metadata.txt"),
        Some(
            "FAB Card Scrapper - Script Execution Metadata\n\
             =============================================\n\
             Script Launch Time: 2024-05-01 13:45:10 +02:00\n\
             Latest Set Processed: MON\n\
             Total Sets Processed: 1\n\
             Sets List: WTR, ARC, CRU, MON\n\
             Output Structure:\n\
             - TXT files: script_generated_card_data/txt/\n\
             - JSON files: script_generated_card_data/json/\n"
        )
    );
    assert_eq!(world.fetches().len(), 4);
    let pauses = world.actions.iter().filter(|a| matches!(a, Action::Pause { .. })).count();
    assert_eq!(pauses, 4);
}

#[test]
fn a_failed_request_writes_nothing_for_its_set() {
    let mut world = World::new("WTR\nARC").answer("WTR", 500, "{\"a\":1}").no_answer("ARC", "dns");
    let (run, failure) = world.run();
    assert_eq!(failure, None);
    assert!(run.results().is_empty());
    assert_eq!(
        world.actions,
        vec![
            Action::ReadInput { path: "sets_codes.txt".to_string() },
            make("script_generated_card_data"),
            make(TXT),
            make(JSON),
            fetch("WTR"),
            Action::Pause { millis: 500 },
            fetch("ARC"),
            Action::Pause { millis: 500 },
            write(
                "script_generated_card_data/script_metadata.txt",
                "FAB Card Scrapper - Script Execution Metadata\n\
                 =============================================\n\
                 Script Launch Time: 2024-05-01 13:45:10 +02:00\n\
                 Latest Set Processed: ARC\n\
                 Total Sets Processed: 0\n\
                 Sets List: WTR, ARC\n\
                 Output Structure:\n\
                 - TXT files: script_generated_card_data/txt/\n\
                 - JSON files: script_generated_card_data/json/\n"
            ),
            Action::Exit { failure: None },
        ]
    );
}

#[test]
fn a_code_listed_twice_is_fetched_twice_and_counted_once() {
    let mut world = World::new("WTR\nARC\nWTR").answer("WTR", 200, "1").answer("ARC", 200, "2");
    let (run, _) = world.run();
    assert_eq!(world.fetches().len(), 3);
    assert_eq!(run.results().len(), 2);
    assert_eq!(run.codes().len(), 3);
    assert!(world
        .file("script_generated_card_data/script_metadata.txt")
        .unwrap()
        .contains("Total Sets Processed: 2\nSets List: WTR, ARC, WTR\n"));
}

#[test]
fn failing_writes_of_combined_text_and_report_do_not_fail_the_run() {
    let mut world = World::new("WTR")
        .answer("WTR", 200, "{}")
        .failing("script_generated_card_data/txt/all_sets_combined.txt")
        .failing("script_generated_card_data/json/all_sets_combined.json")
        .failing("script_generated_card_data/script_metadata.txt");
    let (run, failure) = world.run();
    assert_eq!(failure, None);
    assert!(run.is_over());
    assert_eq!(world.files.len(), 2);
    assert_eq!(world.actions.len(), 12);
}

#[test]
fn a_directory_that_cannot_be_made_does_not_end_the_run() {
    let mut world = World::new("WTR").answer("WTR", 200, "{}");
    world.failing_dirs.push("script_generated_card_data/json".to_string());
    let (run, failure) = world.run();
    assert_eq!(failure, None);
    assert_eq!(world.fetches().len(), 1);
    assert_eq!(run.results().len(), 1);
}

#[test]
fn an_event_that_answers_nothing_changes_nothing() {
    let mut run = Collector::with_stamp(Config::standard(), "t".to_string());
    let read = Action::ReadInput { path: "sets_codes.txt".to_string() };
    assert_eq!(run.action(), read);
    assert!(!run.is_over());
    run = run.advance(Event::Resumed);
    run = run.advance(Event::Write { saved: true });
    run = run.advance(Event::Directory { ready: true });
    run = run.advance(Event::Response(HttpOutcome::Failed { cause: "x".to_string() }));
    assert_eq!(run.action(), read);
    run = run.advance(Event::Input(InputOutcome::Text { content: "WTR".to_string() }));
    assert_eq!(run.action(), make("script_generated_card_data"));
    run = run.advance(Event::Resumed);
    run = run.advance(Event::Input(InputOutcome::Missing));
    assert_eq!(run.action(), make("script_generated_card_data"));
    run = run.advance(Event::Directory { ready: true });
    run = run.advance(Event::Directory { ready: false });
    run = run.advance(Event::Directory { ready: true });
    assert_eq!(run.action(), fetch("WTR"));
    run = run.advance(Event::Write { saved: true });
    assert_eq!(run.action(), fetch("WTR"));
    run = run.advance(Event::Response(HttpOutcome::Responded {
        status: 200,
        body: "{}".to_string(),
    }));
    assert_eq!(run.action(), write("script_generated_card_data/txt/WTR_cards.txt", "{}"));
    run = run.advance(Event::Resumed);
    assert_eq!(run.action(), write("script_generated_card_data/txt/WTR_cards.txt", "{}"));
    assert!(run.results().is_empty());
}

#[test]
fn single_directory_layout_writes_one_text_file_per_set() {
    let mut config = Config::standard();
    config.layout = Layout::SingleDirectory;
    let mut world = World::new("WTR\nARC").answer("WTR", 200, "{\"a\":1}").answer("ARC", 404, "");
    let (run, failure) = world.run_with(config);
    assert_eq!(failure, None);
    assert_eq!(
        world.actions,
        vec![
            Action::ReadInput { path: "sets_codes.txt".to_string() },
            make("set_data_json_txt"),
            fetch("WTR"),
            write("set_data_json_txt/WTR_cards.txt", "{\"a\":1}"),
            Action::Pause { millis: 500 },
            fetch("ARC"),
            Action::Pause { millis: 500 },
            Action::Exit { failure: None },
        ]
    );
    assert_eq!(run.results().len(), 1);
}

#[test]
fn the_configuration_decides_what_is_asked_for() {
    let config = Config {
        base_url: "http://localhost:8080/cards?set=".to_string(),
        input_file: "codes.list".to_string(),
        user_agent: "probe/0.1".to_string(),
        pause_millis: 25,
        layout: Layout::SingleDirectory,
    };
    let mut world = World::new(" WTR \n");
    let (_, failure) = world.run_with(config);
    assert_eq!(failure, None);
    assert_eq!(
        world.actions,
        vec![
            Action::ReadInput { path: "codes.list".to_string() },
            make("set_data_json_txt"),
            Action::Fetch {
                url: "http://localhost:8080/cards?set=WTR".to_string(),
                user_agent: "probe/0.1".to_string()
            },
            Action::Pause { millis: 25 },
            Action::Exit { failure: None },
        ]
    );
}

#[test]
fn a_run_started_at_a_launch_time_reports_it() {
    let launch = LaunchTime { unix_seconds: 1_700_000_000, utc_offset_seconds: 3600 };
    let run = Collector::start(Config::standard(), launch).unwrap();
    let mut world = World::new("WTR").answer("WTR", 200, "{}");
    world.run_from(run);
    assert!(world
        .file("script_generated_card_data/script_metadata.txt")
        .unwrap()
        .contains("\nScript Launch Time: 2023-11-14 23:13:20 +01:00\n"));
}

#[test]
fn a_run_cannot_start_at_a_time_that_cannot_be_written() {
    let launch = LaunchTime { unix_seconds: 0, utc_offset_seconds: 100_000 };
    assert!(Collector::start(Config::standard(), launch).is_none());
    let launch = LaunchTime { unix_seconds: i64::MAX, utc_offset_seconds: 0 };
    assert!(Collector::start(Config::standard(), launch).is_none());
}
