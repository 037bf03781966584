//! What a run is configured with, and where its output goes.

use crate::text::{trim, trimmed};
use vstd::prelude::*;

verus! {

/// How the output files are laid out.
#[derive(Clone, Copy, Debug, PartialEq, Eq, Structural)]
pub enum Layout {
    /// One directory with one text file per set, and nothing else.
    SingleDirectory,
    /// A base directory with one directory for text files and one for JSON
    /// files; each set is written to both, and so is the combined text; the
    /// run report lies in the base directory.
    SplitByFormat,
}

/// The configuration of a run.
#[derive(Clone, Debug, PartialEq, Eq)]
pub struct Config {
    /// The address to which a set code is appended to ask for its cards.
    pub base_url: String,
    /// The file that lists the set codes.
    pub input_file: String,
    /// What the requests say of their sender.
    pub user_agent: String,
    /// How long to wait after each set, in milliseconds.
    pub pause_millis: u64,
    /// Where the output goes.
    pub layout: Layout,
}

/// A configuration, as plain values.
pub struct Settings {
    pub base_url: Seq<char>,
    pub input_file: Seq<char>,
    pub user_agent: Seq<char>,
    pub pause_millis: u64,
    pub layout: Layout,
}

impl View for Config {
    type V = Settings;

    open spec fn view(&self) -> Settings {
        Settings {
            base_url: self.base_url@,
            input_file: self.input_file@,
            user_agent: self.user_agent@,
            pause_millis: self.pause_millis,
            layout: self.layout,
        }
    }
}

/// The settings of the card search service of Flesh and Blood.
pub open spec fn standard_settings() -> Settings {
    Settings {
        base_url: "https://cards.fabtcg.com/api/search/v1/cards/?set_code="@,
        input_file: "sets_codes.txt"@,
        user_agent: "fab-card-collector-rust-script/1.0"@,
        pause_millis: 500,
        layout: Layout::SplitByFormat,
    }
}

/// The directory that holds all output.
pub open spec fn base_dir_of(layout: Layout) -> Seq<char> {
    match layout {
        Layout::SingleDirectory => "set_data_json_txt"@,
        Layout::SplitByFormat => "script_generated_card_data"@,
    }
}

/// The directory of the text files.
pub open spec fn text_dir_of(layout: Layout) -> Seq<char> {
    match layout {
        Layout::SingleDirectory => base_dir_of(layout),
        Layout::SplitByFormat => base_dir_of(layout) + "/txt"@,
    }
}

/// The directory of the JSON files.
pub open spec fn json_dir_of(layout: Layout) -> Seq<char> {
    match layout {
        Layout::SingleDirectory => base_dir_of(layout),
        Layout::SplitByFormat => base_dir_of(layout) + "/json"@,
    }
}

/// The directories that must exist before anything is written, each after
/// the one that holds it.
pub open spec fn directories_of(layout: Layout) -> Seq<Seq<char>> {
    match layout {
        Layout::SingleDirectory => seq![base_dir_of(layout)],
        Layout::SplitByFormat => seq![
            base_dir_of(layout),
            text_dir_of(layout),
            json_dir_of(layout),
        ],
    }
}

/// The files to which the payload of `code` is written. The code is
/// trimmed and taken as it is otherwise.
pub open spec fn set_targets_of(layout: Layout, code: Seq<char>) -> Seq<Seq<char>> {
    match layout {
        Layout::SingleDirectory => seq![
            text_dir_of(layout) + "/"@ + trimmed(code) + "_cards.txt"@,
        ],
        Layout::SplitByFormat => seq![
            text_dir_of(layout) + "/"@ + trimmed(code) + "_cards.txt"@,
            json_dir_of(layout) + "/"@ + trimmed(code) + "_cards.json"@,
        ],
    }
}

/// The files to which the combined text is written.
pub open spec fn combined_targets_of(layout: Layout) -> Seq<Seq<char>> {
    match layout {
        Layout::SingleDirectory => Seq::empty(),
        Layout::SplitByFormat => seq![
            text_dir_of(layout) + "/all_sets_combined.txt"@,
            json_dir_of(layout) + "/all_sets_combined.json"@,
        ],
    }
}

/// The file to which the run report is written, if the layout has one.
pub open spec fn report_target_of(layout: Layout) -> Option<Seq<char>> {
    match layout {
        Layout::SingleDirectory => None,
        Layout::SplitByFormat => Some(base_dir_of(layout) + "/script_metadata.txt"@),
    }
}

impl Config {
    /// The configuration for the card search service of Flesh and Blood:
    /// its address, `sets_codes.txt` as the list of codes, half a second
    /// between sets, and output split by format.
    pub fn standard() -> (config: Config)
        ensures
            config@ == standard_settings(),
    {
        Config {
            base_url: "https://cards.fabtcg.com/api/search/v1/cards/?set_code=".to_owned(),
            input_file: "sets_codes.txt".to_owned(),
            user_agent: "fab-card-collector-rust-script/1.0".to_owned(),
            pause_millis: 500,
            layout: Layout::SplitByFormat,
        }
    }
}

impl Layout {
    /// The directory that holds all output.
    pub fn base_dir(&self) -> (dir: String)
        ensures
            dir@ == base_dir_of(*self),
    {
        match self {
            Layout::SingleDirectory => "set_data_json_txt".to_owned(),
            Layout::SplitByFormat => "script_generated_card_data".to_owned(),
        }
    }

    /// The directory of the text files.
    pub fn text_dir(&self) -> (dir: String)
        ensures
            dir@ == text_dir_of(*self),
    {
        let mut dir = self.base_dir();
        match self {
            Layout::SingleDirectory => {},
            Layout::SplitByFormat => {
                dir.append("/txt");
            },
        }
        dir
    }

    /// The directory of the JSON files.
    pub fn json_dir(&self) -> (dir: String)
        ensures
            dir@ == json_dir_of(*self),
    {
        let mut dir = self.base_dir();
        match self {
            Layout::SingleDirectory => {},
            Layout::SplitByFormat => {
                dir.append("/json");
            },
        }
        dir
    }

    /// The directories that must exist before anything is written, each
    /// after the one that holds it.
    pub fn directories(&self) -> (dirs: Vec<String>)
        ensures
            dirs.deep_view() == directories_of(*self),
    {
        let mut dirs: Vec<String> = Vec::new();
        dirs.push(self.base_dir());
        match self {
            Layout::SingleDirectory => {},
            Layout::SplitByFormat => {
                dirs.push(self.text_dir());
                dirs.push(self.json_dir());
            },
        }
        assert(dirs.deep_view() == directories_of(*self));
        dirs
    }

    /// The files to which the payload of `code` is written.
    pub fn set_targets(&self, code: &str) -> (targets: Vec<String>)
        ensures
            targets.deep_view() == set_targets_of(*self, code@),
    {
        let name = trim(code);
        let mut targets: Vec<String> = Vec::new();
        let mut text_file = self.text_dir();
        text_file.append("/");
        text_file.append(name.as_str());
        text_file.append("_cards.txt");
        targets.push(text_file);
        match self {
            Layout::SingleDirectory => {},
            Layout::SplitByFormat => {
                let mut json_file = self.json_dir();
                json_file.append("/");
                json_file.append(name.as_str());
                json_file.append("_cards.json");
                targets.push(json_file);
            },
        }
        assert(targets.deep_view() == set_targets_of(*self, code@));
        targets
    }

    /// The files to which the combined text is written.
    pub fn combined_targets(&self) -> (targets: Vec<String>)
        ensures
            targets.deep_view() == combined_targets_of(*self),
    {
        let mut targets: Vec<String> = Vec::new();
        match self {
            Layout::SingleDirectory => {},
            Layout::SplitByFormat => {
                let mut text_file = self.text_dir();
                text_file.append("/all_sets_combined.txt");
                targets.push(text_file);
                let mut json_file = self.json_dir();
                json_file.append("/all_sets_combined.json");
                targets.push(json_file);
            },
        }
        assert(targets.deep_view() == combined_targets_of(*self));
        targets
    }

    /// The file to which the run report is written, if the layout has one.
    pub fn report_target(&self) -> (target: Option<String>)
        ensures
            target.deep_view() == report_target_of(*self),
    {
        match self {
            Layout::SingleDirectory => None,
            Layout::SplitByFormat => {
                let mut file = self.base_dir();
                file.append("/script_metadata.txt");
                Some(file)
            },
        }
    }
}

} // verus!
