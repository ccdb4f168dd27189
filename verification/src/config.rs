//! The configuration that every grouping operation reads.
pub use crate::parameter_value::ToleranceConfig;
use vstd::prelude::*;
use vstd::string::*;

verus! {

/// The whole configuration.
#[derive(Debug, Default)]
pub struct Config {
    pub general: GeneralConfig,
    pub ignored_parameters: IgnoredConfig,
    pub tolerance: ToleranceConfig,
    pub grouping: GroupingConfig,
    pub diff: DiffConfig,
    pub tui: TuiConfig,
    pub keybindings: KeybindingsConfig,
    pub test_script: TestScriptConfig,
}

/// Where the runs are found.
#[derive(Debug, Default)]
pub struct GeneralConfig {
    pub log_dir: String,
    pub hparams_file: String,
    pub cache_enabled: bool,
}

/// The attribute keys that never count.
#[derive(Debug, Default)]
pub struct IgnoredConfig {
    pub parameters: Vec<String>,
}

/// How runs are grouped.
#[derive(Debug, Default)]
pub struct GroupingConfig {
    pub group_by_all_parameters: bool,
    /// The only keys that count, where given.
    pub grouping_parameters: Option<Vec<String>>,
    /// The largest number of differing attributes between two similar groups.
    pub similarity_threshold: usize,
    /// The keys whose values define the coarse buckets, where given.
    pub main_key: Option<Vec<String>>,
}

/// How differences are shown.
#[derive(Debug, Default)]
pub struct DiffConfig {
    pub show_detailed_diff: bool,
    pub diff_format: String,
    pub highlight_diff_keys: bool,
}

/// The look of the dashboard.
#[derive(Debug)]
pub struct TuiConfig {
    pub color_theme: String,
    pub colors: ColorConfig,
    pub layout: String,
    pub show_help_bar: bool,
    pub auto_expand_groups: bool,
    pub detail_panel_position: DetailPanelPosition,
    pub refresh_rate_ms: u64,
    pub version_panel_proportion: u16,
    pub status_bar_height: u16,
    pub scroll_indicators: bool,
}

/// The colours of the dashboard, by name.
#[derive(Debug)]
pub struct ColorConfig {
    pub same_experiment: String,
    pub similar_experiment: String,
    pub selected: String,
    pub background: String,
    pub text: String,
    pub border: String,
    pub highlight: String,
    pub status_bar_bg: String,
    pub status_bar_text: String,
}

/// Where the detail panel stands.
#[derive(Debug, Clone, Copy, PartialEq, Eq)]
pub enum DetailPanelPosition {
    Top,
    Bottom,
    Left,
    Right,
}

/// The keys of the dashboard, by name.
#[derive(Debug)]
pub struct KeybindingsConfig {
    pub up: String,
    pub down: String,
    pub left: String,
    pub right: String,
    pub select: String,
    pub confirm: String,
    pub quit: String,
    pub help: String,
    pub filter: String,
    pub switch_view: String,
    pub scroll_detail_up: String,
    pub scroll_detail_down: String,
}

/// The script that tests a run.
#[derive(Debug, Default)]
pub struct TestScriptConfig {
    pub path: String,
    pub default_args: DefaultArgsConfig,
    pub prompt_for_args: bool,
    pub fixed_args: Vec<String>,
}

/// The arguments that the script gets where none are given.
#[derive(Debug, Default)]
pub struct DefaultArgsConfig {
    pub filter: Option<String>,
    pub sort_key: Option<String>,
}

impl Default for DetailPanelPosition {
    fn default() -> (r: Self)
        ensures
            r == DetailPanelPosition::Bottom,
    {
        DetailPanelPosition::Bottom
    }
}

/// Whether the colours are the colours that a dashboard has where none are
/// given.
pub open spec fn is_default_colors(c: ColorConfig) -> bool {
    &&& c.same_experiment@ == "green"@
    &&& c.similar_experiment@ == "yellow"@
    &&& c.selected@ == "blue"@
    &&& c.background@ == "black"@
    &&& c.text@ == "white"@
    &&& c.border@ == "cyan"@
    &&& c.highlight@ == "white"@
    &&& c.status_bar_bg@ == "dark_gray"@
    &&& c.status_bar_text@ == "white"@
}

impl Default for ColorConfig {
    fn default() -> (r: Self)
        ensures
            is_default_colors(r),
    {
        ColorConfig {
            same_experiment: String::from_str("green"),
            similar_experiment: String::from_str("yellow"),
            selected: String::from_str("blue"),
            background: String::from_str("black"),
            text: String::from_str("white"),
            border: String::from_str("cyan"),
            highlight: String::from_str("white"),
            status_bar_bg: String::from_str("dark_gray"),
            status_bar_text: String::from_str("white"),
        }
    }
}

impl Default for TuiConfig {
    fn default() -> (r: Self)
        ensures
            r.color_theme@ == "default"@,
            is_default_colors(r.colors),
            r.layout@ == "vertical"@,
            r.show_help_bar,
            !r.auto_expand_groups,
            r.detail_panel_position == DetailPanelPosition::Bottom,
            r.refresh_rate_ms == 250,
            r.version_panel_proportion == 70,
            r.status_bar_height == 3,
            r.scroll_indicators,
    {
        TuiConfig {
            color_theme: String::from_str("default"),
            colors: ColorConfig::default(),
            layout: String::from_str("vertical"),
            show_help_bar: true,
            auto_expand_groups: false,
            detail_panel_position: DetailPanelPosition::Bottom,
            refresh_rate_ms: 250,
            version_panel_proportion: 70,
            status_bar_height: 3,
            scroll_indicators: true,
        }
    }
}

impl Default for KeybindingsConfig {
    fn default() -> (r: Self)
        ensures
            r.up@ == "up"@,
            r.down@ == "down"@,
            r.left@ == "left"@,
            r.right@ == "right"@,
            r.select@ == "space"@,
            r.confirm@ == "enter"@,
            r.quit@ == "q"@,
            r.help@ == "h"@,
            r.filter@ == "/"@,
            r.switch_view@ == "v"@,
            r.scroll_detail_up@ == "u"@,
            r.scroll_detail_down@ == "d"@,
    {
        KeybindingsConfig {
            up: String::from_str("up"),
            down: String::from_str("down"),
            left: String::from_str("left"),
            right: String::from_str("right"),
            select: String::from_str("space"),
            confirm: String::from_str("enter"),
            quit: String::from_str("q"),
            help: String::from_str("h"),
            filter: String::from_str("/"),
            switch_view: String::from_str("v"),
            scroll_detail_up: String::from_str("u"),
            scroll_detail_down: String::from_str("d"),
        }
    }
}

impl Clone for KeybindingsConfig {
    fn clone(&self) -> (r: Self)
        ensures
            r.up@ == self.up@,
            r.down@ == self.down@,
            r.left@ == self.left@,
            r.right@ == self.right@,
            r.select@ == self.select@,
            r.confirm@ == self.confirm@,
            r.quit@ == self.quit@,
            r.help@ == self.help@,
            r.filter@ == self.filter@,
            r.switch_view@ == self.switch_view@,
            r.scroll_detail_up@ == self.scroll_detail_up@,
            r.scroll_detail_down@ == self.scroll_detail_down@,
    {
        KeybindingsConfig {
            up: self.up.clone(),
            down: self.down.clone(),
            left: self.left.clone(),
            right: self.right.clone(),
            select: self.select.clone(),
            confirm: self.confirm.clone(),
            quit: self.quit.clone(),
            help: self.help.clone(),
            filter: self.filter.clone(),
            switch_view: self.switch_view.clone(),
            scroll_detail_up: self.scroll_detail_up.clone(),
            scroll_detail_down: self.scroll_detail_down.clone(),
        }
    }
}

} // verus!
