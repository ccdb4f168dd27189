//! The state of the dashboard: which run is selected, what the detail panel
//! shows for it, and whether the user has quit.
use crate::attributes::{AttributeMap, Pair};
use crate::models::{AppState, ExperimentGroup, VersionData};
use crate::parameter_value::value_text;
use crate::text::{append_decimal, decimal_text, text_eq};
use crate::tui::input::UserAction;
use crate::version_list::{bucket_label, make_bucket_label, CommonParameters};
use vstd::prelude::*;
use vstd::string::*;

verus! {

/// The views of the dashboard; the list of runs is the only one.
#[derive(Debug, Clone, Copy, PartialEq, Eq)]
pub enum ViewMode {
    VersionList,
}

/// What a piece of a line of the detail panel is, which decides its look.
#[derive(Debug, Clone, Copy, PartialEq, Eq)]
pub enum SpanKind {
    /// The name of what follows.
    Label,
    /// A value.
    Value,
    /// The heading of a section.
    Heading,
    /// Text without a look of its own.
    Plain,
}

/// A piece of a line of the detail panel.
#[derive(Debug, PartialEq, Eq)]
pub struct DetailSpan {
    pub text: String,
    pub kind: SpanKind,
}

/// A line of the detail panel.
#[derive(Debug, PartialEq, Eq)]
pub struct DetailLine {
    pub spans: Vec<DetailSpan>,
}

/// What a piece of a line holds.
pub struct SpanView {
    pub text: Seq<char>,
    pub kind: SpanKind,
}

/// What a line holds, piece by piece.
pub open spec fn span_views(spans: Seq<DetailSpan>) -> Seq<SpanView> {
    Seq::new(spans.len(), |i: int| SpanView { text: spans[i].text@, kind: spans[i].kind })
}

/// What a list of lines holds, line by line.
pub open spec fn line_views(lines: Seq<DetailLine>) -> Seq<Seq<SpanView>> {
    Seq::new(lines.len(), |i: int| span_views(lines[i].spans@))
}

/// A line of one piece.
pub open spec fn single_line(text: Seq<char>, kind: SpanKind) -> Seq<SpanView> {
    seq![SpanView { text, kind }]
}

/// The line of an attribute: its key, indented and followed by a colon, and
/// the rendering of its value.
pub open spec fn entry_line(p: Pair) -> Seq<SpanView> {
    seq![
        SpanView { text: "  "@ + p.0 + ": "@, kind: SpanKind::Label },
        SpanView { text: value_text(p.1), kind: SpanKind::Value },
    ]
}

/// The lines of the first `n` attributes, in key order.
pub open spec fn entry_lines(s: Seq<Pair>, n: int) -> Seq<Seq<SpanView>>
    decreases n,
{
    if n <= 0 || n > s.len() {
        Seq::empty()
    } else {
        entry_lines(s, n - 1).push(entry_line(s[n - 1]))
    }
}

/// The lines for a run: its number, an empty line, a heading, and its
/// attributes.
pub open spec fn version_lines(version_num: u32, hparams: Seq<Pair>) -> Seq<Seq<SpanView>> {
    seq![
        seq![
            SpanView { text: "Version: "@, kind: SpanKind::Label },
            SpanView { text: decimal_text(version_num as nat), kind: SpanKind::Value },
        ],
        single_line(""@, SpanKind::Plain),
        single_line("Hyperparameters:"@, SpanKind::Heading),
    ] + entry_lines(hparams, hparams.len() as int)
}

/// The lines of a section: an empty line, the heading, and the attributes.
pub open spec fn section_lines(heading: Seq<char>, s: Seq<Pair>) -> Seq<Seq<SpanView>> {
    seq![single_line(""@, SpanKind::Plain), single_line(heading, SpanKind::Heading)] + entry_lines(
        s,
        s.len() as int,
    )
}

/// The heading of the section of a run's group, which counts groups from one.
pub open spec fn group_heading(index: int) -> Seq<char> {
    "Experiment Group "@ + decimal_text((index + 1) as nat) + ":"@
}

/// Whether a run with the number is among the members.
pub open spec fn has_member(members: Seq<VersionData>, version_num: u32) -> bool {
    exists|i: int| 0 <= i < members.len() && (#[trigger] members[i]).version_num == version_num
}

/// The first group from `from` on that has a member with the number, or the
/// number of groups where none has.
pub open spec fn first_group_with(groups: Seq<ExperimentGroup>, version_num: u32, from: int) -> int
    decreases groups.len() - from,
{
    if from < 0 || from >= groups.len() {
        groups.len() as int
    } else if has_member(groups[from].member_versions@, version_num) {
        from
    } else {
        first_group_with(groups, version_num, from + 1)
    }
}

/// The first entry of the table from `from` on with the key, or the number of
/// entries where none has it.
pub open spec fn common_index(table: Seq<CommonParameters>, key: Seq<char>, from: int) -> int
    decreases table.len() - from,
{
    if from < 0 || from >= table.len() {
        table.len() as int
    } else if table[from].group_key@ == key {
        from
    } else {
        common_index(table, key, from + 1)
    }
}

/// The state of the dashboard.
#[derive(Debug)]
pub struct App {
    pub state: AppState,
    pub columns: usize,
    pub selected_version_index: usize,
    pub view_mode: ViewMode,
    pub last_user_action: UserAction,
    pub should_quit: bool,
    pub version_list_scroll_offset: usize,
    pub detail_content_cache: Vec<DetailLine>,
    pub detail_content_version: Option<u32>,
    pub detail_scroll_offset: usize,
}

fn make_span(text: String, kind: SpanKind) -> (r: DetailSpan)
    ensures
        r.text@ == text@,
        r.kind == kind,
{
    DetailSpan { text, kind }
}

fn make_single_line(text: &str, kind: SpanKind) -> (r: DetailLine)
    ensures
        span_views(r.spans@) == single_line(text@, kind),
{
    let mut spans: Vec<DetailSpan> = Vec::new();
    spans.push(make_span(String::from_str(text), kind));
    assert(span_views(spans@) =~= single_line(text@, kind));
    DetailLine { spans }
}

fn push_entry_lines(lines: &mut Vec<DetailLine>, map: &AttributeMap)
    ensures
        line_views(final(lines)@) == line_views(old(lines)@) + entry_lines(
            map.pairs(),
            map.pairs().len() as int,
        ),
{
    let ghost start = line_views(lines@);
    let ghost s = map.pairs();
    let mut i: usize = 0;
    assert(line_views(lines@) =~= start + entry_lines(s, 0));
    while i < map.len()
        invariant
            i <= s.len(),
            s == map.pairs(),
            line_views(lines@) == start + entry_lines(s, i as int),
        decreases s.len() - i,
    {
        let mut label = String::from_str("  ");
        label.append(map.key_at(i).as_str());
        label.append(": ");
        let mut spans: Vec<DetailSpan> = Vec::new();
        spans.push(make_span(label, SpanKind::Label));
        spans.push(make_span(map.value_at(i).to_simple_string(), SpanKind::Value));
        assert(span_views(spans@) =~= entry_line(s[i as int]));
        let ghost before = lines@;
        lines.push(DetailLine { spans });
        assert(line_views(lines@) =~= line_views(before).push(entry_line(s[i as int])));
        i += 1;
        assert(line_views(lines@) =~= start + entry_lines(s, i as int));
    }
}

fn members_include(members: &Vec<VersionData>, version_num: u32) -> (r: bool)
    ensures
        r == has_member(members@, version_num),
{
    let mut i: usize = 0;
    while i < members.len()
        invariant
            i <= members.len(),
            forall|j: int| 0 <= j < i ==> (#[trigger] members@[j]).version_num != version_num,
        decreases members.len() - i,
    {
        if members[i].version_num == version_num {
            return true;
        }
        i += 1;
    }
    false
}

impl App {
    /// Every mapping of the state is well formed.
    pub open spec fn well_formed(&self) -> bool {
        self.state.well_formed()
    }

    /// The group of the selected run: the first that has a member with its
    /// number.
    pub open spec fn selected_group(&self) -> Option<usize> {
        if self.selected_version_index < self.state.all_versions@.len() {
            let g = first_group_with(
                self.state.experiment_groups@,
                self.state.all_versions@[self.selected_version_index as int].version_num,
                0,
            );
            if g < self.state.experiment_groups@.len() {
                Some(g as usize)
            } else {
                None
            }
        } else {
            None
        }
    }

    /// The entry of the table of common attributes for the bucket of the
    /// selected run, under a main key.
    pub open spec fn selected_common(&self) -> Option<int> {
        if self.selected_version_index < self.state.all_versions@.len()
            && self.state.config.grouping.main_key is Some {
            match bucket_label(
                self.state.all_versions@[self.selected_version_index as int].hparams.pairs(),
                self.state.config.grouping.main_key->Some_0@,
            ) {
                Some(label) => {
                    let e = common_index(self.state.group_common_hparams@, label, 0);
                    if e < self.state.group_common_hparams@.len() {
                        Some(e)
                    } else {
                        None
                    }
                },
                None => None,
            }
        } else {
            None
        }
    }

    /// What the detail panel shows: for the selected run its attributes, its
    /// group's founding attributes and its bucket's common attributes; a
    /// single line where no run is selected.
    pub open spec fn detail_lines(&self) -> Seq<Seq<SpanView>> {
        if self.selected_version_index < self.state.all_versions@.len() {
            let v = self.state.all_versions@[self.selected_version_index as int];
            version_lines(v.version_num, v.hparams.pairs()) + (match self.selected_group() {
                Some(g) => section_lines(
                    group_heading(g as int),
                    self.state.experiment_groups@[g as int].base_parameters.pairs(),
                ),
                None => Seq::empty(),
            }) + (match self.selected_common() {
                Some(e) => section_lines(
                    "Main Key Groups:"@,
                    self.state.group_common_hparams@[e].common.pairs(),
                ),
                None => Seq::empty(),
            })
        } else {
            seq![single_line("No version selected"@, SpanKind::Plain)]
        }
    }

    /// The number of the selected run.
    pub open spec fn selected_number(&self) -> Option<u32> {
        if self.selected_version_index < self.state.all_versions@.len() {
            Some(self.state.all_versions@[self.selected_version_index as int].version_num)
        } else {
            None
        }
    }

    /// The dashboard at its start: the first run selected, one column, the
    /// detail panel filled for the selection.
    pub fn new(state: AppState) -> (r: Self)
        requires
            state.well_formed(),
        ensures
            r.state == state,
            r.columns == 1,
            r.selected_version_index == 0,
            r.view_mode == ViewMode::VersionList,
            r.last_user_action == UserAction::NoAction,
            !r.should_quit,
            r.version_list_scroll_offset == 0,
            r.detail_scroll_offset == 0,
            line_views(r.detail_content_cache@) == r.detail_lines(),
            r.detail_content_version == r.selected_number(),
    {
        let mut app = Self {
            state,
            columns: 1,
            selected_version_index: 0,
            view_mode: ViewMode::VersionList,
            last_user_action: UserAction::NoAction,
            should_quit: false,
            version_list_scroll_offset: 0,
            detail_content_cache: Vec::new(),
            detail_content_version: None,
            detail_scroll_offset: 0,
        };
        app.update_detail_content_cache();
        app
    }

    /// Notes that the user has quit.
    pub fn quit(&mut self)
        ensures
            final(self).should_quit,
            final(self).state == old(self).state,
            final(self).selected_version_index == old(self).selected_version_index,
            final(self).detail_content_cache == old(self).detail_content_cache,
            final(self).detail_content_version == old(self).detail_content_version,
            final(self).detail_scroll_offset == old(self).detail_scroll_offset,
            final(self).last_user_action == old(self).last_user_action,
    {
        self.should_quit = true;
    }

    /// Puts the detail panel back to its first line.
    pub fn reset_detail_scroll(&mut self)
        ensures
            final(self).detail_scroll_offset == 0,
            final(self).state == old(self).state,
            final(self).selected_version_index == old(self).selected_version_index,
            final(self).detail_content_cache == old(self).detail_content_cache,
            final(self).detail_content_version == old(self).detail_content_version,
            final(self).should_quit == old(self).should_quit,
            final(self).last_user_action == old(self).last_user_action,
    {
        self.detail_scroll_offset = 0;
    }

    /// The selected run, if the selection is a run.
    pub fn get_selected_version(&self) -> (r: Option<&VersionData>)
        ensures
            r is Some == (self.selected_version_index < self.state.all_versions@.len()),
            r is Some ==> *r->Some_0 == self.state.all_versions@[self.selected_version_index as int],
    {
        if self.selected_version_index < self.state.all_versions.len() {
            Some(&self.state.all_versions[self.selected_version_index])
        } else {
            None
        }
    }

    /// The selected run, if the selection is a run.
    pub fn get_current_version(&self) -> (r: Option<&VersionData>)
        ensures
            r is Some == (self.selected_version_index < self.state.all_versions@.len()),
            r is Some ==> *r->Some_0 == self.state.all_versions@[self.selected_version_index as int],
    {
        self.get_selected_version()
    }

    /// The group of the selected run.
    #[verifier::loop_isolation(false)]
    pub fn get_selected_version_group(&self) -> (r: Option<usize>)
        ensures
            r == self.selected_group(),
    {
        match self.get_selected_version() {
            None => None,
            Some(version) => {
                let groups = &self.state.experiment_groups;
                let mut g: usize = 0;
                while g < groups.len()
                    invariant
                        g <= groups.len(),
                        *groups == self.state.experiment_groups,
                        first_group_with(groups@, version.version_num, 0) == first_group_with(
                            groups@,
                            version.version_num,
                            g as int,
                        ),
                    decreases groups.len() - g,
                {
                    if members_include(&groups[g].member_versions, version.version_num) {
                        return Some(g);
                    }
                    g += 1;
                }
                None
            },
        }
    }

    /// The common attributes of the bucket of the selected run.
    #[verifier::loop_isolation(false)]
    pub fn get_selected_version_main_key_params(&self) -> (r: Option<&AttributeMap>)
        requires
            self.well_formed(),
        ensures
            r is Some == self.selected_common() is Some,
            r is Some ==> *r->Some_0 == self.state.group_common_hparams@[self.selected_common()->Some_0].common,
    {
        let version = match self.get_selected_version() {
            None => {
                return None;
            },
            Some(version) => version,
        };
        assert(version.well_formed());
        let main_keys = match &self.state.config.grouping.main_key {
            None => {
                return None;
            },
            Some(main_keys) => main_keys,
        };
        let label = match make_bucket_label(&version.hparams, main_keys) {
            None => {
                return None;
            },
            Some(label) => label,
        };
        let table = &self.state.group_common_hparams;
        let mut e: usize = 0;
        while e < table.len()
            invariant
                e <= table.len(),
                *table == self.state.group_common_hparams,
                common_index(table@, label@, 0) == common_index(table@, label@, e as int),
            decreases table.len() - e,
        {
            if text_eq(table[e].group_key.as_str(), label.as_str()) {
                return Some(&table[e].common);
            }
            e += 1;
        }
        None
    }

    /// Fills the detail panel for the selection and puts it back to its first
    /// line.
    pub fn update_detail_content_cache(&mut self)
        requires
            old(self).well_formed(),
        ensures
            line_views(final(self).detail_content_cache@) == final(self).detail_lines(),
            final(self).detail_content_version == final(self).selected_number(),
            final(self).detail_scroll_offset == 0,
            final(self).state == old(self).state,
            final(self).columns == old(self).columns,
            final(self).selected_version_index == old(self).selected_version_index,
            final(self).view_mode == old(self).view_mode,
            final(self).last_user_action == old(self).last_user_action,
            final(self).should_quit == old(self).should_quit,
            final(self).version_list_scroll_offset == old(self).version_list_scroll_offset,
    {
        let mut lines: Vec<DetailLine> = Vec::new();
        let mut shown: Option<u32> = None;
        if self.selected_version_index < self.state.all_versions.len() {
            let version = &self.state.all_versions[self.selected_version_index];
            shown = Some(version.version_num);
            self.build_version_content(&mut lines, version);
            self.build_experiment_group_content(&mut lines);
            self.build_main_key_content(&mut lines);
        } else {
            lines.push(make_single_line("No version selected", SpanKind::Plain));
            assert(line_views(lines@) =~= seq![single_line("No version selected"@, SpanKind::Plain)]);
        }
        self.detail_content_cache = lines;
        self.detail_content_version = shown;
        self.detail_scroll_offset = 0;
    }

    /// Adds the lines for a run.
    pub fn build_version_content(&self, lines: &mut Vec<DetailLine>, version: &VersionData)
        ensures
            line_views(final(lines)@) == line_views(old(lines)@) + version_lines(
                version.version_num,
                version.hparams.pairs(),
            ),
    {
        let ghost start = line_views(lines@);
        let mut number = String::new();
        append_decimal(&mut number, version.version_num as u64);
        assert(number@ =~= decimal_text(version.version_num as nat));
        let mut spans: Vec<DetailSpan> = Vec::new();
        spans.push(make_span(String::from_str("Version: "), SpanKind::Label));
        spans.push(make_span(number, SpanKind::Value));
        let ghost head = span_views(spans@);
        assert(head =~= seq![
            SpanView { text: "Version: "@, kind: SpanKind::Label },
            SpanView { text: decimal_text(version.version_num as nat), kind: SpanKind::Value },
        ]);
        lines.push(DetailLine { spans });
        lines.push(make_single_line("", SpanKind::Plain));
        lines.push(make_single_line("Hyperparameters:", SpanKind::Heading));
        assert(line_views(lines@) =~= start + seq![
            head,
            single_line(""@, SpanKind::Plain),
            single_line("Hyperparameters:"@, SpanKind::Heading),
        ]);
        push_entry_lines(lines, &version.hparams);
        assert(line_views(lines@) =~= start + version_lines(
            version.version_num,
            version.hparams.pairs(),
        ));
    }

    /// Adds the section of the selected run's group, if it has one.
    pub fn build_experiment_group_content(&self, lines: &mut Vec<DetailLine>)
        ensures
            line_views(final(lines)@) == line_views(old(lines)@) + (match self.selected_group() {
                Some(g) => section_lines(
                    group_heading(g as int),
                    self.state.experiment_groups@[g as int].base_parameters.pairs(),
                ),
                None => Seq::empty(),
            }),
    {
        let ghost start = line_views(lines@);
        match self.get_selected_version_group() {
            Some(g) => {
                proof {
                    lemma_first_group_range(
                        self.state.experiment_groups@,
                        self.state.all_versions@[self.selected_version_index as int].version_num,
                        0,
                    );
                }
                let count = self.state.experiment_groups.len();
                assert(g < count);
                let mut heading = String::from_str("Experiment Group ");
                append_decimal(&mut heading, (g + 1) as u64);
                heading.append(":");
                lines.push(make_single_line("", SpanKind::Plain));
                lines.push(make_single_line(heading.as_str(), SpanKind::Heading));
                assert(line_views(lines@) =~= start + seq![
                    single_line(""@, SpanKind::Plain),
                    single_line(group_heading(g as int), SpanKind::Heading),
                ]);
                push_entry_lines(lines, &self.state.experiment_groups[g].base_parameters);
                assert(line_views(lines@) =~= start + section_lines(
                    group_heading(g as int),
                    self.state.experiment_groups@[g as int].base_parameters.pairs(),
                ));
            },
            None => {
                assert(line_views(lines@) =~= start + Seq::<Seq<SpanView>>::empty());
            },
        }
    }

    /// Adds the section of the common attributes of the selected run's
    /// bucket, if there is one.
    pub fn build_main_key_content(&self, lines: &mut Vec<DetailLine>)
        requires
            self.well_formed(),
        ensures
            line_views(final(lines)@) == line_views(old(lines)@) + (match self.selected_common() {
                Some(e) => section_lines(
                    "Main Key Groups:"@,
                    self.state.group_common_hparams@[e].common.pairs(),
                ),
                None => Seq::empty(),
            }),
    {
        let ghost start = line_views(lines@);
        match self.get_selected_version_main_key_params() {
            Some(common) => {
                lines.push(make_single_line("", SpanKind::Plain));
                lines.push(make_single_line("Main Key Groups:", SpanKind::Heading));
                assert(line_views(lines@) =~= start + seq![
                    single_line(""@, SpanKind::Plain),
                    single_line("Main Key Groups:"@, SpanKind::Heading),
                ]);
                push_entry_lines(lines, common);
                assert(line_views(lines@) =~= start + section_lines(
                    "Main Key Groups:"@,
                    common.pairs(),
                ));
            },
            None => {
                assert(line_views(lines@) =~= start + Seq::<Seq<SpanView>>::empty());
            },
        }
    }

    /// Fills the detail panel anew where it shows another run than the
    /// selected one, and says whether it did.
    pub fn smart_update_detail_content_cache(&mut self) -> (r: bool)
        requires
            old(self).well_formed(),
        ensures
            r == (old(self).selected_number() != old(self).detail_content_version),
            r ==> line_views(final(self).detail_content_cache@) == final(self).detail_lines()
                && final(self).detail_scroll_offset == 0,
            !r ==> *final(self) == *old(self),
            final(self).detail_content_version == final(self).selected_number(),
            final(self).state == old(self).state,
            final(self).selected_version_index == old(self).selected_version_index,
    {
        let current_version = match self.get_selected_version() {
            Some(version) => Some(version.version_num),
            None => None,
        };
        let same = match (current_version, self.detail_content_version) {
            (Some(a), Some(b)) => a == b,
            (None, None) => true,
            _ => false,
        };
        if !same {
            self.update_detail_content_cache();
            true
        } else {
            false
        }
    }

    /// What the detail panel shows, if it shows anything.
    pub fn get_detail_content_cached(&self) -> (r: Option<&Vec<DetailLine>>)
        ensures
            r is Some == (self.detail_content_cache@.len() > 0),
            r is Some ==> *r->Some_0 == self.detail_content_cache,
    {
        if self.detail_content_cache.len() == 0 {
            None
        } else {
            Some(&self.detail_content_cache)
        }
    }
}

/// The first group with a member is a group or the number of groups.
pub proof fn lemma_first_group_range(groups: Seq<ExperimentGroup>, version_num: u32, from: int)
    requires
        0 <= from <= groups.len(),
    ensures
        from <= first_group_with(groups, version_num, from) <= groups.len(),
    decreases groups.len() - from,
{
    if from < groups.len() {
        lemma_first_group_range(groups, version_num, from + 1);
    }
}

} // verus!
