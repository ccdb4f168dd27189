//! What is computed before the list of runs and the detail panel are drawn.
use crate::file_utils::{file_name_of, path_file_name};
use crate::models::VersionData;
use crate::text::{append_decimal, decimal_text, push_char};
use crate::tui::input::UserAction;
use vstd::prelude::*;
use vstd::string::*;

verus! {

/// Computes what the drawing needs.
pub struct Renderer;

/// What a piece of a row of the list is, which decides its look.
#[derive(Debug, Clone, Copy, PartialEq, Eq)]
pub enum ListSpanKind {
    /// The name of the selected run.
    Selected,
    /// The name of another run.
    Name,
    /// The room between two columns.
    Gap,
}

/// A piece of a row of the list.
#[derive(Debug, PartialEq, Eq)]
pub struct ListSpan {
    pub text: String,
    pub kind: ListSpanKind,
}

/// What a piece of a row holds.
pub struct ListSpanView {
    pub text: Seq<char>,
    pub kind: ListSpanKind,
}

/// What a row holds, piece by piece.
pub open spec fn list_span_views(spans: Seq<ListSpan>) -> Seq<ListSpanView> {
    Seq::new(spans.len(), |i: int| ListSpanView { text: spans[i].text@, kind: spans[i].kind })
}

/// What a list of rows holds, row by row.
pub open spec fn list_row_views(rows: Seq<Vec<ListSpan>>) -> Seq<Seq<ListSpanView>> {
    Seq::new(rows.len(), |i: int| list_span_views(rows[i]@))
}

/// What a list of names holds, name by name.
pub open spec fn name_views(names: Seq<String>) -> Seq<Seq<char>> {
    Seq::new(names.len(), |i: int| names[i]@)
}

/// So many blanks.
pub open spec fn blanks(n: int) -> Seq<char> {
    Seq::new(
        if n > 0 {
            n as nat
        } else {
            0
        },
        |i: int| ' ',
    )
}

/// A name with blanks behind it up to a width; a name as wide or wider as it
/// is.
pub open spec fn padded(name: Seq<char>, width: int) -> Seq<char> {
    name + blanks(width - name.len())
}

/// The pieces of the first `upto` columns of a row: each name that the row
/// has, padded to the width, and behind it the room between columns unless the
/// name is in the last column or the last name of all.
pub open spec fn row_spans(
    names: Seq<Seq<char>>,
    cols: int,
    row: int,
    selected: int,
    spacing: int,
    width: int,
    upto: int,
) -> Seq<ListSpanView>
    decreases upto,
{
    if upto <= 0 {
        Seq::empty()
    } else {
        let before = row_spans(names, cols, row, selected, spacing, width, upto - 1);
        let index = row * cols + (upto - 1);
        if index >= names.len() {
            before
        } else {
            let name = ListSpanView {
                text: padded(names[index], width),
                kind: if index == selected {
                    ListSpanKind::Selected
                } else {
                    ListSpanKind::Name
                },
            };
            if upto - 1 < cols - 1 && index < names.len() - 1 {
                before.push(name).push(ListSpanView { text: blanks(spacing), kind: ListSpanKind::Gap })
            } else {
                before.push(name)
            }
        }
    }
}

/// The first `upto` rows shown of a list of names in so many columns, from
/// the row `scroll_offset` on; rows past the last row of the list are not
/// shown.
pub open spec fn list_rows(
    names: Seq<Seq<char>>,
    cols: int,
    scroll_offset: int,
    selected: int,
    spacing: int,
    width: int,
    upto: int,
) -> Seq<Seq<ListSpanView>>
    decreases upto,
{
    if upto <= 0 {
        Seq::empty()
    } else {
        let before = list_rows(names, cols, scroll_offset, selected, spacing, width, upto - 1);
        let row = scroll_offset + (upto - 1);
        if row >= (names.len() + cols - 1) / cols {
            before
        } else {
            before.push(row_spans(names, cols, row, selected, spacing, width, cols))
        }
    }
}

/// Where the selection is after an action.
#[derive(Debug, Clone, Copy, PartialEq, Eq)]
pub struct Selection {
    /// The selected run.
    pub index: usize,
    /// Whether the selection moved, so that the detail panel starts anew.
    pub moved: bool,
    /// Whether the action was one that moves the selection, and is now done.
    pub handled: bool,
}

/// The number of rows that fit in a height, two of which the borders take.
pub open spec fn rows_between_borders(area_height: u16) -> int {
    if area_height >= 2 {
        area_height - 2
    } else {
        0
    }
}

/// The row of a run in a list of so many columns.
pub open spec fn row_of(index: usize, cols: usize) -> int {
    (index as int) / (cols as int)
}

/// The number of rows that a list of so many names needs in so many columns.
pub open spec fn rows_needed(total: usize, cols: usize) -> int {
    (total + cols - 1) / (cols as int)
}

/// The first row shown, such that the selected row is shown: the row itself
/// where it lies above the rows shown, the row that puts it last where it
/// lies below them, else the first row shown before.
pub open spec fn scrolled_offset(selected_row: int, current: int, visible: int) -> int {
    if selected_row < current {
        selected_row
    } else if selected_row >= current + visible {
        if selected_row >= visible - 1 {
            selected_row - (visible - 1)
        } else {
            0
        }
    } else {
        current
    }
}

/// The smaller of two numbers.
pub open spec fn smaller(a: int, b: int) -> int {
    if a < b {
        a
    } else {
        b
    }
}

/// Where the selection is after an action on a list of `count` runs in `cols`
/// columns: up and down move by a row, left and right by a run, never past
/// the first or the last run.
pub open spec fn selection_after(action: UserAction, selected: usize, cols: usize, count: usize) -> Selection {
    match action {
        UserAction::MoveUp => Selection {
            index: if selected != 0 {
                if selected >= cols {
                    (selected - cols) as usize
                } else {
                    0
                }
            } else {
                selected
            },
            moved: selected != 0,
            handled: true,
        },
        UserAction::MoveDown => Selection {
            index: if selected != count - 1 {
                smaller(smaller(selected + cols, usize::MAX as int), count - 1) as usize
            } else {
                selected
            },
            moved: selected != count - 1,
            handled: true,
        },
        UserAction::MoveLeft => Selection {
            index: if selected != 0 {
                (selected - 1) as usize
            } else {
                selected
            },
            moved: selected != 0,
            handled: true,
        },
        UserAction::MoveRight => Selection {
            index: if selected != count - 1 {
                smaller(smaller(selected + 1, usize::MAX as int), count - 1) as usize
            } else {
                selected
            },
            moved: selected != count - 1,
            handled: true,
        },
        _ => Selection { index: selected, moved: false, handled: false },
    }
}

/// The first line of the detail panel after an action: one line up or down,
/// never above the first line nor past the line that puts the last line of the
/// content at the bottom of the panel.
pub open spec fn detail_offset_after(
    action: UserAction,
    offset: usize,
    content_len: usize,
    area_height: u16,
) -> usize {
    match action {
        UserAction::ScrollDetailUp => if offset > 0 {
            (offset - 1) as usize
        } else {
            0
        },
        UserAction::ScrollDetailDown => smaller(
            smaller(offset + 1, usize::MAX as int),
            content_len - area_height,
        ) as usize,
        _ => offset,
    }
}

/// The title of the detail panel: with the name of the selected run and how
/// far the panel is scrolled, without a name where the run's path has none,
/// and bare where no run is selected.
pub open spec fn detail_title(selected: Option<VersionData>, scroll_percentage: usize) -> Seq<char> {
    match selected {
        Some(version) => match file_name_of(version.path@) {
            Some(name) => "Details - "@ + name + " ["@ + decimal_text(scroll_percentage as nat)
                + "%]"@,
            None => "Details - Unknown"@,
        },
        None => "Details"@,
    }
}

/// The title of the list: with the share of the list that lies above the rows
/// shown where not all rows are shown.
pub open spec fn list_title(total_rows: usize, visible_rows: usize, percentage: u32) -> Seq<char> {
    if total_rows > visible_rows {
        "Version List ["@ + decimal_text(percentage as nat) + "%]"@
    } else {
        "Version List"@
    }
}

fn make_blanks(n: usize) -> (r: String)
    ensures
        r@ == blanks(n as int),
{
    let mut text = String::new();
    let mut i: usize = 0;
    assert(text@ =~= blanks(0));
    while i < n
        invariant
            i <= n,
            text@ == blanks(i as int),
        decreases n - i,
    {
        push_char(&mut text, ' ');
        i += 1;
        assert(text@ =~= blanks(i as int));
    }
    text
}

fn pad_name(name: &String, width: usize) -> (r: String)
    ensures
        r@ == padded(name@, width as int),
{
    let length = name.as_str().unicode_len();
    let mut text = name.clone();
    if length < width {
        let fill = make_blanks(width - length);
        text.append(fill.as_str());
    } else {
        assert(blanks(width - length) =~= Seq::<char>::empty());
        assert(text@ =~= padded(name@, width as int));
    }
    text
}

impl Renderer {
    /// A renderer.
    pub fn new() -> (r: Self) {
        Renderer
    }

    /// Which rows of the list are shown, such that the selected run is among
    /// them: how many rows fit between the borders, how many rows the list
    /// has, and the first row shown. Where no row fits between the borders,
    /// the selected row must lie above the first row shown.
    pub fn calculate_scroll_info(
        &self,
        total_versions: usize,
        cols: usize,
        area_height: u16,
        selected_index: usize,
        current_offset: usize,
    ) -> (r: (usize, usize, usize))
        requires
            cols > 0,
            total_versions + cols <= usize::MAX,
            area_height > 2 || row_of(selected_index, cols) < current_offset,
            row_of(selected_index, cols) >= current_offset ==> current_offset
                + rows_between_borders(area_height) <= usize::MAX,
        ensures
            r.0 == rows_between_borders(area_height),
            r.1 == rows_needed(total_versions, cols),
            r.2 == scrolled_offset(
                row_of(selected_index, cols),
                current_offset as int,
                rows_between_borders(area_height),
            ),
    {
        let visible_rows: usize = if area_height >= 2 {
            (area_height - 2) as usize
        } else {
            0
        };
        let total_rows: usize = (total_versions + cols - 1) / cols;
        let selected_row: usize = selected_index / cols;
        let mut scroll_offset: usize = current_offset;
        if selected_row < scroll_offset {
            scroll_offset = selected_row;
        } else if selected_row >= scroll_offset + visible_rows {
            scroll_offset = if selected_row >= visible_rows - 1 {
                selected_row - (visible_rows - 1)
            } else {
                0
            };
        }
        (visible_rows, total_rows, scroll_offset)
    }

    /// Where the selection is after an action.
    pub fn move_selection(&self, action: UserAction, selected: usize, cols: usize, count: usize) -> (r:
        Selection)
        requires
            count > 0,
        ensures
            r == selection_after(action, selected, cols, count),
    {
        match action {
            UserAction::MoveUp => {
                if selected != 0 {
                    let index: usize = if selected >= cols {
                        selected - cols
                    } else {
                        0
                    };
                    Selection { index, moved: true, handled: true }
                } else {
                    Selection { index: selected, moved: false, handled: true }
                }
            },
            UserAction::MoveDown => {
                if selected != count - 1 {
                    let reach: usize = if selected <= usize::MAX - cols {
                        selected + cols
                    } else {
                        usize::MAX
                    };
                    let index: usize = if reach < count - 1 {
                        reach
                    } else {
                        count - 1
                    };
                    Selection { index, moved: true, handled: true }
                } else {
                    Selection { index: selected, moved: false, handled: true }
                }
            },
            UserAction::MoveLeft => {
                if selected != 0 {
                    Selection { index: selected - 1, moved: true, handled: true }
                } else {
                    Selection { index: selected, moved: false, handled: true }
                }
            },
            UserAction::MoveRight => {
                if selected != count - 1 {
                    let reach: usize = if selected < usize::MAX {
                        selected + 1
                    } else {
                        usize::MAX
                    };
                    let index: usize = if reach < count - 1 {
                        reach
                    } else {
                        count - 1
                    };
                    Selection { index, moved: true, handled: true }
                } else {
                    Selection { index: selected, moved: false, handled: true }
                }
            },
            _ => Selection { index: selected, moved: false, handled: false },
        }
    }

    /// The rows of the list that are shown: the names in rows of so many
    /// columns, from the row `scroll_offset` on, at most `visible_rows` of
    /// them.
    pub fn build_version_list_lines(
        &self,
        version_names: &Vec<String>,
        cols: usize,
        visible_rows: usize,
        scroll_offset: usize,
        selected_index: usize,
        spacing: usize,
        max_name_length: usize,
    ) -> (r: Vec<Vec<ListSpan>>)
        requires
            cols > 0,
            version_names@.len() + cols <= usize::MAX,
            scroll_offset + visible_rows <= usize::MAX,
        ensures
            list_row_views(r@) == list_rows(
                name_views(version_names@),
                cols as int,
                scroll_offset as int,
                selected_index as int,
                spacing as int,
                max_name_length as int,
                visible_rows as int,
            ),
    {
        let ghost names = name_views(version_names@);
        let total_versions = version_names.len();
        let total_rows: usize = (total_versions + cols - 1) / cols;
        let mut lines: Vec<Vec<ListSpan>> = Vec::new();
        let mut display_row: usize = 0;
        assert(list_row_views(lines@) =~= list_rows(
            names,
            cols as int,
            scroll_offset as int,
            selected_index as int,
            spacing as int,
            max_name_length as int,
            0,
        ));
        while display_row < visible_rows
            invariant
                display_row <= visible_rows,
                cols > 0,
                total_versions == version_names@.len(),
                total_versions + cols <= usize::MAX,
                scroll_offset + visible_rows <= usize::MAX,
                total_rows == (total_versions + cols - 1) / (cols as int),
                names == name_views(version_names@),
                list_row_views(lines@) == list_rows(
                    names,
                    cols as int,
                    scroll_offset as int,
                    selected_index as int,
                    spacing as int,
                    max_name_length as int,
                    display_row as int,
                ),
            decreases visible_rows - display_row,
        {
            let actual_row = scroll_offset + display_row;
            let ghost shown = list_row_views(lines@);
            if actual_row < total_rows {
                proof {
                    assert(total_rows * cols <= total_versions + cols - 1) by (nonlinear_arith)
                        requires
                            total_rows == (total_versions + cols - 1) / (cols as int),
                            cols > 0,
                    ;
                    assert(actual_row * cols <= total_rows * cols - cols) by (nonlinear_arith)
                        requires
                            actual_row + 1 <= total_rows,
                            cols > 0,
                    ;
                }
                let first = actual_row * cols;
                let mut row: Vec<ListSpan> = Vec::new();
                let mut col: usize = 0;
                assert(list_span_views(row@) =~= row_spans(
                    names,
                    cols as int,
                    actual_row as int,
                    selected_index as int,
                    spacing as int,
                    max_name_length as int,
                    0,
                ));
                while col < cols
                    invariant
                        col <= cols,
                        total_versions == version_names@.len(),
                        first == actual_row * cols,
                        first + cols <= usize::MAX,
                        names == name_views(version_names@),
                        list_span_views(row@) == row_spans(
                            names,
                            cols as int,
                            actual_row as int,
                            selected_index as int,
                            spacing as int,
                            max_name_length as int,
                            col as int,
                        ),
                    decreases cols - col,
                {
                    let index = first + col;
                    if index < total_versions {
                        let ghost before = list_span_views(row@);
                        let kind = if index == selected_index {
                            ListSpanKind::Selected
                        } else {
                            ListSpanKind::Name
                        };
                        row.push(ListSpan { text: pad_name(&version_names[index], max_name_length), kind });
                        if col < cols - 1 && index < total_versions - 1 {
                            row.push(ListSpan { text: make_blanks(spacing), kind: ListSpanKind::Gap });
                            assert(list_span_views(row@) =~= before.push(
                                ListSpanView { text: padded(names[index as int], max_name_length as int), kind },
                            ).push(ListSpanView { text: blanks(spacing as int), kind: ListSpanKind::Gap }));
                        } else {
                            assert(list_span_views(row@) =~= before.push(
                                ListSpanView { text: padded(names[index as int], max_name_length as int), kind },
                            ));
                        }
                    }
                    col += 1;
                }
                lines.push(row);
                assert(list_row_views(lines@) =~= shown.push(
                    row_spans(
                        names,
                        cols as int,
                        actual_row as int,
                        selected_index as int,
                        spacing as int,
                        max_name_length as int,
                        cols as int,
                    ),
                ));
            }
            display_row += 1;
        }
        lines
    }

    /// The title of the list.
    pub fn generate_list_title(&self, total_rows: usize, visible_rows: usize, percentage: u32) -> (r:
        String)
        ensures
            r@ == list_title(total_rows, visible_rows, percentage),
    {
        if total_rows > visible_rows {
            let mut title = String::from_str("Version List [");
            append_decimal(&mut title, percentage as u64);
            title.append("%]");
            title
        } else {
            String::from_str("Version List")
        }
    }

    /// The first line of the detail panel after an action. The content must
    /// be at least as long as the panel is high.
    pub fn scroll_detail(
        &self,
        action: UserAction,
        offset: usize,
        content_len: usize,
        area_height: u16,
    ) -> (r: usize)
        requires
            content_len >= area_height,
        ensures
            r == detail_offset_after(action, offset, content_len, area_height),
    {
        match action {
            UserAction::ScrollDetailUp => if offset > 0 {
                offset - 1
            } else {
                0
            },
            UserAction::ScrollDetailDown => {
                let reach: usize = if offset < usize::MAX {
                    offset + 1
                } else {
                    usize::MAX
                };
                let last: usize = content_len - area_height as usize;
                if reach < last {
                    reach
                } else {
                    last
                }
            },
            _ => offset,
        }
    }

    /// The title of the detail panel.
    pub fn generate_detail_title(&self, selected: Option<&VersionData>, scroll_percentage: usize) -> (r:
        String)
        ensures
            r@ == detail_title(
                match selected {
                    Some(version) => Some(*version),
                    None => None,
                },
                scroll_percentage,
            ),
    {
        match selected {
            Some(version) => match self.extract_version_name(version) {
                Some(name) => {
                    let mut title = String::from_str("Details - ");
                    title.append(name.as_str());
                    title.append(" [");
                    append_decimal(&mut title, scroll_percentage as u64);
                    title.append("%]");
                    title
                },
                None => String::from_str("Details - Unknown"),
            },
            None => String::from_str("Details"),
        }
    }

    /// The name of a run: the last component of its path.
    pub fn extract_version_name(&self, version: &VersionData) -> (r: Option<String>)
        ensures
            r is Some == file_name_of(version.path@) is Some,
            r is Some ==> r->Some_0@ == file_name_of(version.path@)->Some_0,
    {
        path_file_name(version.path.as_str())
    }
}

} // verus!
