//! Names of runs, colours by name, and the layout of the list of runs.
use crate::file_utils::{file_name_of, path_file_name};
use crate::models::VersionData;
use crate::text::{append_decimal, decimal_text, lowercase_text, text_eq, to_lowercase};
use vstd::prelude::*;
use vstd::string::*;

verus! {

/// The name under which a run is listed: the last component of its path, or
/// `version_` and its number where the path has none.
pub open spec fn version_name(path: Seq<char>, version_num: u32) -> Seq<char> {
    match file_name_of(path) {
        Some(name) => name,
        None => "version_"@ + decimal_text(version_num as nat),
    }
}

/// The names under which the runs are listed, run by run.
pub fn extract_version_names(versions: &Vec<VersionData>) -> (r: Vec<String>)
    ensures
        r@.len() == versions@.len(),
        forall|i: int|
            0 <= i < versions@.len() ==> (#[trigger] r@[i])@ == version_name(
                versions@[i].path@,
                versions@[i].version_num,
            ),
{
    let mut names: Vec<String> = Vec::new();
    let mut i: usize = 0;
    while i < versions.len()
        invariant
            i <= versions.len(),
            names@.len() == i,
            forall|j: int|
                0 <= j < i ==> (#[trigger] names@[j])@ == version_name(
                    versions@[j].path@,
                    versions@[j].version_num,
                ),
        decreases versions.len() - i,
    {
        let name = match path_file_name(versions[i].path.as_str()) {
            Some(name) => name,
            None => {
                let mut fallback = String::from_str("version_");
                append_decimal(&mut fallback, versions[i].version_num as u64);
                fallback
            },
        };
        names.push(name);
        i += 1;
    }
    names
}

/// A colour of the terminal's palette.
#[derive(Debug, Clone, Copy, PartialEq, Eq)]
pub enum NamedColor {
    Black,
    Red,
    Green,
    Yellow,
    Blue,
    Magenta,
    Cyan,
    White,
    Gray,
    DarkGray,
    LightRed,
    LightGreen,
    LightYellow,
    LightBlue,
    LightMagenta,
    LightCyan,
}

/// The colour that a lower-case name stands for; white for any other text.
pub open spec fn color_of_name(name: Seq<char>) -> NamedColor {
    if name == "black"@ {
        NamedColor::Black
    } else if name == "red"@ {
        NamedColor::Red
    } else if name == "green"@ {
        NamedColor::Green
    } else if name == "yellow"@ {
        NamedColor::Yellow
    } else if name == "blue"@ {
        NamedColor::Blue
    } else if name == "magenta"@ {
        NamedColor::Magenta
    } else if name == "cyan"@ {
        NamedColor::Cyan
    } else if name == "gray"@ || name == "grey"@ {
        NamedColor::Gray
    } else if name == "dark_gray"@ || name == "dark_grey"@ {
        NamedColor::DarkGray
    } else if name == "light_red"@ {
        NamedColor::LightRed
    } else if name == "light_green"@ {
        NamedColor::LightGreen
    } else if name == "light_yellow"@ {
        NamedColor::LightYellow
    } else if name == "light_blue"@ {
        NamedColor::LightBlue
    } else if name == "light_magenta"@ {
        NamedColor::LightMagenta
    } else if name == "light_cyan"@ {
        NamedColor::LightCyan
    } else {
        NamedColor::White
    }
}

/// The colour that a name stands for, whatever its case.
pub fn parse_color(color_str: &str) -> (r: NamedColor)
    ensures
        r == color_of_name(lowercase_text(color_str@)),
{
    let lowered = to_lowercase(color_str);
    let name = lowered.as_str();
    if text_eq(name, "black") {
        NamedColor::Black
    } else if text_eq(name, "red") {
        NamedColor::Red
    } else if text_eq(name, "green") {
        NamedColor::Green
    } else if text_eq(name, "yellow") {
        NamedColor::Yellow
    } else if text_eq(name, "blue") {
        NamedColor::Blue
    } else if text_eq(name, "magenta") {
        NamedColor::Magenta
    } else if text_eq(name, "cyan") {
        NamedColor::Cyan
    } else if text_eq(name, "gray") || text_eq(name, "grey") {
        NamedColor::Gray
    } else if text_eq(name, "dark_gray") || text_eq(name, "dark_grey") {
        NamedColor::DarkGray
    } else if text_eq(name, "light_red") {
        NamedColor::LightRed
    } else if text_eq(name, "light_green") {
        NamedColor::LightGreen
    } else if text_eq(name, "light_yellow") {
        NamedColor::LightYellow
    } else if text_eq(name, "light_blue") {
        NamedColor::LightBlue
    } else if text_eq(name, "light_magenta") {
        NamedColor::LightMagenta
    } else if text_eq(name, "light_cyan") {
        NamedColor::LightCyan
    } else {
        NamedColor::White
    }
}

/// The number of columns in which names of a given length are listed across
/// a given width: the largest number below the width at which a column is
/// still wider than a name, and one where there is no such number.
pub fn calculate_optimal_columns(area_width: u16, max_name_length: usize, num_names: usize) -> (r:
    usize)
    requires
        num_names > 0,
    ensures
        r >= 1,
        r == 1 || r < area_width,
        r >= 2 ==> max_name_length * r < area_width,
        r + 1 < area_width ==> max_name_length * (r + 1) >= area_width,
{
    let width: u128 = area_width as u128;
    let name: u128 = max_name_length as u128;
    let mut best_cols: usize = 1;
    let mut cols: usize = 2;
    while cols < area_width as usize
        invariant
            2 <= cols,
            cols <= area_width || cols == 2,
            best_cols == cols - 1,
            width == area_width,
            name == max_name_length,
            best_cols >= 2 ==> max_name_length * best_cols < area_width,
        decreases area_width - cols,
    {
        assert(name * (cols as u128) <= 0xffff_ffff_ffff_ffff * 0xffff) by (nonlinear_arith)
            requires
                name <= 0xffff_ffff_ffff_ffff,
                cols <= 0xffff,
        ;
        if width <= name * (cols as u128) {
            return best_cols;
        }
        best_cols = cols;
        cols += 1;
    }
    best_cols
}

/// The room between two columns: what is left of the width beside the columns,
/// shared among the gaps and rounded down, and at least one. With a single
/// column there is no gap to share it: the room is then without bound where
/// anything is left, and one where nothing is.
pub open spec fn column_spacing(area_width: u16, max_name_length: usize, cols: usize) -> usize {
    let left = area_width - cols * max_name_length;
    if left <= 0 {
        1
    } else if cols <= 1 {
        usize::MAX
    } else if left / (cols - 1) < 1 {
        1
    } else {
        (left / (cols - 1)) as usize
    }
}

/// The layout of the list: the number of columns and the room between two of
/// them.
pub fn calculate_list_layout(max_name_length: usize, num_names: usize, area_width: u16) -> (r: (
    usize,
    usize,
))
    requires
        num_names > 0,
    ensures
        r.0 >= 1,
        r.0 == 1 || r.0 < area_width,
        r.0 >= 2 ==> max_name_length * r.0 < area_width,
        r.0 + 1 < area_width ==> max_name_length * (r.0 + 1) >= area_width,
        r.1 == column_spacing(area_width, max_name_length, r.0),
{
    let cols = calculate_optimal_columns(area_width, max_name_length, num_names);
    let width: u128 = area_width as u128;
    assert((cols as u128) * (max_name_length as u128) <= 0xffff * 0xffff_ffff_ffff_ffff)
        by (nonlinear_arith)
        requires
            cols <= 0xffff,
            max_name_length <= 0xffff_ffff_ffff_ffff,
    ;
    let used: u128 = (cols as u128) * (max_name_length as u128);
    let spacing: usize = if used >= width {
        1
    } else if cols <= 1 {
        usize::MAX
    } else {
        let left: u128 = width - used;
        let share: u128 = left / ((cols - 1) as u128);
        if share < 1 {
            1
        } else {
            share as usize
        }
    };
    (cols, spacing)
}

} // verus!
