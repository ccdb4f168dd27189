use lightning_explorer::tui::utils::{
    calculate_list_layout, calculate_optimal_columns, parse_color, NamedColor,
};

#[test]
fn test_calculate_optimal_columns() {
    assert_eq!(calculate_optimal_columns(80, 10, 5), 7);
    assert_eq!(calculate_optimal_columns(40, 15, 3), 2);
    assert_eq!(calculate_optimal_columns(100, 20, 10), 4);

    assert_eq!(calculate_optimal_columns(10, 5, 1), 1);
    assert_eq!(calculate_optimal_columns(50, 25, 2), 1);

    assert_eq!(calculate_optimal_columns(15, 10, 5), 1);
}

#[test]
fn test_calculate_list_layout() {
    assert_eq!(calculate_list_layout(10, 5, 10), (1, 1));
    assert_eq!(calculate_list_layout(10, 5, 80), (7, 1));
    assert_eq!(calculate_list_layout(15, 3, 40), (2, 10));
    assert_eq!(calculate_list_layout(20, 10, 100), (4, 6));
}

#[test]
fn test_parse_color() {
    assert_eq!(parse_color("red"), NamedColor::Red);
    assert_eq!(parse_color("green"), NamedColor::Green);
    assert_eq!(parse_color("blue"), NamedColor::Blue);
    assert_eq!(parse_color("white"), NamedColor::White);
    assert_eq!(parse_color("black"), NamedColor::Black);
    assert_eq!(parse_color("cyan"), NamedColor::Cyan);
    assert_eq!(parse_color("yellow"), NamedColor::Yellow);
    assert_eq!(parse_color("invalid"), NamedColor::White);
    assert_eq!(parse_color("RED"), NamedColor::Red);
}

#[test]
fn parse_color_knows_the_grays_and_the_light_colours() {
    assert_eq!(parse_color("gray"), NamedColor::Gray);
    assert_eq!(parse_color("grey"), NamedColor::Gray);
    assert_eq!(parse_color("dark_gray"), NamedColor::DarkGray);
    assert_eq!(parse_color("Dark_Grey"), NamedColor::DarkGray);
    assert_eq!(parse_color("magenta"), NamedColor::Magenta);
    assert_eq!(parse_color("light_red"), NamedColor::LightRed);
    assert_eq!(parse_color("light_green"), NamedColor::LightGreen);
    assert_eq!(parse_color("light_yellow"), NamedColor::LightYellow);
    assert_eq!(parse_color("light_blue"), NamedColor::LightBlue);
    assert_eq!(parse_color("light_magenta"), NamedColor::LightMagenta);
    assert_eq!(parse_color("light_cyan"), NamedColor::LightCyan);
}

#[test]
fn columns_with_names_of_no_length_fill_the_width() {
    assert_eq!(calculate_optimal_columns(10, 0, 1), 9);
    assert_eq!(calculate_optimal_columns(0, 0, 1), 1);
    assert_eq!(calculate_optimal_columns(2, 0, 1), 1);
    assert_eq!(calculate_optimal_columns(3, 0, 1), 2);
}

#[test]
fn a_single_column_with_room_left_has_unbounded_spacing() {
    assert_eq!(calculate_list_layout(5, 1, 10), (1, usize::MAX));
    assert_eq!(calculate_list_layout(20, 1, 10), (1, 1));
    assert_eq!(calculate_list_layout(usize::MAX, 1, 65535), (1, 1));
}

#[test]
fn spacing_is_the_room_left_shared_among_the_gaps() {
    // 3 columns of 10 in 40: 10 left, 2 gaps.
    assert_eq!(calculate_list_layout(10, 4, 40), (3, 5));
    // 7 columns of 10 in 80: 10 left, 6 gaps.
    assert_eq!(calculate_list_layout(10, 5, 80), (7, 1));
}
