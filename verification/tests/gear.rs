use astro::calendar::date_of_julian_day;
use astro::gear::ui::{
    chrono_date, count_tagged, csv_escape, gear_key, hex_to_256, is_yes, log_header, scroll_offset, stored_order,
    truncate_or_pad, Focus, GearKey, Selection,
};
use astro::text::split_fields;

fn lists() -> Selection<&'static str, &'static str> {
    Selection::new(vec!["A", "B", "C"], vec!["x", "y"])
}

#[test]
fn a_new_selection_starts_at_the_top_untagged() {
    let s = lists();
    assert_eq!(s.focus(), Focus::Ts);
    assert_eq!((s.ts_idx(), s.ep_idx()), (0, 0));
    assert_eq!(s.ts_tagged(), &vec![false, false, false]);
    assert!(!s.sort_on());
}

#[test]
fn shifting_moves_the_entry_and_its_tag() {
    let mut s = lists();
    s.move_down();
    s.move_down();
    s.toggle_tag(&stored_order(3));
    s.shift_up();
    assert_eq!(s.telescopes(), &vec!["A", "C", "B"]);
    assert_eq!(s.ts_tagged(), &vec![false, true, false]);
    assert_eq!(s.ts_idx(), 1);
    s.shift_down();
    assert_eq!(s.telescopes(), &vec!["A", "B", "C"]);
    assert_eq!(s.ts_tagged(), &vec![false, false, true]);
    assert_eq!(s.ts_idx(), 2);
}

#[test]
fn sorted_lists_are_not_reordered() {
    let mut s = lists();
    s.toggle_sort();
    s.move_down();
    s.shift_up();
    assert_eq!(s.telescopes(), &vec!["A", "B", "C"]);
    assert_eq!(s.ts_idx(), 1);
}

#[test]
fn the_cursor_stays_on_the_list() {
    let mut s = lists();
    s.move_up();
    assert_eq!(s.ts_idx(), 0);
    s.go_last();
    assert_eq!(s.ts_idx(), 2);
    s.move_down();
    assert_eq!(s.ts_idx(), 2);
    s.toggle_focus();
    s.go_last();
    assert_eq!((s.ts_idx(), s.ep_idx()), (2, 1));
    s.go_first();
    assert_eq!(s.ep_idx(), 0);
}

#[test]
fn tags_follow_the_shown_order() {
    let mut s = lists();
    s.move_down();
    s.toggle_tag(&vec![2, 0, 1]);
    assert_eq!(s.ts_tagged(), &vec![true, false, false]);
    s.toggle_tag(&vec![2, 0, 1]);
    assert_eq!(s.ts_tagged(), &vec![false, false, false]);
    s.tag_all();
    assert_eq!(count_tagged(s.ts_tagged()), 3);
    s.untag_all();
    assert_eq!(count_tagged(s.ts_tagged()), 0);
}

#[test]
fn deleting_keeps_the_cursor_on_the_list() {
    let mut s = lists();
    s.toggle_tag(&stored_order(3));
    s.go_last();
    s.delete_selected(&stored_order(3));
    assert_eq!(s.telescopes(), &vec!["A", "B"]);
    assert_eq!(s.ts_tagged(), &vec![true, false]);
    assert_eq!(s.ts_idx(), 1);
    s.go_first();
    s.delete_selected(&stored_order(2));
    assert_eq!(s.telescopes(), &vec!["B"]);
    assert_eq!(s.ts_tagged(), &vec![false]);
    assert_eq!(s.ts_idx(), 0);
}

#[test]
fn added_gear_goes_last_untagged() {
    let mut s = lists();
    s.add_telescope("D");
    s.add_eyepiece("z");
    assert_eq!(s.telescopes(), &vec!["A", "B", "C", "D"]);
    assert_eq!(s.ts_tagged().len(), 4);
    assert_eq!(s.eyepieces(), &vec!["x", "y", "z"]);
    s.replace_eyepiece(0, "w");
    assert_eq!(s.eyepieces(), &vec!["w", "y", "z"]);
    assert_eq!(s.current_ts_orig_idx(&stored_order(4)), Some(0));
}

#[test]
fn names_are_cut_with_an_ellipsis() {
    assert_eq!(truncate_or_pad("Celestron", 5), "Cele…");
    assert_eq!(truncate_or_pad("abc", 5), "abc");
    assert_eq!(truncate_or_pad("abc", 0), "…");
}

#[test]
fn csv_fields_are_quoted_when_needed() {
    assert_eq!(csv_escape("plain"), "plain");
    assert_eq!(csv_escape("a,b"), "\"a,b\"");
    assert_eq!(csv_escape("say \"hi\""), "\"say \"\"hi\"\"\"");
    assert_eq!(csv_escape("two\nlines"), "\"two\nlines\"");
}

#[test]
fn scrolling_keeps_the_selection_in_view() {
    assert_eq!(scroll_offset(0, 5, 10), 0);
    assert_eq!(scroll_offset(3, 20, 10), 0);
    assert_eq!(scroll_offset(7, 20, 10), 2);
    assert_eq!(scroll_offset(18, 20, 10), 10);
}

#[test]
fn header_colours_map_to_the_cube() {
    assert_eq!(hex_to_256("00524b"), 23);
    assert_eq!(hex_to_256("4c3c1d"), 58);
    assert_eq!(hex_to_256("ffffff"), 231);
    assert_eq!(hex_to_256("abc"), 234);
    assert_eq!(hex_to_256("+f+f+f"), 16);
    assert_eq!(hex_to_256("zz0000"), 16);
}

#[test]
fn log_dates_are_utc_calendar_dates() {
    assert_eq!(chrono_date(0), "1970-01-01");
    assert_eq!(chrono_date(86399), "1970-01-01");
    assert_eq!(chrono_date(951782400), "2000-02-29");
    assert_eq!(chrono_date(1785000000), "2026-07-25");
    assert_eq!(chrono_date(-86400), "1969-12-31");
}

#[test]
fn the_log_header_lists_what_is_known() {
    assert_eq!(
        log_header("2026-07-25", "Oslo", "", "clear", "", ""),
        "# Observation Log\n\nDate: 2026-07-25\nLocation: Oslo\nWeather: clear\n"
    );
    assert_eq!(
        log_header("2026-07-25", "", "23", "", "42% waxing", "Jupiter"),
        "# Observation Log\n\nDate: 2026-07-25\nTime: 23:00\nMoon: 42% waxing\nVisible: Jupiter\n"
    );
}

#[test]
fn gear_keys_map_to_actions() {
    assert_eq!(gear_key("S-UP"), GearKey::ShiftUp);
    assert_eq!(gear_key("SPACE"), GearKey::ToggleTag);
    assert_eq!(gear_key(" "), GearKey::ToggleTag);
    assert_eq!(gear_key("G"), GearKey::BackToSky);
    assert_eq!(gear_key("Q"), GearKey::QuitNoSave);
    assert_eq!(gear_key("C-O"), GearKey::ObservationLog);
    assert_eq!(gear_key("zz"), GearKey::Nothing);
}

#[test]
fn delete_asks_for_a_plain_yes() {
    assert!(is_yes(" y "));
    assert!(is_yes("Y"));
    assert!(!is_yes("n"));
    assert!(!is_yes("yes"));
}

#[test]
fn input_fields_split_at_three_commas() {
    assert_eq!(split_fields("ETX-90, 90, 1250, my first"), vec!["ETX-90", "90", "1250", "my first"]);
    assert_eq!(split_fields("a,b,c,d,e"), vec!["a", "b", "c", "d,e"]);
    assert_eq!(split_fields("solo"), vec!["solo"]);
    assert_eq!(split_fields(" a , b "), vec!["a", "b"]);
}

#[test]
fn the_log_date_matches_the_night_calendar() {
    for days in [0i64, 11016, 20000, 47482, -1, -719468] {
        let (y, m, d) = date_of_julian_day(2440588 + days);
        assert_eq!(chrono_date(days * 86400), format!("{:04}-{:02}-{:02}", y, m, d));
    }
}

#[test]
fn cursor_moves_undo_each_other() {
    let mut s = lists();
    s.move_down();
    s.move_up();
    assert_eq!(s.ts_idx(), 0);
    s.go_last();
    s.move_up();
    s.move_down();
    assert_eq!(s.ts_idx(), 2);
}
