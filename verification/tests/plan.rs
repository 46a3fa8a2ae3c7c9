use astro::plan::night_of;

#[test]
fn a_small_hour_belongs_to_the_evening_before() {
    assert_eq!(night_of(2026, 9, 26, 2), (2026, 9, 25));
    assert_eq!(night_of(2026, 3, 1, 3), (2026, 2, 28));
    assert_eq!(night_of(2026, 9, 25, 22), (2026, 9, 25));
    assert_eq!(night_of(2026, 9, 25, 10), (2026, 9, 25), "planning in the morning is for tonight");
}

use astro::calendar::{date_of_julian_day, julian_day_number};
use astro::plan::{
    add_target, date_label, night_file, nights_dir, plan_key, seen_section, short, ymd_of, PlanKey, Seen, Target,
};

#[test]
fn small_hours_cross_month_year_and_leap_day() {
    assert_eq!(night_of(2025, 1, 1, 3), (2024, 12, 31));
    assert_eq!(night_of(2024, 3, 1, 0), (2024, 2, 29));
    assert_eq!(night_of(2100, 3, 1, 5), (2100, 2, 28));
    assert_eq!(night_of(2000, 3, 1, 7), (2000, 2, 29));
    assert_eq!(night_of(2026, 9, 26, 8), (2026, 9, 26));
}

#[test]
fn out_of_range_days_roll_over_as_the_julian_day_does() {
    assert_eq!(night_of(2026, 9, 31, 2), (2026, 9, 30));
    assert_eq!(night_of(2026, 9, 0, 2), (2026, 8, 30));
}

#[test]
fn julian_day_numbers_of_known_dates() {
    assert_eq!(julian_day_number(2000, 1, 1), 2451545);
    assert_eq!(julian_day_number(1970, 1, 1), 2440588);
    assert_eq!(date_of_julian_day(2451545), (2000, 1, 1));
    assert_eq!(date_of_julian_day(2440588 - 1), (1969, 12, 31));
}

#[test]
fn a_date_label_reads_back() {
    assert_eq!(date_label((2026, 9, 5)), "2026-09-05");
    assert_eq!(date_label((7, 1, 1)), "0007-01-01");
    assert_eq!(date_label((-5, 1, 1)), "-005-01-01");
    assert_eq!(ymd_of(&date_label((2026, 9, 25))), (2026, 9, 25));
    assert_eq!(ymd_of(&date_label((7, 12, 31))), (7, 12, 31));
}

#[test]
fn ymd_takes_the_numbers_it_finds() {
    assert_eq!(ymd_of("2026-09-25"), (2026, 9, 25));
    assert_eq!(ymd_of("garbage"), (2000, 1, 1));
    assert_eq!(ymd_of("2026--7"), (2026, 7, 1));
    assert_eq!(ymd_of("+12-3-4"), (12, 3, 4));
    assert_eq!(ymd_of("4294967295-1-1"), (-1, 1, 1));
    assert_eq!(ymd_of("99999999999-2-3"), (2, 3, 1));
}

#[test]
fn a_target_is_added_once() {
    let mut targets: Vec<Target> = Vec::new();
    assert!(add_target(&mut targets, "M31"));
    assert!(add_target(&mut targets, "M42"));
    assert!(!add_target(&mut targets, "M31"));
    assert_eq!(targets.len(), 2);
    assert_eq!(targets[1].id, "M42");
    assert!(targets[1].seen.is_none());
}

#[test]
fn short_labels_stop_at_the_double_space() {
    assert_eq!(short("ETX-90 + 25mm  72×  0.69°"), "ETX-90 + 25mm");
    assert_eq!(short("single"), "single");
    assert_eq!(short("  lead"), "");
}

#[test]
fn plan_keys_move_open_and_remove() {
    assert_eq!(plan_key("j", 0, 3), PlanKey::Select(1));
    assert_eq!(plan_key("DOWN", 2, 3), PlanKey::Select(2));
    assert_eq!(plan_key("k", 0, 3), PlanKey::Select(0));
    assert_eq!(plan_key("ENTER", 1, 3), PlanKey::Open(1));
    assert_eq!(plan_key("ENTER", 5, 3), PlanKey::Leave);
    assert_eq!(plan_key("x", 2, 3), PlanKey::Remove(2, 1));
    assert_eq!(plan_key("D", 0, 1), PlanKey::Remove(0, 0));
    assert_eq!(plan_key("o", 1, 3), PlanKey::MarkSeen(1));
    assert_eq!(plan_key("u", 3, 3), PlanKey::Nothing);
    assert_eq!(plan_key("q", 0, 0), PlanKey::Leave);
    assert_eq!(plan_key("zzz", 0, 3), PlanKey::Nothing);
}

#[test]
fn the_seen_section_lists_what_was_seen() {
    let seen = |time: &str, combo: &str, note: &str| {
        Some(Seen { time: time.to_string(), combo: combo.to_string(), note: note.to_string() })
    };
    let targets = vec![
        Target { id: "M31".into(), seen: seen("21:30", "ETX + 25mm  72×", "faint core") },
        Target { id: "M42".into(), seen: None },
        Target { id: "M57".into(), seen: seen("23:00", "", "") },
    ];
    let labels = vec![Some("M31 Andromeda Galaxy".to_string()), None, None];
    assert_eq!(
        seen_section(&targets, &labels),
        "\tSeen\n\t\t21:30 M31 Andromeda Galaxy\n\t\t\tWith: ETX + 25mm  72×\n\t\t\tfaint core\n\t\t23:00 M57\n"
    );
    let none = vec![Target { id: "M1".into(), seen: None }];
    assert_eq!(seen_section(&none, &vec![None]), "");
}

#[test]
fn night_files_live_under_the_home_directory() {
    assert_eq!(nights_dir(Some("/home/g")), "/home/g/.astro/nights");
    assert_eq!(nights_dir(None), "/tmp/.astro/nights");
    assert_eq!(night_file("/home/g/.astro/nights", "2026-09-25", "hl"), "/home/g/.astro/nights/2026-09-25.hl");
}

#[test]
fn the_seen_line_says_when_and_with_what() {
    let s = Seen { time: "21:30".into(), combo: "ETX + 25mm  72×".into(), note: "faint".into() };
    assert_eq!(astro::plan::seen_line(&s), "seen 21:30 with ETX + 25mm: faint");
    let s = Seen { time: "22:00".into(), combo: String::new(), note: String::new() };
    assert_eq!(astro::plan::seen_line(&s), "seen 22:00 with ");
}
