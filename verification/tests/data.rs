use astro::gear::data::{
    backup_dir, backup_file_name, backups_to_remove, config_path, default_backup_count, default_ts_bg, save_path,
    BackupFile, Config,
};

#[test]
fn paths_sit_under_dot_astro() {
    assert_eq!(save_path(Some("/home/g")), "/home/g/.astro/gear.json");
    assert_eq!(save_path(Some("/home/g/")), "/home/g/.astro/gear.json");
    assert_eq!(save_path(None), "/tmp/.astro/gear.json");
    assert_eq!(save_path(Some("")), ".astro/gear.json");
    assert_eq!(config_path(Some("/home/g")), "/home/g/.astro/gear_config.json");
    assert_eq!(backup_dir(Some("/home/g")), "/home/g/.astro/gear_backups");
}

#[test]
fn config_defaults() {
    let c = Config::default();
    assert_eq!(c.ts_header_bg, "00524b");
    assert_eq!(c.ep_header_bg, "4c3c1d");
    assert_eq!((c.tag_color, c.cursor_bg, c.text_color, c.check_good, c.check_bad), (46, 234, 248, 112, 208));
    assert!(c.auto_backup);
    assert_eq!(c.backup_count, 5);
    assert_eq!(default_backup_count(), 5);
    assert_eq!(default_ts_bg(), "00524b");
}

#[test]
fn backup_names_carry_the_time() {
    assert_eq!(backup_file_name(1700000000), "astro_gear_1700000000.json");
    assert_eq!(backup_file_name(0), "astro_gear_0.json");
    assert_eq!(backup_file_name(-5), "astro_gear_-5.json");
}

fn file(name: &str, t: Option<i128>) -> BackupFile {
    BackupFile { name: name.to_string(), modified: t }
}

#[test]
fn rotation_retires_the_oldest_backups() {
    let files = vec![
        file("astro_gear_1.json", Some(30)),
        file("notes.txt", Some(1)),
        file("astro_gear_2.json", Some(10)),
        file("astro_gear_3.json", None),
        file("astro_gear_4.json", Some(20)),
    ];
    assert_eq!(backups_to_remove(&files, 2), vec![2, 3]);
    assert_eq!(backups_to_remove(&files, 4), Vec::<usize>::new());
    assert_eq!(backups_to_remove(&files, 0), vec![0, 2, 3, 4]);
}

#[test]
fn equal_times_retire_in_listing_order() {
    let files = vec![
        file("astro_gear_a.json", Some(5)),
        file("astro_gear_b.json", Some(5)),
        file("astro_gear_c.json", Some(5)),
    ];
    assert_eq!(backups_to_remove(&files, 1), vec![0, 1]);
}
