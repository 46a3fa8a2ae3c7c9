use astro::sky::{body_rgb, find, hour_step, squash, DsoNames};

fn dso(id: &str, alt: &str, name: &str) -> DsoNames {
    DsoNames { id: id.to_string(), alt: alt.to_string(), name: name.to_string() }
}

fn catalogue() -> Vec<DsoNames> {
    vec![
        dso("M31", "NGC 224", "Andromeda Galaxy"),
        dso("M42", "NGC 1976", "Orion Nebula"),
        dso("M57", "NGC 6720", "Ring Nebula"),
        dso("C14", "NGC 869 & NGC 884", "Double Cluster"),
        dso("C20", "NGC 7000", "North America Nebula"),
    ]
}

#[test]
fn finds_objects_by_id_number_and_name() {
    let all = catalogue();
    let id = |q: &str| find(q, &all).map(|i| all[i].id.clone());
    assert_eq!(id("M31").as_deref(), Some("M31"));
    assert_eq!(id("m 42").as_deref(), Some("M42"));
    assert_eq!(id("ngc7000").as_deref(), Some("C20"));
    assert_eq!(id("NGC 884").as_deref(), Some("C14"));
    assert_eq!(id("ring nebula").as_deref(), Some("M57"));
    assert!(id("nothing like it").is_none());
}

#[test]
fn an_empty_query_finds_nothing_and_a_designation_beats_a_name() {
    let all = catalogue();
    assert_eq!(find("   ", &all), None);
    let mixed = vec![dso("C99", "", "Galaxy M31 lookalike"), dso("M31", "", "Andromeda")];
    assert_eq!(find("m31", &mixed), Some(1));
    assert_eq!(find("lookalike", &mixed), Some(0));
}

#[test]
fn squash_lowers_and_drops_spaces() {
    assert_eq!(squash("NGC 7000"), "ngc7000");
    assert_eq!(squash(" Ring  Nebula "), "ringnebula");
}

#[test]
fn bodies_have_their_colours() {
    assert_eq!(body_rgb("moon"), (235, 235, 225));
    assert_eq!(body_rgb("mars"), (235, 110, 70));
    assert_eq!(body_rgb("pluto"), (200, 200, 200));
}

#[test]
fn hour_keys_stop_at_the_ends() {
    assert_eq!(hour_step("l", 5, 6), Some(5));
    assert_eq!(hour_step("l", 2, 6), Some(3));
    assert_eq!(hour_step("j", 0, 100), Some(24));
    assert_eq!(hour_step("PgDOWN", 90, 100), Some(99));
    assert_eq!(hour_step("k", 10, 100), Some(0));
    assert_eq!(hour_step("PgUP", 30, 100), Some(6));
    assert_eq!(hour_step("h", 0, 100), Some(0));
    assert_eq!(hour_step("x", 3, 100), None);
}
