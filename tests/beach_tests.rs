use ocean::{Beach, ClanSystem, Color, Crab, Diet};

fn crab(name: &str, speed: u32) -> Crab {
    Crab::new(name.to_string(), speed, Color::new(0, 0, 0), Diet::Plants)
}

fn beach_of(crabs: &[(&str, u32)]) -> Beach {
    let mut b = Beach::new();
    for (name, speed) in crabs {
        b.add_crab(crab(name, *speed));
    }
    b
}

#[test]
fn add_crab_counts_and_keeps_last() {
    let mut b = Beach::new();
    assert_eq!(b.size(), 0);
    for (k, name) in ["a", "b", "c", "d"].iter().enumerate() {
        b.add_crab(crab(name, k as u32));
        assert_eq!(b.size(), k + 1);
        assert_eq!(b.get_crab(b.size() - 1).name(), *name);
    }
    let names: Vec<&str> = b.crabs().iter().map(|c| c.name()).collect();
    assert_eq!(names, vec!["a", "b", "c", "d"]);
}

#[test]
fn fastest_of_empty_beach_is_none() {
    let b = Beach::new();
    assert!(b.get_fastest_crab().is_none());
}

#[test]
fn fastest_takes_first_of_equal_speeds() {
    let b = beach_of(&[("s3", 3), ("first7", 7), ("second7", 7), ("s2", 2)]);
    let c = b.get_fastest_crab().unwrap();
    assert_eq!(c.name(), "first7");
    assert_eq!(c.speed(), 7);
}

#[test]
fn breed_appends_child() {
    let mut b = Beach::new();
    b.add_crab(Crab::new("p".to_string(), 4, Color::new(10, 20, 30), Diet::Fish));
    b.add_crab(Crab::new("q".to_string(), 9, Color::new(20, 41, 0), Diet::Plants));
    b.breed_crabs(0, 1, "kid".to_string());
    assert_eq!(b.size(), 3);
    let kid = b.get_crab(2);
    assert_eq!(kid.name(), "kid");
    assert_eq!(kid.speed(), 1);
    assert_eq!(kid.color(), Color::new(15, 30, 15));
    assert_eq!(b.get_crab(0).name(), "p");
    assert_eq!(b.get_crab(1).name(), "q");
}

#[test]
fn breed_with_diet_uses_given_diet() {
    let mut b = beach_of(&[("p", 4), ("q", 9)]);
    b.breed_crabs_with_diet(1, 1, "kid".to_string(), Diet::Shellfish);
    assert_eq!(b.size(), 3);
    assert_eq!(b.get_crab(2).diet(), Diet::Shellfish);
}

#[test]
fn cross_averages_channels() {
    let c = Color::cross(&Color::new(255, 0, 7), &Color::new(254, 255, 8));
    assert_eq!(c, Color::new(254, 127, 7));
}

#[test]
fn diet_from_roll() {
    assert_eq!(Diet::from_roll(0), Diet::Plants);
    assert_eq!(Diet::from_roll(4), Diet::Shellfish);
    assert_eq!(Diet::from_roll(u64::MAX), Diet::Plants);
    assert_eq!(Diet::from_roll(5), Diet::Fish);
}

#[test]
fn find_by_name_in_order() {
    let b = beach_of(&[("Pinchy", 1), ("Bob", 2), ("Pinchy", 3)]);
    let found = b.find_crabs_by_name("Pinchy");
    assert_eq!(found.len(), 2);
    assert_eq!(found[0].speed(), 1);
    assert_eq!(found[1].speed(), 3);
    assert!(b.find_crabs_by_name("Nobody").is_empty());
}

#[test]
fn largest_clan_and_empty() {
    let mut cs = ClanSystem::new();
    assert_eq!(cs.get_largest_clan_id(), None);
    cs.add_member("B", "p".to_string());
    cs.add_member("A", "x".to_string());
    cs.add_member_to_clan("A", "y");
    cs.add_member2("B", "q");
    cs.add_member("A", "z".to_string());
    assert_eq!(cs.get_largest_clan_id(), Some("A".to_string()));
    assert_eq!(cs.get_clan_count(), 2);
}

#[test]
fn largest_clan_tie_goes_to_smallest_id() {
    let mut cs = ClanSystem::new();
    cs.add_member("B", "p".to_string());
    cs.add_member("A", "x".to_string());
    assert_eq!(cs.get_largest_clan_id(), Some("A".to_string()));
}

#[test]
fn largest_clan_ignores_creation_order() {
    let mut one = ClanSystem::new();
    one.add_member("B", "p".to_string());
    one.add_member("A", "x".to_string());
    let mut two = ClanSystem::new();
    two.add_member("A", "x".to_string());
    two.add_member("B", "p".to_string());
    assert_eq!(one.get_largest_clan_id(), two.get_largest_clan_id());
    assert_eq!(one.get_largest_clan_id(), one.get_largest_clan_id());
}

#[test]
fn largest_clan_tie_compares_whole_ids() {
    let mut cs = ClanSystem::new();
    for id in ["crab", "Crab", "cra", "crabs"] {
        cs.add_member(id, "m".to_string());
        cs.add_member(id, "n".to_string());
    }
    cs.add_member("z", "m".to_string());
    assert_eq!(cs.get_largest_clan_id(), Some("Crab".to_string()));
    let mut prefix = ClanSystem::new();
    prefix.add_member("ab", "m".to_string());
    prefix.add_member("a", "n".to_string());
    assert_eq!(prefix.get_largest_clan_id(), Some("a".to_string()));
}

#[test]
fn largest_clan_beats_smaller_id() {
    let mut cs = ClanSystem::new();
    cs.add_member("A", "x".to_string());
    cs.add_member("Z", "p".to_string());
    cs.add_member("Z", "q".to_string());
    assert_eq!(cs.get_largest_clan_id(), Some("Z".to_string()));
}

#[test]
fn clan_rosters() {
    let mut cs = ClanSystem::new();
    assert_eq!(cs.get_clan_member_names("none"), Vec::<String>::new());
    assert_eq!(cs.get_clan_member_count("none"), 0);
    cs.add_member("A", "x".to_string());
    cs.add_member("A", "x".to_string());
    cs.add_member_to_clan("C", "w");
    assert_eq!(cs.get_clan_member_names("A"), vec!["x".to_string(), "x".to_string()]);
    assert_eq!(cs.get_clan_member_count("A"), 2);
    assert_eq!(cs.get_clan_member_count("C"), 1);
    assert_eq!(cs.get_clan_count(), 2);
}

#[test]
fn beach_clan_membership() {
    let mut b = beach_of(&[("x", 1)]);
    b.add_member_to_clan("A", "x");
    b.add_member_to_clan("A", "ghost");
    assert_eq!(b.get_clan_system().get_clan_member_names("A"), vec!["x".to_string(), "ghost".to_string()]);
    assert_eq!(b.size(), 1);
}

fn contest_beach(a: &[(&str, u32)], b: &[(&str, u32)]) -> Beach {
    let mut beach = Beach::new();
    for (name, speed) in a {
        beach.add_crab(crab(name, *speed));
        beach.add_member_to_clan("A", name);
    }
    for (name, speed) in b {
        beach.add_crab(crab(name, *speed));
        beach.add_member_to_clan("B", name);
    }
    beach
}

#[test]
fn winner_equal_averages_is_none() {
    let b = contest_beach(&[("a1", 5), ("a2", 15)], &[("b1", 10)]);
    assert_eq!(b.get_winner_clan("A", "B"), Ok(None));
}

#[test]
fn winner_higher_average() {
    let b = contest_beach(&[("a1", 12)], &[("b1", 8), ("b2", 8)]);
    assert_eq!(b.get_winner_clan("A", "B"), Ok(Some("A".to_string())));
    assert_eq!(b.get_winner_clan("B", "A"), Ok(Some("A".to_string())));
}

#[test]
fn winner_unresolved_clan_is_error() {
    let mut b = contest_beach(&[], &[("b1", 8)]);
    b.add_member_to_clan("A", "ghost");
    assert_eq!(b.get_winner_clan("A", "B"), Err("Invalid clan IDs".to_string()));
    assert_eq!(b.get_winner_clan("B", "Z"), Err("Invalid clan IDs".to_string()));
}

#[test]
fn winner_ignores_unmatched_names() {
    let mut b = contest_beach(&[("a1", 12)], &[("b1", 11)]);
    b.add_member_to_clan("A", "ghost");
    assert_eq!(b.get_winner_clan("A", "B"), Ok(Some("A".to_string())));
}

#[test]
fn winner_resolves_first_crab_of_a_name() {
    let mut b = contest_beach(&[("dup", 3)], &[("b1", 4)]);
    b.add_crab(crab("dup", 100));
    assert_eq!(b.get_winner_clan("A", "B"), Ok(Some("B".to_string())));
}

#[test]
fn winner_large_speeds_compare_exactly() {
    let b = contest_beach(&[("a1", u32::MAX), ("a2", u32::MAX - 1)], &[("b1", u32::MAX - 1)]);
    assert_eq!(b.get_winner_clan("A", "B"), Ok(Some("A".to_string())));
}
