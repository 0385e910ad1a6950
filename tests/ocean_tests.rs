use ocean::{Beach, Ocean, Prey, Reef};

#[test]
fn generate_reef_stocks_prey() {
    let mut o = Ocean::new();
    let h = o.generate_reef(2, 0, 0, 3);
    let reef = o.reef(h);
    assert_eq!(reef.size(), 5);
    let minnows: Vec<&Prey> = reef.prey().iter().filter(|p| matches!(p, Prey::Minnow { .. })).collect();
    assert_eq!(minnows.len(), 2);
    for p in minnows {
        assert_eq!(*p, Prey::Minnow { speed: 25 });
    }
    assert_eq!(reef.prey()[0], Prey::Algae);
}

#[test]
fn generate_reef_order_of_kinds() {
    let mut o = Ocean::new();
    let h = o.generate_reef(1, 1, 1, 1);
    assert_eq!(
        o.reef(h).prey().clone(),
        vec![Prey::Algae, Prey::Minnow { speed: 25 }, Prey::Shrimp { energy: 1 }, Prey::Clam]
    );
}

#[test]
fn handle_and_ocean_see_same_reef() {
    let mut o = Ocean::new();
    let first = o.generate_reef(0, 0, 1, 0);
    let h = o.generate_reef(2, 0, 0, 3);
    assert_eq!(o.reefs().len(), 2);
    assert_eq!(o.take_prey(h), Some(Prey::Minnow { speed: 25 }));
    assert_eq!(o.reefs()[h.index].size(), 4);
    assert_eq!(o.reef(h).size(), 4);
    o.add_prey(h, Prey::Clam);
    assert_eq!(o.reefs()[h.index].prey()[4], Prey::Clam);
    assert_eq!(o.reef(first).size(), 1);
}

#[test]
fn take_prey_from_empty_reef() {
    let mut o = Ocean::new();
    let h = o.generate_reef(0, 0, 0, 0);
    assert_eq!(o.take_prey(h), None);
    assert_eq!(o.reef(h).size(), 0);
}

#[test]
fn ocean_keeps_beaches() {
    let mut o = Ocean::new();
    assert_eq!(o.beaches().len(), 0);
    o.add_beach(Beach::new());
    o.add_beach(Beach::new());
    assert_eq!(o.beaches().len(), 2);
    assert!(o.reefs().is_empty());
}

#[test]
fn reef_add_and_take() {
    let mut r = Reef::new();
    r.add_prey(Prey::Shrimp { energy: 1 });
    r.add_prey(Prey::Clam);
    assert_eq!(r.size(), 2);
    assert_eq!(r.take_prey(), Some(Prey::Clam));
    assert_eq!(r.take_prey(), Some(Prey::Shrimp { energy: 1 }));
    assert_eq!(r.take_prey(), None);
}
