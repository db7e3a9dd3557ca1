use luola2::forcefield::Forcefields;

#[test]
fn fields_are_updated_in_place_or_added() {
    let mut f = Forcefields::new();
    f.update_forcefield(3, "gravity");
    f.update_forcefield(7, "wind");
    f.update_forcefield(3, "antigravity");
    assert_eq!(f.fields(), &vec![(3, "antigravity"), (7, "wind")]);
    assert_eq!(f.len(), 2);
}

#[test]
fn removal_moves_the_last_field_into_the_gap() {
    let mut f = Forcefields::new();
    f.update_forcefield(1, 'a');
    f.update_forcefield(2, 'b');
    f.update_forcefield(3, 'c');
    f.remove_forcefield(1);
    assert_eq!(f.fields(), &vec![(3, 'c'), (2, 'b')]);
    f.remove_forcefield(9);
    assert_eq!(f.fields(), &vec![(3, 'c'), (2, 'b')]);
    f.remove_forcefield(2);
    f.remove_forcefield(3);
    assert_eq!(f.len(), 0);
}
