use live_view::change_detection::Cd;

#[test]
fn it_works() {
    let mut changed = Cd::new(15);
    *changed.get_mut() += 5;
    assert!(changed.changed());
    changed.reset();
    assert_eq!(*changed.get(), 20);
    assert!(!changed.changed());
}

#[test]
fn new_true_starts_changed() {
    let cd = Cd::new_true(5);
    assert!(cd.changed());
    assert_eq!(cd.take(), 5);
}

#[test]
fn reading_does_not_trip_detection() {
    let cd = Cd::new(5);
    assert_eq!(*cd.get(), 5);
    assert!(!cd.changed());
}

#[test]
fn silent_mutation_does_not_trip_detection() {
    let mut cd = Cd::new(5);
    *cd.mutate_silently() += 5;
    assert_eq!(*cd.get(), 10);
    assert!(!cd.changed());
}

#[test]
fn default_is_unchanged() {
    let zero: Cd<i32> = Cd::default();
    assert!(!zero.changed());
    assert_eq!(*zero.get(), 0);
}
