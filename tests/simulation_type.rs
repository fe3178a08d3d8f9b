use elevator_arm::SimulationType;

#[test]
fn from_str_names_the_two_programs() {
    assert_eq!(SimulationType::from_str("main"), Some(SimulationType::Main));
    assert_eq!(SimulationType::from_str("grid"), Some(SimulationType::Grid));
}

#[test]
fn from_str_rejects_other_words() {
    for w in ["", "mai", "mains", "Main", "GRID", "gird", "grid ", "m\u{e9}in"] {
        assert_eq!(SimulationType::from_str(w), None);
    }
}
