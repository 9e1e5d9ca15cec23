use static_key::arms::{likely_arm, matcher_value, static_match_layout, MacroError};

#[test]
fn likely_arm_is_first_marked_or_last() {
    assert_eq!(likely_arm(&[false, true, false]), 1);
    assert_eq!(likely_arm(&[false, true, true]), 1);
    assert_eq!(likely_arm(&[false, false, false]), 2);
    assert_eq!(likely_arm(&[true]), 0);
}

#[test]
fn matcher_values() {
    assert_eq!(matcher_value(0, 1), 0);
    assert_eq!(matcher_value(1, 1), -1);
    assert_eq!(matcher_value(2, 1), 1);
}

#[test]
fn layout_of_static_if_unlikely() {
    // true => true, #[likely] false => false
    let layout = static_match_layout(&[false, true]).unwrap();
    assert_eq!(layout.fallthrough, 1);
    assert_eq!(layout.matcher, vec![0, -1]);
    assert_eq!(layout.labels, vec![0]);
}

#[test]
fn layout_with_likely_in_middle() {
    let layout = static_match_layout(&[false, false, true, false]).unwrap();
    assert_eq!(layout.fallthrough, 2);
    assert_eq!(layout.matcher, vec![0, 1, -1, 2]);
    assert_eq!(layout.labels, vec![0, 1, 3]);
}

#[test]
fn layout_without_likely_falls_through_last() {
    let layout = static_match_layout(&[false, false, false]).unwrap();
    assert_eq!(layout.fallthrough, 2);
    assert_eq!(layout.matcher, vec![0, 1, -1]);
    assert_eq!(layout.labels, vec![0, 1]);
}

#[test]
fn empty_match_is_refused() {
    assert_eq!(static_match_layout(&[]).err(), Some(MacroError::NoArms));
}

use static_key::arms::{static_if_arms, Likeliness};

#[test]
fn static_if_is_unlikely_by_default() {
    assert_eq!(Likeliness::default(), Likeliness::Unlikely);
    let unlikely = static_if_arms(Likeliness::default());
    assert_eq!(unlikely, vec![false, true]);
    assert_eq!(static_match_layout(&unlikely).unwrap().fallthrough, 1);
    let likely = static_if_arms(Likeliness::Likely);
    assert_eq!(likely, vec![true, false]);
    assert_eq!(static_match_layout(&likely).unwrap().fallthrough, 0);
}
