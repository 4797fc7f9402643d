use hallucinator_core::track::{latest_end, position_of, recording_track};

#[test]
fn first_position_of_an_id() {
    let ids = vec![4, 7, 9, 7];
    assert_eq!(position_of(&ids, 7), Some(1));
    assert_eq!(position_of(&ids, 4), Some(0));
    assert_eq!(position_of(&ids, 5), None);
    assert_eq!(position_of(&Vec::new(), 1), None);
}

#[test]
fn latest_end_of_clips() {
    assert_eq!(latest_end(&vec![300, 1200, 800]), 1200);
    assert_eq!(latest_end(&vec![5]), 5);
    assert_eq!(latest_end(&Vec::new()), 0);
}

#[test]
fn recordings_go_to_the_armed_track() {
    assert_eq!(recording_track(&vec![false, true, true]), Some(1));
    assert_eq!(recording_track(&vec![false, false]), Some(0));
    assert_eq!(recording_track(&Vec::new()), None);
}
