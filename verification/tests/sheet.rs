use omniphony_studio_egui::{faces, sliders, Axis, FaceId, Which};

#[test]
fn each_view_shows_its_two_axes() {
    let all = faces();
    assert!(all[0].id == FaceId::Floor && all[0].label_key == "objectTest.facePlan");
    assert!(all[0].axis(Which::H).axis == Axis::Lateral);
    assert!(all[0].axis(Which::V).axis == Axis::Depth && all[0].axis(Which::V).invert);
    assert!(all[1].axis(Which::V).axis == Axis::Height);
    assert!(all[2].axis(Which::H).axis == Axis::Depth && !all[2].axis(Which::H).invert);
    assert!(all[1].depth_ends.is_none());
}

#[test]
fn every_axis_has_a_slider_and_depth_has_two() {
    let drives: Vec<Axis> = sliders().iter().map(|s| s.axis().axis).collect();
    assert_eq!(drives, vec![Axis::Lateral, Axis::Height, Axis::Depth, Axis::Depth]);
    let indices: Vec<usize> = drives.iter().map(|a| a.adm_index()).collect();
    assert_eq!(indices, vec![0, 2, 1, 1]);
    assert_eq!(sliders()[2].label_key, sliders()[3].label_key);
}
