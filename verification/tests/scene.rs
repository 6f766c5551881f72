use omniphony_studio_egui::Scene;

fn bits(p: [f32; 3]) -> [u32; 3] {
    [p[0].to_bits(), p[1].to_bits(), p[2].to_bits()]
}

#[test]
fn a_position_report_creates_moves_and_renames_objects() {
    let mut scene = Scene::new();
    scene.upsert_position(7, bits([0.5, -1.0, 0.0]), None, 100);
    let o = &scene.objects[&7];
    assert_eq!(o.id, 7);
    assert_eq!(o.label, "#7");
    assert!(!o.fixed);
    assert_eq!(o.last_seen, 100);
    assert_eq!(f32::from_bits(o.pos[1]), -1.0);
    scene.upsert_position(7, bits([0.25, 0.0, 1.0]), Some("Voice"), 150);
    let o = &scene.objects[&7];
    assert_eq!(o.label, "Voice");
    assert_eq!(o.last_seen, 150);
    assert_eq!(f32::from_bits(o.pos[0]), 0.25);
    // A report without a name keeps the label.
    scene.upsert_position(7, bits([0.0, 0.0, 0.0]), None, 160);
    assert_eq!(scene.objects[&7].label, "Voice");
    assert_eq!(scene.objects.len(), 1);
}

#[test]
fn metadata_flags_bed_objects_and_creates_them_at_the_origin() {
    let mut scene = Scene::new();
    scene.upsert_meta(3, true, None, 40);
    let o = &scene.objects[&3];
    assert!(o.fixed);
    assert_eq!(o.label, "#3");
    assert_eq!(o.pos, [0, 0, 0]);
    assert_eq!(o.last_seen, 40);
    scene.upsert_position(3, bits([1.0, 1.0, 1.0]), None, 50);
    scene.upsert_meta(3, false, Some("LFE"), 90);
    let o = &scene.objects[&3];
    assert!(!o.fixed);
    assert_eq!(o.label, "LFE");
    assert_eq!(o.last_seen, 50);
    assert_eq!(f32::from_bits(o.pos[2]), 1.0);
}

#[test]
fn pruning_drops_only_the_objects_that_stopped_updating() {
    let mut scene = Scene::new();
    scene.upsert_position(1, bits([0.0; 3]), None, 1_000);
    scene.upsert_position(2, bits([0.0; 3]), None, 4_000);
    scene.upsert_position(3, bits([0.0; 3]), None, 4_999);
    scene.prune(5_000, 1_000);
    assert!(!scene.objects.contains_key(&1));
    assert!(!scene.objects.contains_key(&2));
    assert!(scene.objects.contains_key(&3));
    // A report from the future is zero seconds old.
    scene.upsert_position(4, bits([0.0; 3]), None, 9_000);
    scene.prune(5_000, 1);
    assert!(scene.objects.contains_key(&4));
    assert!(!scene.objects.contains_key(&3));
    scene.remove(4);
    assert!(scene.objects.is_empty());
}
