use std::sync::Arc;

use omniphony_studio_egui::{after_pick, Picked, Purpose};

fn paths(list: &[&str]) -> Vec<String> {
    list.iter().map(|p| p.to_string()).collect()
}

#[test]
fn only_sofa_imports_pick_several_files() {
    assert!(Purpose::Sofa.picks_many());
    assert!(!Purpose::ObjectClip.picks_many());
    assert!(!Purpose::Backend { backend: "vbap".into(), key: "table".into() }.picks_many());
}

#[test]
fn picked_files_lead_to_their_purpose() {
    match after_pick(Purpose::Sofa, paths(&["/a.sofa", "/b.sofa"])) {
        Picked::ImportSofa(p) => assert_eq!(p, paths(&["/a.sofa", "/b.sofa"])),
        _ => panic!("expected an import"),
    }
    match after_pick(Purpose::Backend { backend: "vbap".into(), key: "table".into() }, paths(&["/t", "/u"])) {
        Picked::SetBackendParam { backend, key, path } => {
            assert_eq!((backend.as_str(), key.as_str(), path.as_str()), ("vbap", "table", "/t"));
        }
        _ => panic!("expected a parameter"),
    }
    let navigation = Arc::new(());
    let purpose = Purpose::Script { backend: "lua".into(), key: "script".into(), navigation: navigation.clone() };
    match after_pick(purpose, paths(&["/s.lua"])) {
        Picked::OpenScript { backend, key, path, navigation: n } => {
            assert_eq!((backend.as_str(), key.as_str(), path.as_str()), ("lua", "script", "/s.lua"));
            assert!(Arc::ptr_eq(&n, &navigation));
        }
        _ => panic!("expected a script"),
    }
    match after_pick(Purpose::ObjectClip, paths(&["/clip.wav"])) {
        Picked::SetObjectClip(p) => assert_eq!(p, "/clip.wav"),
        _ => panic!("expected a clip"),
    }
    assert!(matches!(after_pick(Purpose::ObjectClip, vec![]), Picked::Nothing));
}
