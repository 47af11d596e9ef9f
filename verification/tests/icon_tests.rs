use apptrack::icon::{app_bundle_path, best_icon_index, file_has_extension, icon_base64, icon_path,
    IconCandidate};

fn cand(width: u32, data: &[u8]) -> IconCandidate {
    IconCandidate { width, data: data.to_vec() }
}

#[test]
fn bundle_path_found() {
    let r = app_bundle_path("/Applications/Editor.app/Contents/MacOS/editor");
    assert_eq!(r.as_deref(), Some("/Applications/Editor.app"));
}

#[test]
fn bundle_path_deepest_wins() {
    let r = app_bundle_path("/Applications/Outer.app/Inner.app/Contents/MacOS/x");
    assert_eq!(r.as_deref(), Some("/Applications/Outer.app/Inner.app"));
}

#[test]
fn bundle_path_none_without_bundle() {
    assert_eq!(app_bundle_path("/usr/local/bin/editor"), None);
    assert_eq!(app_bundle_path(""), None);
}

#[test]
fn bundle_path_needs_a_stem() {
    // a directory named just ".app" has no extension in path terms
    assert_eq!(app_bundle_path("/x/.app/y"), None);
    assert_eq!(app_bundle_path("/x/w.app/y").as_deref(), Some("/x/w.app"));
}

#[test]
fn bundle_path_whole_path_can_match() {
    let r = app_bundle_path("/Applications/Editor.app");
    assert_eq!(r.as_deref(), Some("/Applications/Editor.app"));
}

#[test]
fn bundle_path_handles_wide_characters() {
    let r = app_bundle_path("/Äpps/Çafé.app/Contents/MacOS/café");
    assert_eq!(r.as_deref(), Some("/Äpps/Çafé.app"));
}

#[test]
fn extension_detection() {
    assert!(file_has_extension("AppIcon.icns"));
    assert!(file_has_extension("archive.tar.gz"));
    assert!(!file_has_extension("AppIcon"));
    assert!(!file_has_extension(".hidden"));
    assert!(file_has_extension("dir.v1/AppIcon.icns"));
    assert!(!file_has_extension("dir.v1/AppIcon"));
}

#[test]
fn icon_path_appends_default_extension() {
    assert_eq!(
        icon_path("/Applications/Editor.app", "AppIcon"),
        "/Applications/Editor.app/Contents/Resources/AppIcon.icns"
    );
    assert_eq!(
        icon_path("/Applications/Editor.app", "AppIcon.icns"),
        "/Applications/Editor.app/Contents/Resources/AppIcon.icns"
    );
}

#[test]
fn widest_icon_wins_and_last_among_equals() {
    let icons = vec![cand(16, b"a"), cand(512, b"b"), cand(32, b"c")];
    assert_eq!(best_icon_index(&icons), Some(1));
    let ties = vec![cand(32, b"a"), cand(32, b"b")];
    assert_eq!(best_icon_index(&ties), Some(1));
    assert_eq!(best_icon_index(&Vec::new()), None);
}

#[test]
fn encodes_best_icon_as_base64() {
    let icons = vec![cand(16, &[9, 9, 9]), cand(128, &[1, 2, 3]), cand(64, &[8, 8])];
    // standard padded base64 of the widest variant's bytes [1, 2, 3]
    assert_eq!(icon_base64(&icons).as_deref(), Some("AQID"));
    // padding appears for a length that is not a multiple of three
    let one = vec![cand(1, &[0xFF])];
    assert_eq!(icon_base64(&one).as_deref(), Some("/w=="));
    assert_eq!(icon_base64(&Vec::new()), None);
    let empty_data = vec![cand(4, b"")];
    assert_eq!(icon_base64(&empty_data).as_deref(), Some(""));
}
