use std::sync::Arc;

use apex::appindex::{
    build, entry, helper_step, launchable, scan_source, AppIndex, FolderFile, HelperStatus,
    HelperStep, IndexedApp, HELPER_TIMEOUT,
};
use apex::indexfile::{decode, encode, fnv1a, put_str, same_pixels, Reader};
use apex::plugin::Icon;

fn icon(fill: u8) -> Icon {
    Icon { width: 1, height: 2, bgra: vec![fill; 8] }
}

fn found(name: &str, app_id: &str) -> IndexedApp {
    entry(name, app_id, None, &None).unwrap()
}

#[test]
fn launchable_files_are_known_by_their_extension() {
    for e in ["exe", "LNK", "Bat", "cmd", "ps1"] {
        assert!(launchable(Some(e)), "{e}");
    }
    assert!(!launchable(Some("dll")) && !launchable(Some("")) && !launchable(None));
}

#[test]
fn a_source_folder_gives_its_launchable_files() {
    let file = |extension: Option<&str>, stem: Option<&str>, path: Option<&str>, is_file: bool| {
        FolderFile {
            extension: extension.map(str::to_string),
            stem: stem.map(str::to_string),
            path: path.map(str::to_string),
            is_file,
        }
    };
    let files = vec![
        file(Some("EXE"), Some("b"), Some(r"D:\T\b.EXE"), true),
        file(Some("txt"), Some("c"), Some(r"D:\T\c.txt"), true),
        file(Some("exe"), Some("dir"), Some(r"D:\T\dir.exe"), false),
        file(None, Some("d"), Some(r"D:\T\d"), true),
        file(Some("ps1"), None, Some(r"D:\T\?.ps1"), true),
        file(Some("bat"), Some("e"), None, true),
        file(Some("ps1"), Some("a"), Some(r"D:\T\a.ps1"), true),
    ];
    let pair = |a: &str, b: &str| (a.to_string(), b.to_string());
    assert_eq!(
        scan_source(&files),
        vec![pair("b", r"D:\T\b.EXE"), pair("a", r"D:\T\a.ps1")]
    );
}

#[test]
fn an_entry_needs_a_name_and_an_id() {
    assert!(entry("", "id", None, &None).is_none());
    assert!(entry("Name", "", None, &None).is_none());
    let generic = Some(Arc::new(icon(1)));
    let own = entry("Name", "id", Some(icon(2)), &generic).unwrap();
    assert_eq!(own.icon.unwrap().bgra, vec![2; 8]);
    let borrowed = entry("Name", "id", None, &generic).unwrap();
    assert!(Arc::ptr_eq(&borrowed.icon.unwrap(), generic.as_ref().unwrap()));
}

#[test]
fn the_index_lists_everything_once_by_name() {
    let index = build(
        vec![found("B", "2"), found("A", "1"), found("B", "2"), found("B", "3")],
        None,
        Some(Arc::new(icon(9))),
    );
    let listed: Vec<(&str, &str)> =
        index.apps.iter().map(|a| (a.name.as_str(), a.app_id.as_str())).collect();
    assert_eq!(listed, vec![("A", "1"), ("B", "2"), ("B", "3")]);
    assert!(index.folder.is_some() && index.fallback.is_none());
}

#[test]
fn the_helper_is_waited_for_but_not_for_ever() {
    let done = HelperStatus::Exited { success: true };
    assert!(helper_step(done, u64::MAX) == HelperStep::Finish { success: true });
    assert!(helper_step(HelperStatus::Running, HELPER_TIMEOUT - 1) == HelperStep::Wait);
    assert!(helper_step(HelperStatus::Running, HELPER_TIMEOUT) == HelperStep::Kill);
    assert!(helper_step(HelperStatus::Unknown, 0) == HelperStep::Finish { success: false });
}

#[test]
fn hashes_tell_most_pictures_apart_and_comparing_tells_the_rest() {
    let blank = Icon { width: 0, height: 0, bgra: Vec::new() };
    assert_ne!(fnv1a(&blank), fnv1a(&icon(0)));
    assert_eq!(fnv1a(&icon(3)), 0x9d3b_fd44_e55b_aa7e);
    assert!(same_pixels(&icon(3), &icon(3)));
    assert!(!same_pixels(&icon(3), &icon(4)));
    let turned = Icon { width: 2, height: 1, bgra: vec![3; 8] };
    assert!(!same_pixels(&icon(3), &turned));
}

#[test]
fn a_written_file_is_laid_out_as_documented() {
    let index = AppIndex {
        apps: vec![IndexedApp {
            name: "A".into(),
            app_id: "é".into(),
            icon: Some(Arc::new(icon(5))),
        }],
        fallback: None,
        folder: Some(Arc::new(icon(5))),
    };
    let mut want = b"APEXIDX1".to_vec();
    want.extend([1, 0, 0, 0, 1, 0, 2, 0]);
    want.extend([5; 8]);
    want.extend([255, 255, 255, 255, 0, 0, 0, 0]);
    want.extend([1, 0, 0, 0, 1, 0, b'A', 2, 0, 0xC3, 0xA9, 0, 0, 0, 0]);
    assert_eq!(encode(&index), want);
    let back = decode(&want).unwrap();
    assert_eq!(back.apps[0].app_id, "é");
    // Text that is not UTF-8 is refused.
    let mut bad = want.clone();
    let n = bad.len();
    bad[n - 5] = 0xFF;
    assert!(decode(&bad).is_none());
}

#[test]
fn pictures_of_an_absurd_size_are_refused() {
    for (width, height) in [(257u32, 1u32), (1, 257), (0, 1)] {
        let bgra = vec![0; (width * height * 4) as usize];
        let icon = Some(Arc::new(Icon { width, height, bgra }));
        let index = AppIndex {
            apps: vec![IndexedApp { name: "A".into(), app_id: "a".into(), icon }],
            ..Default::default()
        };
        assert!(decode(&encode(&index)).is_none());
    }
}

#[test]
fn names_too_long_for_the_file_come_back_cut_between_characters() {
    let name: String = "é".repeat(40_000);
    let index = AppIndex {
        apps: vec![IndexedApp { name, app_id: "a".into(), icon: None }],
        ..Default::default()
    };
    let back = decode(&encode(&index)).unwrap();
    assert_eq!(back.apps[0].name, "é".repeat(32_767));
    assert_eq!(back.apps[0].app_id, "a");
}

#[test]
fn a_name_reads_back_from_where_it_was_put() {
    let mut out = vec![7, 7];
    put_str(&mut out, "é☕");
    assert_eq!(out, [7, 7, 5, 0, 0xC3, 0xA9, 0xE2, 0x98, 0x95]);
    assert_eq!(Reader::new(&out, 2).read_str().as_deref(), Some("é☕"));
    assert!(Reader::new(&out[..8], 2).read_str().is_none());
    let mut long = Vec::new();
    put_str(&mut long, &"é".repeat(40_000));
    assert_eq!(long.len(), 2 + 65_534);
    assert_eq!(Reader::new(&long, 0).read_str(), Some("é".repeat(32_767)));
}
