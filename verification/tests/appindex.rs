use std::sync::Arc;

use apex::appindex::{AppIndex, IndexedApp};
use apex::indexfile::{decode, encode};
use apex::plugin::Icon;

fn icon(fill: u8) -> Arc<Icon> {
    Arc::new(Icon {
        width: 2,
        height: 2,
        bgra: vec![fill; 16],
    })
}

fn app(name: &str, icon: Option<Arc<Icon>>) -> IndexedApp {
    IndexedApp {
        name: name.to_string(),
        app_id: format!("id-{name}"),
        icon,
    }
}

#[test]
fn round_trips_and_shares_identical_bitmaps() {
    let shared = icon(7);
    let index = AppIndex {
        apps: vec![
            app("Alpha", Some(shared.clone())),
            app("Beta", Some(shared.clone())),
            // Same pixels, different allocation: still one blob.
            app("Gamma", Some(icon(7))),
            app("Delta", Some(icon(9))),
            app("Epsilon", None),
        ],
        fallback: Some(shared),
        folder: None,
    };
    let bytes = encode(&index);
    // Header + 2 blobs of 20 bytes + refs + 5 apps: three would be 60.
    assert_eq!(u32::from_le_bytes(bytes[8..12].try_into().unwrap()), 2);

    let back = decode(&bytes).expect("decodes");
    assert_eq!(back.apps.len(), 5);
    assert_eq!(back.apps[0].name, "Alpha");
    assert_eq!(back.apps[0].app_id, "id-Alpha");
    assert_eq!(back.apps[0].icon.as_ref().unwrap().bgra, vec![7; 16]);
    assert_eq!(back.apps[3].icon.as_ref().unwrap().bgra, vec![9; 16]);
    assert!(back.apps[4].icon.is_none());
    assert!(back.folder.is_none());
    // Shared on the way in, shared on the way out.
    assert!(Arc::ptr_eq(
        back.apps[0].icon.as_ref().unwrap(),
        back.apps[2].icon.as_ref().unwrap()
    ));
    assert!(Arc::ptr_eq(
        back.fallback.as_ref().unwrap(),
        back.apps[1].icon.as_ref().unwrap()
    ));
}

#[test]
fn empty_index_round_trips() {
    let back = decode(&encode(&AppIndex::default())).expect("decodes");
    assert!(back.apps.is_empty());
    assert!(back.fallback.is_none());
}

#[test]
fn unicode_names_survive() {
    let index = AppIndex {
        apps: vec![app("Café ☕ 日本語", None)],
        ..Default::default()
    };
    let back = decode(&encode(&index)).unwrap();
    assert_eq!(back.apps[0].name, "Café ☕ 日本語");
}

#[test]
fn corrupt_files_are_rejected_not_panicked() {
    let index = AppIndex {
        apps: vec![app("Alpha", Some(icon(1)))],
        fallback: Some(icon(2)),
        folder: None,
    };
    let bytes = encode(&index);
    assert!(decode(&bytes).is_some());
    // Every truncation point must fail cleanly.
    for cut in 0..bytes.len() {
        assert!(decode(&bytes[..cut]).is_none(), "cut at {cut} decoded");
    }
    let mut wrong_magic = bytes.clone();
    wrong_magic[7] = b'9';
    assert!(decode(&wrong_magic).is_none());
    // A blob reference past the end.
    let mut bad_ref = bytes.clone();
    let n = bad_ref.len();
    bad_ref[n - 4..].copy_from_slice(&5u32.to_le_bytes());
    assert!(decode(&bad_ref).is_none());
    // A blob claiming an absurd size must not allocate for it.
    let mut huge = bytes.clone();
    huge[12..14].copy_from_slice(&u16::MAX.to_le_bytes());
    assert!(decode(&huge).is_none());
    assert!(decode(b"").is_none());
}
