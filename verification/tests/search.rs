use apex::plugins::search::{is_packaged, target};

#[test]
fn packaged_apps_are_told_apart_by_their_id() {
    assert!(is_packaged("Microsoft.Windows.Photos_8wekyb3d8bbwe!App"));
    assert!(!is_packaged("Microsoft.AutoGenerated.{8B52E8B4-5A5A-4E1B-9D7C-8A3D3E6C1F9A}"));
    assert!(!is_packaged("Microsoft.VisualStudioCode"));
    assert!(!is_packaged(r"D:\Tools\x.exe"));
}

#[test]
fn launch_target_is_the_file_or_the_apps_folder_item() {
    // No such file: opened by its AppsFolder parsing name.
    assert_eq!(
        target("Microsoft.VisualStudioCode", false),
        r"shell:AppsFolder\Microsoft.VisualStudioCode"
    );
    assert_eq!(target(r"Q:\no\such\file.exe", false), r"shell:AppsFolder\Q:\no\such\file.exe");
}
