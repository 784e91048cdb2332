use aeroshoot_editor::commands::{
    check_preview_detach, check_preview_layout, choose_project_parent, cut_ranges,
    default_projects_dir, get_default_projects_dir_impl, missing_parent, resolve_project_parent,
    with_wallpaper, window_title_for_project, EditCut, ParentLook, WaveformRequests,
};
use aeroshoot_editor::playback::preview::{PreviewHitMode, PreviewOwner};
use aeroshoot_editor::project::layout::EditLayout;

#[test]
fn project_parent_rejects_bundle_and_parent_dir_components() {
    let bundle = choose_project_parent(Some("/tmp/dir/Inside.aero"), "/tmp/dir").unwrap();
    let err = resolve_project_parent(bundle, ParentLook::Folder(false)).unwrap_err();
    assert!(err.contains(".aero"));
    assert!(choose_project_parent(Some("/tmp/aeroshoot/../secret"), "/tmp/dir").is_err());
    let missing = choose_project_parent(Some("/tmp/does-not-exist-aeroshoot"), "/tmp/dir").unwrap();
    assert!(missing_parent(&missing).is_err());
}

#[test]
fn project_parents_are_plain_folders() {
    let parent = || choose_project_parent(None, "/tmp/dir").unwrap();
    assert!(!parent().supplied);
    assert_eq!(missing_parent(&parent()), Ok(()));
    assert_eq!(
        resolve_project_parent(parent(), ParentLook::Folder(false)),
        Ok("/tmp/dir".into())
    );
    assert!(resolve_project_parent(parent(), ParentLook::Folder(true)).is_err());
    assert!(resolve_project_parent(parent(), ParentLook::Link).is_err());
    assert!(resolve_project_parent(parent(), ParentLook::NoFolder).is_err());
    assert!(resolve_project_parent(parent(), ParentLook::Unreadable("gone".into()))
        .unwrap_err()
        .contains("gone"));
}

#[test]
fn test_window_title_formatting() {
    assert_eq!(
        window_title_for_project(Some("Launch Demo")),
        "AeroShoot \u{2014} Launch Demo"
    );
    assert_eq!(window_title_for_project(None), "AeroShoot");
    assert_eq!(window_title_for_project(Some("")), "AeroShoot");
    assert_eq!(window_title_for_project(Some("   ")), "AeroShoot");
}

#[test]
fn projects_are_kept_with_the_documents() {
    let documents = default_projects_dir(Some("/d".into()), Some("/h".into()), "/t");
    assert!(documents.starts_with("/d/"));
    let home = default_projects_dir(None, Some("/h".into()), "/t");
    assert!(home.starts_with("/h/"));
    let temp = default_projects_dir(None, None, "/t");
    assert!(temp.starts_with("/t/"));
    // Whatever folders this machine has, the answer is one of the three.
    let r = get_default_projects_dir_impl("/t");
    let documents = dirs::document_dir().map(|p| p.to_string_lossy().into_owned());
    let home = dirs::home_dir().map(|p| p.to_string_lossy().into_owned());
    assert_eq!(r, default_projects_dir(documents, home, "/t"));
}

#[test]
fn only_the_last_waveform_request_is_answered() {
    let mut requests = WaveformRequests::new();
    let first = requests.begin("mic");
    let other = requests.begin("system");
    assert!(!requests.is_stale(first, "mic"));
    let second = requests.begin("mic");
    assert!(requests.is_stale(first, "mic"));
    assert!(!requests.is_stale(second, "mic"));
    assert!(!requests.is_stale(other, "system"));
    requests.renew();
    assert!(requests.is_stale(second, "mic"));
    let third = requests.begin("mic");
    requests.reset();
    assert!(requests.is_stale(third, "mic"));
}

#[test]
fn cuts_and_wallpapers_are_handed_on() {
    let cuts = vec![
        EditCut {
            start_us: 1,
            end_us: 2,
        },
        EditCut {
            start_us: 5,
            end_us: 9,
        },
    ];
    assert_eq!(cut_ranges(&cuts), vec![(1, 2), (5, 9)]);
    let layout = with_wallpaper(EditLayout::default(), "assets/w.png".into());
    assert_eq!(layout.background_type, "wallpaper");
    assert_eq!(layout.wallpaper_asset, Some("assets/w.png".into()));
    assert_eq!(layout.aspect_ratio, "16:9");
}

#[test]
fn previews_are_laid_out_after_they_are_attached() {
    assert!(check_preview_layout(0).is_err());
    assert_eq!(check_preview_layout(3), Ok(()));
    let mut owner = PreviewOwner::new(true);
    owner
        .attach("main".into(), PreviewHitMode::Consume)
        .unwrap();
    owner.attached(false);
    assert_eq!(check_preview_detach(&owner, "main"), Ok(()));
    assert!(check_preview_detach(&owner, "camera_overlay").is_err());
}
