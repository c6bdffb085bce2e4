use chess_voice_studio::paths::AppPaths;

#[test]
fn all_runtime_files_live_beside_the_executable() {
    let paths = AppPaths::from_data_dir(String::from("/home/user/audio"));

    assert_eq!(paths.data_dir, "/home/user/audio");
    assert_eq!(paths.voices_dir, "/home/user/audio/voices");
    assert_eq!(paths.engine_dir, "/home/user/audio/engine");
    assert_eq!(paths.cache_dir, "/home/user/audio/cache");
    assert_eq!(paths.catalog_path, "/home/user/audio/voices.json");
    assert_eq!(paths.state_path, "/home/user/audio/app.ron");
}

#[test]
fn paths_do_not_depend_on_the_working_directory() {
    let first = AppPaths::from_data_dir(String::from("/opt/voice one"));
    let second = AppPaths::from_data_dir(String::from("/opt/voice one"));

    assert_eq!(first.voices_dir, second.voices_dir);
    assert_eq!(first.engine_dir, second.engine_dir);
    assert_eq!(first.state_path, second.state_path);
}

#[test]
fn app_image_location_wins_when_absolute() {
    let paths = AppPaths::discover(
        Some(String::from("/opt/apps/Studio.AppImage")),
        Some(String::from("/tmp/.mount_x/usr/bin/studio")),
    )
    .unwrap();
    assert_eq!(paths.data_dir, "/opt/apps");
    assert_eq!(paths.voices_dir, "/opt/apps/voices");
}

#[test]
fn relative_app_image_falls_back_to_the_executable() {
    let paths = AppPaths::discover(
        Some(String::from("Studio.AppImage")),
        Some(String::from("/usr/lib/studio/studio")),
    )
    .unwrap();
    assert_eq!(paths.data_dir, "/usr/lib/studio");
    let paths = AppPaths::discover(Some(String::new()), Some(String::from("/srv/studio"))).unwrap();
    assert_eq!(paths.data_dir, "/srv");
    assert_eq!(paths.cache_dir, "/srv/cache");
}

#[test]
fn executable_at_the_root_uses_the_root() {
    let paths = AppPaths::discover(None, Some(String::from("/studio"))).unwrap();
    assert_eq!(paths.data_dir, "/");
    assert_eq!(paths.engine_dir, "/engine");
}

#[test]
fn unknown_executable_location_is_an_error() {
    assert_eq!(
        AppPaths::discover(None, None).unwrap_err(),
        "Could not locate the executable. Put the app in its own writable directory and run it again."
    );
    assert!(AppPaths::discover(None, Some(String::from("/"))).is_err());
}

#[test]
fn previews_live_in_the_cache() {
    let paths = AppPaths::from_data_dir(String::from("/home/user/audio"));
    assert_eq!(paths.preview_dir(), "/home/user/audio/cache/previews");
    assert_eq!(paths.managed_python(), "/home/user/audio/engine/bin/python");
}

#[test]
fn joining_follows_path_rules() {
    assert_eq!(chess_voice_studio::paths::join("/a/", "b"), "/a/b");
    assert_eq!(chess_voice_studio::paths::join("/a", "/b"), "/b");
    assert_eq!(chess_voice_studio::paths::join("", "b"), "b");
}
