use chess_voice_studio::catalog::{VoiceEntry, VoiceFile, VoiceLanguage};
use chess_voice_studio::digest::{md5_hex, DigestStream};
use chess_voice_studio::catalog::{classify_voice_files, InstalledVoice, VoiceCatalog};
use chess_voice_studio::download::{
    check_digest, check_size, curl_args, file_url, install_step, partial_file_name, plan_install,
    safe_file_name, InstallEvent, InstallStep,
};
use chess_voice_studio::paths::AppPaths;
use chess_voice_studio::strmap::StrMap;

fn entry(files: &[(&str, u64, &str)]) -> VoiceEntry {
    let mut map = StrMap::new();
    for (path, size, digest) in files {
        map.insert(
            (*path).to_owned(),
            VoiceFile { size_bytes: *size, md5_digest: (*digest).to_owned() },
        );
    }
    VoiceEntry {
        key: String::from("en_US-demo-medium"),
        name: String::from("demo"),
        language: VoiceLanguage {
            code: String::from("en_US"),
            family: String::from("en"),
            region: String::from("US"),
            name_native: String::from("English"),
            name_english: String::from("English"),
            country_english: String::from("United States"),
        },
        quality: String::from("medium"),
        num_speakers: 1,
        speaker_id_map: StrMap::new(),
        files: map,
        aliases: Vec::new(),
    }
}

#[test]
fn rejects_catalog_path_traversal() {
    assert!(safe_file_name("../voice.onnx").is_err());
    assert!(safe_file_name("/tmp/voice.onnx").is_err());
    assert!(safe_file_name("en/en_US/voice.onnx").is_ok());
}

#[test]
fn safe_names_are_the_last_component() {
    assert_eq!(safe_file_name("en/en_US/voice.onnx").unwrap(), "voice.onnx");
    assert_eq!(safe_file_name("MODEL_CARD").unwrap(), "MODEL_CARD");
    assert_eq!(safe_file_name("a/b/./").unwrap(), "b");
}

#[test]
fn unsafe_and_nameless_paths_are_reported() {
    assert_eq!(
        safe_file_name("a/../b.onnx").unwrap_err(),
        "Unsafe catalog path: a/../b.onnx"
    );
    assert_eq!(safe_file_name("./x").unwrap_err(), "Unsafe catalog path: ./x");
    assert_eq!(safe_file_name("").unwrap_err(), "Catalog path has no filename: ");
    assert_eq!(safe_file_name("a/..").unwrap_err(), "Unsafe catalog path: a/..");
}

#[test]
fn partial_names_keep_the_extension_visible() {
    assert_eq!(partial_file_name("voice.onnx"), "voice.onnx.partial");
    assert_eq!(partial_file_name("MODEL_CARD"), "MODEL_CARD.download.partial");
    assert_eq!(partial_file_name(".hidden"), ".hidden.download.partial");
}

#[test]
fn file_urls_point_at_the_catalog_repository() {
    assert_eq!(
        file_url("en/en_US/x.onnx"),
        "https://huggingface.co/rhasspy/piper-voices/resolve/main/en/en_US/x.onnx?download=true"
    );
}

#[test]
fn install_plan_fetches_model_config_and_card_in_order() {
    let voice = entry(&[
        ("en/demo/MODEL_CARD", 10, "ghi"),
        ("en/demo/demo.onnx.json", 20, "def"),
        ("en/demo/demo.onnx", 100, "abc"),
        ("en/demo/ALIASES", 1, "zzz"),
    ]);
    let plan = plan_install(&voice, "/data/voices");
    assert_eq!(plan.target_dir, "/data/voices/en_US-demo-medium");
    assert!(plan.failure.is_none());
    let names: Vec<&str> = plan.downloads.iter().map(|d| d.file_name.as_str()).collect();
    assert_eq!(names, vec!["demo.onnx", "demo.onnx.json", "MODEL_CARD"]);
    let first = &plan.downloads[0];
    assert_eq!(first.destination, "/data/voices/en_US-demo-medium/demo.onnx");
    assert_eq!(first.partial_path, "/data/voices/en_US-demo-medium/demo.onnx.partial");
    assert_eq!(first.progress, "Downloading demo.onnx (1/3)");
    assert_eq!(first.expected.size_bytes, 100);
    assert_eq!(plan.downloads[2].progress, "Downloading MODEL_CARD (3/3)");
}

#[test]
fn install_plan_refuses_a_pack_without_configuration() {
    let voice = entry(&[("en/demo/demo.onnx", 100, "abc")]);
    let plan = plan_install(&voice, "/data/voices");
    assert!(plan.downloads.is_empty());
    assert_eq!(
        plan.failure.as_deref(),
        Some("This catalog entry does not contain a model and configuration")
    );
}

#[test]
fn install_plan_stops_at_an_unsafe_path() {
    let voice = entry(&[
        ("en/demo/demo.onnx", 100, "abc"),
        ("../demo.onnx.json", 20, "def"),
    ]);
    let plan = plan_install(&voice, "/data/voices");
    assert_eq!(plan.downloads.len(), 1);
    assert_eq!(plan.failure.as_deref(), Some("Unsafe catalog path: ../demo.onnx.json"));
}

#[test]
fn size_check_reports_both_sizes() {
    let expected = VoiceFile { size_bytes: 100, md5_digest: String::from("abc") };
    assert!(check_size("x.onnx", 100, &expected).is_ok());
    assert_eq!(
        check_size("x.onnx", 99, &expected).unwrap_err(),
        "x.onnx has the wrong size (expected 100, received 99)"
    );
}

#[test]
fn digest_check_ignores_letter_case() {
    let expected = VoiceFile { size_bytes: 3, md5_digest: String::from("900150983CD24FB0D6963F7D28E17F72") };
    let actual = md5_hex(b"abc");
    assert_eq!(actual, "900150983cd24fb0d6963f7d28e17f72");
    assert!(check_digest("x.onnx", &actual, &expected).is_ok());
    assert_eq!(
        check_digest("x.onnx", &md5_hex(b"abd"), &expected).unwrap_err(),
        "x.onnx failed its integrity check"
    );
}

#[test]
fn streamed_digest_equals_the_whole_digest() {
    let mut stream = DigestStream::new();
    stream.feed(b"The quick brown fox ");
    stream.feed(b"jumps over the lazy dog");
    assert_eq!(stream.finish_hex(), "9e107d9d372bb6826bd81d3542a419d6");
    assert_eq!(md5_hex(b""), "d41d8cd98f00b204e9800998ecf8427e");
}

#[test]
fn downloads_fail_on_http_errors_and_follow_redirects() {
    assert_eq!(
        curl_args("https://x/y", "/d/y.partial"),
        vec!["--fail", "--location", "--silent", "--show-error", "--output", "/d/y.partial", "https://x/y"]
    );
}

#[test]
fn refreshed_catalog_is_downloaded_beside_the_current_one() {
    let paths = AppPaths::from_data_dir(String::from("/home/user/audio"));
    assert_eq!(paths.catalog_download_path(), "/home/user/audio/voices.json.partial");
}

#[test]
fn install_steps_keep_verified_files_and_stop_at_the_first_failure() {
    let voice = entry(&[
        ("en/demo/demo.onnx", 100, "abc"),
        ("en/demo/demo.onnx.json", 20, "def"),
    ]);
    let plan = plan_install(&voice, "/data/voices");
    match install_step(&plan, 0, InstallEvent::Begin) {
        InstallStep::Announce { index, progress } => {
            assert_eq!(index, 0);
            assert_eq!(progress, "Downloading demo.onnx (1/2)");
        }
        other => panic!("unexpected step {other:?}"),
    }
    match install_step(&plan, 0, InstallEvent::Checked { verifies: true }) {
        InstallStep::Announce { index, .. } => assert_eq!(index, 1),
        other => panic!("unexpected step {other:?}"),
    }
    assert!(matches!(
        install_step(&plan, 1, InstallEvent::Checked { verifies: false }),
        InstallStep::Fetch { index: 1 }
    ));
    match install_step(&plan, 1, InstallEvent::Fetched(Err(String::from("Download failed: 404")))) {
        InstallStep::Abort { index, error } => {
            assert_eq!(index, 1);
            assert_eq!(error, "Download failed: 404");
        }
        other => panic!("unexpected step {other:?}"),
    }
    assert!(matches!(
        install_step(&plan, 1, InstallEvent::Fetched(Ok(()))),
        InstallStep::Done(Ok(()))
    ));
}

#[test]
fn install_steps_end_with_the_plan_failure() {
    let voice = entry(&[("en/demo/demo.onnx", 100, "abc")]);
    let plan = plan_install(&voice, "/data/voices");
    match install_step(&plan, 0, InstallEvent::Begin) {
        InstallStep::Done(Err(error)) => {
            assert_eq!(error, "This catalog entry does not contain a model and configuration")
        }
        other => panic!("unexpected step {other:?}"),
    }
}

#[test]
fn an_installed_pack_is_found_again() {
    let mut voice = entry(&[
        ("en/demo/MODEL_CARD", 10, "ghi"),
        ("en/demo/demo.onnx.json", 20, "def"),
        ("en/demo/demo.onnx", 100, "abc"),
    ]);
    voice.num_speakers = 3;
    voice.speaker_id_map.insert(String::from("Ann"), 2);
    let plan = plan_install(&voice, "/data/voices");
    let listing: Vec<(String, String)> = plan
        .downloads
        .iter()
        .rev()
        .map(|d| (d.file_name.clone(), d.destination.clone()))
        .collect();
    let mut entries = StrMap::new();
    entries.insert(voice.key.clone(), voice.clone());
    let catalog = VoiceCatalog::from_entries(entries).unwrap();
    let files = classify_voice_files(&listing);
    let found = InstalledVoice::assemble(voice.key.clone(), files, &catalog, None).unwrap();
    assert_eq!(found.model_path, "/data/voices/en_US-demo-medium/demo.onnx");
    assert_eq!(found.config_path, "/data/voices/en_US-demo-medium/demo.onnx.json");
    assert_eq!(found.model_card_path.as_deref(), Some("/data/voices/en_US-demo-medium/MODEL_CARD"));
    assert_eq!(found.num_speakers, 3);
    assert_eq!(found.speaker_id_map.get("Ann"), Some(&2));
}
