use chess_voice_studio::catalog::{
    classify_voice_files, InstalledVoice, LocalVoiceConfig, VoiceCatalog, VoiceEntry, VoiceFile,
    VoiceFiles, VoiceLanguage, FEATURED_VOICE,
};
use chess_voice_studio::strmap::StrMap;

const SAMPLE: &str = r#"{
  "en_US-demo-medium": {
    "key": "en_US-demo-medium",
    "name": "demo_voice",
    "language": {
      "code": "en_US", "family": "en", "region": "US",
      "name_native": "English", "name_english": "English",
      "country_english": "United States"
    },
    "quality": "medium", "num_speakers": 2,
    "speaker_id_map": {"Alice": 0, "Bob": 1},
    "files": {
      "en/en_US/demo/medium/en_US-demo-medium.onnx": {
        "size_bytes": 100, "md5_digest": "abc"
      },
      "en/en_US/demo/medium/en_US-demo-medium.onnx.json": {
        "size_bytes": 20, "md5_digest": "def"
      },
      "en/en_US/demo/medium/MODEL_CARD": {
        "size_bytes": 10, "md5_digest": "ghi"
      }
    },
    "aliases": []
  }
}"#;

fn text(value: &serde_json::Value, field: &str) -> String {
    value[field].as_str().unwrap_or_default().to_owned()
}

fn entry_from_json(value: &serde_json::Value) -> VoiceEntry {
    let language = &value["language"];
    let mut speaker_id_map = StrMap::new();
    if let Some(map) = value["speaker_id_map"].as_object() {
        for (label, id) in map {
            speaker_id_map.insert(label.clone(), id.as_u64().unwrap() as u32);
        }
    }
    let mut files = StrMap::new();
    if let Some(map) = value["files"].as_object() {
        for (path, meta) in map {
            files.insert(
                path.clone(),
                VoiceFile {
                    size_bytes: meta["size_bytes"].as_u64().unwrap(),
                    md5_digest: text(meta, "md5_digest"),
                },
            );
        }
    }
    VoiceEntry {
        key: text(value, "key"),
        name: text(value, "name"),
        language: VoiceLanguage {
            code: text(language, "code"),
            family: text(language, "family"),
            region: text(language, "region"),
            name_native: text(language, "name_native"),
            name_english: text(language, "name_english"),
            country_english: text(language, "country_english"),
        },
        quality: text(value, "quality"),
        num_speakers: value["num_speakers"].as_u64().unwrap() as u32,
        speaker_id_map,
        files,
        aliases: Vec::new(),
    }
}

fn parse(contents: &str) -> Result<VoiceCatalog, String> {
    let value: serde_json::Value = serde_json::from_str(contents)
        .map_err(|error| format!("Could not parse the voice catalog: {error}"))?;
    let mut entries = StrMap::new();
    for (key, entry) in value.as_object().unwrap() {
        entries.insert(key.clone(), entry_from_json(entry));
    }
    VoiceCatalog::from_entries(entries)
}

fn simple_entry(key: &str, name: &str, language: &str, code: &str, quality: &str) -> VoiceEntry {
    VoiceEntry {
        key: key.to_owned(),
        name: name.to_owned(),
        language: VoiceLanguage {
            code: code.to_owned(),
            family: String::new(),
            region: String::new(),
            name_native: language.to_owned(),
            name_english: language.to_owned(),
            country_english: String::new(),
        },
        quality: quality.to_owned(),
        num_speakers: 1,
        speaker_id_map: StrMap::new(),
        files: StrMap::new(),
        aliases: Vec::new(),
    }
}

#[test]
fn parses_catalog_and_speakers() {
    let catalog = parse(SAMPLE).expect("catalog should parse");
    let voice = catalog
        .get("en_US-demo-medium")
        .expect("voice should exist");
    assert_eq!(voice.num_speakers, 2);
    assert_eq!(voice.speaker_label(1), "Bob");
    assert_eq!(voice.model_files().len(), 3);
}

#[test]
fn formats_voice_for_the_picker() {
    let catalog = parse(SAMPLE).expect("catalog should parse");
    let voice = catalog
        .get("en_US-demo-medium")
        .expect("voice should exist");
    assert_eq!(voice.display_name(), "demo voice · 2 voices");
    assert!(voice.compact_details().contains("English"));
}

#[test]
fn compact_details_join_language_code_and_quality() {
    let voice = simple_entry("pt_BR-faber-x_low", "faber", "Portuguese", "pt_BR", "x_low");
    assert_eq!(voice.compact_details(), "Portuguese (pt-BR) · x low");
}

#[test]
fn single_speaker_names_lose_their_underscores() {
    let voice = simple_entry("en_GB-alba-medium", "alba_smith", "English", "en_GB", "medium");
    assert_eq!(voice.display_name(), "alba smith");
}

#[test]
fn featured_pack_has_its_own_title() {
    let mut voice = simple_entry(FEATURED_VOICE, "libritts_r", "English", "en_US", "medium");
    voice.num_speakers = 904;
    assert_eq!(voice.display_name(), "English Mega Pack · 904 voices");
}

#[test]
fn unnamed_speakers_are_numbered_from_one() {
    let catalog = parse(SAMPLE).expect("catalog should parse");
    let voice = catalog.get("en_US-demo-medium").unwrap();
    assert_eq!(voice.speaker_label(0), "Alice");
    assert_eq!(voice.speaker_label(5), "Voice 6");
}

#[test]
fn model_files_come_model_first_and_skip_other_files() {
    let mut voice = simple_entry("x", "x", "English", "en_US", "low");
    let file = |size: u64| VoiceFile { size_bytes: size, md5_digest: String::from("00") };
    voice.files.insert(String::from("a/MODEL_CARD"), file(1));
    voice.files.insert(String::from("a/voice.onnx.json"), file(2));
    voice.files.insert(String::from("a/README.md"), file(3));
    voice.files.insert(String::from("a/voice.onnx"), file(4));
    let files = voice.model_files();
    let paths: Vec<&str> = files.iter().map(|(path, _)| *path).collect();
    assert_eq!(paths, vec!["a/voice.onnx", "a/voice.onnx.json", "a/MODEL_CARD"]);
    assert_eq!(files[0].1.size_bytes, 4);
    assert_eq!(voice.model_size_bytes(), 4);
}

#[test]
fn model_size_is_zero_without_a_model() {
    let voice = simple_entry("x", "x", "English", "en_US", "low");
    assert_eq!(voice.model_size_bytes(), 0);
}

#[test]
fn empty_catalog_is_refused() {
    let error = VoiceCatalog::from_entries(StrMap::new()).unwrap_err();
    assert_eq!(error, "The voice catalog is empty");
    assert!(parse("{}").is_err());
}

#[test]
fn malformed_catalog_reports_the_parse_error() {
    let error = parse("{not json").unwrap_err();
    assert!(error.starts_with("Could not parse the voice catalog: "));
}

#[test]
fn languages_are_sorted_and_listed_once() {
    let mut entries = StrMap::new();
    entries.insert(String::from("b"), simple_entry("b", "b", "German", "de_DE", "low"));
    entries.insert(String::from("a"), simple_entry("a", "a", "English", "en_US", "low"));
    entries.insert(String::from("c"), simple_entry("c", "c", "English", "en_GB", "low"));
    entries.insert(String::from("d"), simple_entry("d", "d", "Czech", "cs_CZ", "low"));
    let catalog = VoiceCatalog::from_entries(entries).unwrap();
    assert_eq!(catalog.len(), 4);
    assert_eq!(catalog.languages(), vec!["Czech", "English", "German"]);
    let keys: Vec<&str> = catalog.entries().iter().map(|e| e.key.as_str()).collect();
    assert_eq!(keys, vec!["a", "b", "c", "d"]);
}

#[test]
fn load_prefers_a_readable_cached_catalog() {
    let mut cached = StrMap::new();
    cached.insert(String::from("c"), simple_entry("c", "c", "Czech", "cs_CZ", "low"));
    let mut bundled = StrMap::new();
    bundled.insert(String::from("b"), simple_entry("b", "b", "German", "de_DE", "low"));
    let catalog = VoiceCatalog::load(Some(cached), Ok(bundled)).unwrap();
    assert!(catalog.get("c").is_some());
    assert!(catalog.get("b").is_none());
}

#[test]
fn load_falls_back_to_the_bundled_catalog() {
    let mut bundled = StrMap::new();
    bundled.insert(String::from("b"), simple_entry("b", "b", "German", "de_DE", "low"));
    let catalog = VoiceCatalog::load(Some(StrMap::new()), Ok(bundled)).unwrap();
    assert!(catalog.get("b").is_some());
    let error = VoiceCatalog::load(None, Err(String::from("bad bundle"))).unwrap_err();
    assert_eq!(error, "bad bundle");
}

#[test]
fn voice_directory_listing_is_classified() {
    let listing = vec![
        (String::from("notes.txt"), String::from("/v/notes.txt")),
        (String::from("x.onnx"), String::from("/v/x.onnx")),
        (String::from("x.onnx.json"), String::from("/v/x.onnx.json")),
        (String::from("MODEL_CARD"), String::from("/v/MODEL_CARD")),
    ];
    let files = classify_voice_files(&listing);
    assert_eq!(files.model_path.as_deref(), Some("/v/x.onnx"));
    assert_eq!(files.config_path.as_deref(), Some("/v/x.onnx.json"));
    assert_eq!(files.model_card_path.as_deref(), Some("/v/MODEL_CARD"));
}

#[test]
fn installed_voice_needs_model_and_configuration() {
    let catalog = parse(SAMPLE).unwrap();
    let missing_config = VoiceFiles {
        model_path: Some(String::from("/v/x.onnx")),
        config_path: None,
        model_card_path: None,
    };
    assert!(InstalledVoice::assemble(String::from("x"), missing_config, &catalog, None).is_none());
}

#[test]
fn installed_voice_takes_speakers_from_the_catalog_first() {
    let catalog = parse(SAMPLE).unwrap();
    let files = VoiceFiles {
        model_path: Some(String::from("/v/m.onnx")),
        config_path: Some(String::from("/v/m.onnx.json")),
        model_card_path: None,
    };
    let mut own = StrMap::new();
    own.insert(String::from("Zed"), 0u32);
    let local = LocalVoiceConfig { num_speakers: 7, speaker_id_map: own };
    let voice = InstalledVoice::assemble(
        String::from("en_US-demo-medium"),
        files,
        &catalog,
        Some(local),
    )
    .unwrap();
    assert_eq!(voice.num_speakers, 2);
    assert!(voice.speaker_id_map.contains_key("Bob"));
    assert!(!voice.speaker_id_map.contains_key("Zed"));
}

#[test]
fn installed_voice_without_catalog_entry_uses_its_own_config_or_one_speaker() {
    let catalog = parse(SAMPLE).unwrap();
    let files = || VoiceFiles {
        model_path: Some(String::from("/v/m.onnx")),
        config_path: Some(String::from("/v/m.onnx.json")),
        model_card_path: Some(String::from("/v/MODEL_CARD")),
    };
    let local = LocalVoiceConfig { num_speakers: 0, speaker_id_map: StrMap::new() };
    let voice = InstalledVoice::assemble(String::from("other"), files(), &catalog, Some(local)).unwrap();
    assert_eq!(voice.num_speakers, 1);
    assert_eq!(voice.model_card_path.as_deref(), Some("/v/MODEL_CARD"));
    let voice = InstalledVoice::assemble(String::from("other"), files(), &catalog, None).unwrap();
    assert_eq!(voice.num_speakers, 1);
    assert!(voice.speaker_id_map.is_empty());
}

#[test]
fn search_matches_names_languages_and_keys() {
    let catalog = parse(SAMPLE).unwrap();
    let voice = catalog.get("en_US-demo-medium").unwrap();
    assert!(voice.matches_search(""));
    assert!(voice.matches_search("demo voice"));
    assert!(voice.matches_search("english"));
    assert!(voice.matches_search("en_us-demo"));
    assert!(!voice.matches_search("german"));
}
