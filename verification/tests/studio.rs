use chess_voice_studio::catalog::{
    InstalledVoice, VoiceCatalog, VoiceEntry, VoiceLanguage, FEATURED_VOICE,
};
use chess_voice_studio::engine::{cache_key, EngineSpec, SettingsText};
use chess_voice_studio::strmap::StrMap;
use chess_voice_studio::studio::{
    filters_active, next_speaker, picker_label, previous_speaker, random_speaker,
    speaker_for_stamp, startup_warning, FollowUp, JobEvent, Playback, RenderTarget, Session,
};

fn pack(key: &str, name: &str, language: &str, quality: &str, speakers: u32) -> VoiceEntry {
    VoiceEntry {
        key: key.to_owned(),
        name: name.to_owned(),
        language: VoiceLanguage {
            code: String::from("xx_XX"),
            family: String::from("xx"),
            region: String::from("XX"),
            name_native: language.to_owned(),
            name_english: language.to_owned(),
            country_english: String::new(),
        },
        quality: quality.to_owned(),
        num_speakers: speakers,
        speaker_id_map: StrMap::new(),
        files: StrMap::new(),
        aliases: Vec::new(),
    }
}

fn installed(key: &str, speakers: u32) -> InstalledVoice {
    InstalledVoice {
        key: key.to_owned(),
        model_path: format!("/v/{key}/{key}.onnx"),
        config_path: format!("/v/{key}/{key}.onnx.json"),
        model_card_path: None,
        speaker_id_map: StrMap::new(),
        num_speakers: speakers,
    }
}

fn catalog() -> VoiceCatalog {
    let mut entries = StrMap::new();
    for entry in [
        pack("de_DE-thorsten-high", "thorsten", "German", "high", 1),
        pack("en_GB-alba-medium", "alba", "English", "medium", 1),
        pack("en_US-amy-low", "amy", "English", "low", 1),
        pack("en_US-amy-medium", "amy", "English", "medium", 1),
        pack(FEATURED_VOICE, "libritts_r", "English", "medium", 904),
        pack("cs_CZ-jirka-low", "jirka", "Czech", "low", 1),
    ] {
        entries.insert(entry.key.clone(), entry);
    }
    VoiceCatalog::from_entries(entries).unwrap()
}

fn settings() -> SettingsText {
    SettingsText {
        speed: String::from("1.0000"),
        sentence_silence: String::from("0.1800"),
        volume: String::from("1.0000"),
    }
}

fn engine() -> EngineSpec {
    EngineSpec::new(String::from("/usr/bin/piper"), Vec::new(), String::from("Piper from PATH"))
}

fn session(remembered: &str, voices: &[(&str, u32)], with_engine: bool) -> Session {
    let mut map = StrMap::new();
    for (key, speakers) in voices {
        map.insert((*key).to_owned(), installed(key, *speakers));
    }
    Session::start(
        catalog(),
        map,
        if with_engine { Some(engine()) } else { None },
        remembered.to_owned(),
        StrMap::new(),
    )
}

#[test]
fn start_keeps_a_remembered_catalog_voice() {
    let s = session("en_US-amy-low", &[("en_GB-alba-medium", 1)], true);
    assert_eq!(s.selected_voice, "en_US-amy-low");
    assert_eq!(s.status, "Ready — choose an installed voice and start writing");
    assert!(!s.busy);
}

#[test]
fn start_falls_back_to_the_first_installed_then_the_featured_pack() {
    let s = session("gone", &[("en_US-amy-low", 1), ("cs_CZ-jirka-low", 1)], false);
    assert_eq!(s.selected_voice, "cs_CZ-jirka-low");
    assert_eq!(s.status, "Install the local Piper engine, then install a voice pack");
    let s = session("gone", &[], false);
    assert_eq!(s.selected_voice, FEATURED_VOICE);
}

#[test]
fn only_one_job_runs_at_a_time() {
    let mut s = session("", &[], true);
    assert!(s.begin_job());
    assert!(!s.begin_job());
    assert_eq!(s.apply_event(JobEvent::Finished), FollowUp::Nothing);
    assert!(!s.busy);
    assert!(s.begin_job());
}

#[test]
fn job_events_update_the_status() {
    let mut s = session("", &[], true);
    assert_eq!(s.apply_event(JobEvent::Status(String::from("Working"))), FollowUp::Nothing);
    assert_eq!(s.status, "Working");
    assert_eq!(
        s.apply_event(JobEvent::VoiceInstalled(String::from(FEATURED_VOICE))),
        FollowUp::ReloadInstalled
    );
    assert_eq!(s.status, "904 English voices are ready offline");
    assert_eq!(s.selected_voice, FEATURED_VOICE);
    assert_eq!(
        s.apply_event(JobEvent::VoiceInstalled(String::from("en_US-amy-low"))),
        FollowUp::ReloadInstalled
    );
    assert_eq!(s.status, "Voice pack installed and ready offline");
    assert_eq!(s.apply_event(JobEvent::EngineInstalled), FollowUp::DetectEngine);
    assert_eq!(s.status, "Piper engine installed and ready offline");
    assert_eq!(s.apply_event(JobEvent::CatalogUpdated(catalog())), FollowUp::ReloadInstalled);
    assert_eq!(s.status, "Voice catalog updated — 6 packs available");
    s.apply_event(JobEvent::Exported(String::from("/tmp/a.mp3")));
    assert_eq!(s.status, "Saved /tmp/a.mp3");
    s.apply_event(JobEvent::Failed(String::from("Piper failed: boom")));
    assert_eq!(s.status, "Piper failed: boom");
}

#[test]
fn generated_audio_is_played_or_announced() {
    let mut s = session("", &[], true);
    let follow = s.apply_event(JobEvent::AudioReady { path: String::from("/c/a.wav"), autoplay: true });
    assert_eq!(follow, FollowUp::Play(String::from("/c/a.wav")));
    assert_eq!(s.last_audio.as_deref(), Some("/c/a.wav"));
    s.finish_playback(Playback::Generated, Ok(()));
    assert_eq!(s.status, "Generated and playing preview");
    let follow = s.apply_event(JobEvent::AudioReady { path: String::from("/c/b.wav"), autoplay: false });
    assert_eq!(follow, FollowUp::Nothing);
    assert_eq!(s.status, "Audio generated");
    s.finish_playback(Playback::Cached(String::from("/c/c.wav")), Ok(()));
    assert_eq!(s.last_audio.as_deref(), Some("/c/c.wav"));
    assert_eq!(s.status, "Playing cached preview");
    s.finish_playback(Playback::Replay, Err(String::from("No audio player was found")));
    assert_eq!(s.status, "No audio player was found");
}

#[test]
fn render_needs_an_engine_a_voice_and_text() {
    let mut s = session("en_US-amy-low", &[("en_US-amy-low", 1)], false);
    assert!(s.plan_render(RenderTarget::Preview, "Hello", &settings(), "/c").is_none());
    assert_eq!(s.status, "Install the Piper engine first");
    assert!(s.show_setup);

    let mut s = session("en_US-amy-medium", &[("en_US-amy-low", 1)], true);
    assert!(s.plan_render(RenderTarget::Preview, "Hello", &settings(), "/c").is_none());
    assert_eq!(s.status, "Install the selected voice pack first");

    let mut s = session("en_US-amy-low", &[("en_US-amy-low", 1)], true);
    assert!(s.plan_render(RenderTarget::Preview, "  \n", &settings(), "/c").is_none());
    assert_eq!(s.status, "Enter some text before generating audio");
    assert!(!s.can_render(" "));
    assert!(s.can_render("e4"));
}

#[test]
fn render_job_uses_the_remembered_speaker_and_the_cache() {
    let mut s = session(FEATURED_VOICE, &[(FEATURED_VOICE, 904)], true);
    s.remember_speaker(String::from(FEATURED_VOICE), 2000);
    assert_eq!(s.selected_speaker_id(FEATURED_VOICE, 904), 903);
    s.remember_speaker(String::from(FEATURED_VOICE), 17);
    let job = s
        .plan_render(RenderTarget::Wav(String::from("/tmp/x.wav")), " Knight to f three ", &settings(), "/c/previews")
        .unwrap();
    assert_eq!(job.speaker_id, 17);
    assert_eq!(job.text, "Knight to f three");
    let key = cache_key(FEATURED_VOICE, 17, "Knight to f three", &settings());
    assert_eq!(job.cache_key, key);
    assert_eq!(job.cached_wav, format!("/c/previews/{key}.wav"));
    assert_eq!(job.engine.program(), "/usr/bin/piper");
}

#[test]
fn ready_voices_count_every_speaker() {
    let s = session("", &[(FEATURED_VOICE, 904), ("en_US-amy-low", 1), ("x", 3)], true);
    assert_eq!(s.ready_voice_count(), 908);
}

#[test]
fn install_request_needs_a_catalog_voice() {
    let mut s = session("en_US-amy-low", &[], true);
    let (key, plan) = s.plan_selected_install("/data/voices").unwrap();
    assert_eq!(key, "en_US-amy-low");
    assert_eq!(plan.target_dir, "/data/voices/en_US-amy-low");
    s.select_voice(String::from("nowhere"));
    assert!(s.plan_selected_install("/data/voices").is_none());
    assert_eq!(s.status, "Select a catalog voice first");
}

#[test]
fn library_lists_featured_then_installed_then_by_language_name_quality() {
    let s = session("", &[("en_US-amy-medium", 1)], true);
    let keys: Vec<String> = s.catalog.entries().iter().map(|e| e.key.clone()).collect();
    let order = s.visible_order("", false, "");
    let shown: Vec<&str> = order.iter().map(|&i| keys[i].as_str()).collect();
    assert_eq!(
        shown,
        vec![
            FEATURED_VOICE,
            "en_US-amy-medium",
            "cs_CZ-jirka-low",
            "en_GB-alba-medium",
            "en_US-amy-low",
            "de_DE-thorsten-high",
        ]
    );
}

#[test]
fn library_filters_by_language_installed_and_search() {
    let s = session("", &[("en_US-amy-medium", 1)], true);
    let keys: Vec<String> = s.catalog.entries().iter().map(|e| e.key.clone()).collect();
    let names = |order: Vec<usize>| -> Vec<String> { order.iter().map(|&i| keys[i].clone()).collect() };
    assert_eq!(names(s.visible_order("German", false, "")), vec!["de_DE-thorsten-high"]);
    assert_eq!(names(s.visible_order("", true, "")), vec!["en_US-amy-medium"]);
    assert_eq!(
        names(s.visible_order("English", false, "amy")),
        vec!["en_US-amy-medium", "en_US-amy-low"]
    );
    assert!(s.visible_order("Czech", true, "").is_empty());
}

#[test]
fn speaker_picker_labels() {
    let featured = pack(FEATURED_VOICE, "libritts_r", "English", "medium", 904);
    assert_eq!(picker_label(&featured, 0), "Voice 001");
    assert_eq!(picker_label(&featured, 903), "Voice 904");
    let mut other = pack("en_US-demo-medium", "demo", "English", "medium", 2);
    other.speaker_id_map.insert(String::from("Bob"), 1);
    assert_eq!(picker_label(&other, 1), "Bob");
    assert_eq!(picker_label(&other, 0), "Voice 1");
}

#[test]
fn speaker_steps_stay_in_range() {
    assert_eq!(previous_speaker(0), 0);
    assert_eq!(previous_speaker(5), 4);
    assert_eq!(next_speaker(5, 904), 6);
    assert_eq!(next_speaker(903, 904), 903);
    assert_eq!(next_speaker(0, 1), 0);
}

#[test]
fn random_speakers_come_from_the_clock() {
    assert_eq!(speaker_for_stamp(904, 1_000_000_007), (1_000_000_007u128 % 904) as u32);
    assert_eq!(speaker_for_stamp(1, 99), 0);
    assert_eq!(speaker_for_stamp(0, 99), 0);
    assert!(random_speaker(904) < 904);
    assert_eq!(random_speaker(1), 0);
}

#[test]
fn filters_are_active_away_from_the_defaults() {
    assert!(!filters_active("  ", "English", false));
    assert!(filters_active("amy", "English", false));
    assert!(filters_active("", "", false));
    assert!(filters_active("", "English", true));
}

#[test]
fn startup_problems_are_listed_one_per_line() {
    assert_eq!(startup_warning(&Vec::new()), None);
    let problems = vec![String::from("Could not create /a"), String::from("bad catalog")];
    assert_eq!(startup_warning(&problems).as_deref(), Some("Could not create /a\nbad catalog"));
}

#[test]
fn a_running_job_leaves_the_state_alone() {
    let mut s = session("en_US-amy-low", &[], true);
    assert!(s.begin_job());
    let status = s.status.clone();
    assert!(!s.begin_job());
    assert!(s.busy);
    assert_eq!(s.status, status);
    assert!(s.engine.is_some());
    assert!(!s.show_setup);
}

#[test]
fn refused_renders_open_setup_only_without_an_engine() {
    let mut s = session("en_US-amy-medium", &[("en_US-amy-low", 1)], true);
    assert!(s.plan_render(RenderTarget::Preview, "Hello", &settings(), "/c").is_none());
    assert!(!s.show_setup);
    s.apply_event(JobEvent::AudioReady { path: String::from("/c/a.wav"), autoplay: false });
    s.remember_speaker(String::from("en_US-amy-low"), 0);
    assert_eq!(s.last_audio.as_deref(), Some("/c/a.wav"));
    assert!(!s.show_setup);
}
