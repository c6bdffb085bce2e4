use chess_voice_studio::catalog::InstalledVoice;
use chess_voice_studio::engine::{
    cache_key, check_generated_audio, check_synthesis_request, choose_player, download_failure,
    export_staging, mp3_encode_args, pip_install_args, require_success, staging_name,
    synthesis_args, unique_stamp, venv_args, EngineSpec, SettingsText,
};
use chess_voice_studio::engine::{mp3_export_staging, wav_export_staging};
use chess_voice_studio::paths::AppPaths;
use chess_voice_studio::strmap::StrMap;

fn default_settings() -> SettingsText {
    SettingsText {
        speed: format!("{:.4}", 1.0f32),
        sentence_silence: format!("{:.4}", 0.18f32),
        volume: format!("{:.4}", 1.0f32),
    }
}

fn voice(num_speakers: u32) -> InstalledVoice {
    InstalledVoice {
        key: String::from("en_US-demo-medium"),
        model_path: String::from("/v/demo.onnx"),
        config_path: String::from("/v/demo.onnx.json"),
        model_card_path: None,
        speaker_id_map: StrMap::new(),
        num_speakers,
    }
}

#[test]
fn cache_key_changes_with_voice_and_settings() {
    let settings = default_settings();
    let first = cache_key("voice-a", 0, "Knight to f three", &settings);
    let second = cache_key("voice-a", 1, "Knight to f three", &settings);
    let third = cache_key("voice-b", 0, "Knight to f three", &settings);
    assert_ne!(first, second);
    assert_ne!(first, third);
    assert_eq!(first, cache_key("voice-a", 0, "Knight to f three", &settings));
}

#[test]
fn cache_key_is_the_digest_of_the_description() {
    let settings = default_settings();
    let key = cache_key("voice-a", 0, "Knight to f three", &settings);
    let description = "v1\0voice-a\00\01.0000\00.1800\01.0000\0Knight to f three";
    assert_eq!(key, format!("{:x}", md5::compute(description.as_bytes())));
    assert_eq!(key.len(), 32);
    let mut slower = default_settings();
    slower.speed = format!("{:.4}", 1.2f32);
    assert_ne!(key, cache_key("voice-a", 0, "Knight to f three", &slower));
}

#[test]
fn synthesis_request_trims_the_text() {
    let result = check_synthesis_request(&voice(2), 1, "  Knight to f three.\n");
    assert_eq!(result.unwrap(), "Knight to f three.");
}

#[test]
fn synthesis_request_refuses_blank_text() {
    assert_eq!(
        check_synthesis_request(&voice(2), 0, " \t\n").unwrap_err(),
        "Enter some text before generating audio"
    );
}

#[test]
fn synthesis_request_refuses_long_text() {
    let text = "a".repeat(80_001);
    assert_eq!(
        check_synthesis_request(&voice(2), 0, &text).unwrap_err(),
        "The text is too long for one render (maximum 80000 UTF-8 bytes)"
    );
    assert!(check_synthesis_request(&voice(2), 0, &"a".repeat(80_000)).is_ok());
}

#[test]
fn synthesis_request_refuses_a_missing_speaker() {
    assert_eq!(
        check_synthesis_request(&voice(2), 2, "Check").unwrap_err(),
        "Voice 3 is outside this model's range of 1–2"
    );
}

#[test]
fn synthesis_arguments_follow_the_engine_order() {
    let args = synthesis_args(&voice(2), "/c/out.wav", 1, "0.8000", "0.1800", "1.0000", "-e4");
    assert_eq!(
        args,
        vec![
            "--model", "/v/demo.onnx", "--config", "/v/demo.onnx.json", "--output-file",
            "/c/out.wav", "--speaker", "1", "--length-scale", "0.8000", "--sentence-silence",
            "0.1800", "--volume", "1.0000", "--", "-e4",
        ]
    );
}

#[test]
fn failed_programs_explain_themselves() {
    assert!(require_success(true, "noise", "", "Piper").is_ok());
    assert_eq!(
        require_success(false, "  boom \n", "out", "Piper").unwrap_err(),
        "Piper failed: boom"
    );
    assert_eq!(
        require_success(false, "   ", " only stdout ", "FFmpeg").unwrap_err(),
        "FFmpeg failed: only stdout"
    );
    assert_eq!(
        require_success(false, "", "", "pip").unwrap_err(),
        "pip failed: the process exited without an error message"
    );
    assert_eq!(download_failure(" 404 \n"), "Download failed: 404");
}

#[test]
fn engine_prefers_the_managed_environment() {
    let paths = AppPaths::from_data_dir(String::from("/home/user/audio"));
    let managed = EngineSpec::detect(&paths, true, Some(String::from("/usr/bin/piper")), None).unwrap();
    assert_eq!(managed.program(), "/home/user/audio/engine/bin/python");
    assert_eq!(managed.prefix_args(), &vec![String::from("-m"), String::from("piper")]);
    assert_eq!(managed.label, "Managed Piper engine");

    let on_path = EngineSpec::detect(&paths, false, Some(String::from("/usr/bin/piper")), Some(String::from("/usr/bin/python3"))).unwrap();
    assert_eq!(on_path.program(), "/usr/bin/piper");
    assert!(on_path.prefix_args().is_empty());
    assert_eq!(on_path.label, "Piper from PATH");

    let module = EngineSpec::detect(&paths, false, None, Some(String::from("/usr/bin/python3"))).unwrap();
    assert_eq!(module.program(), "/usr/bin/python3");
    assert_eq!(module.label, "Piper Python module");

    assert!(EngineSpec::detect(&paths, false, None, None).is_none());
}

#[test]
fn exports_are_staged_under_a_hidden_name() {
    assert_eq!(staging_name(Some("game.mp3"), "export", 42), ".game.mp3.42.partial");
    assert_eq!(staging_name(None, "export", 7), ".export.7.partial");
}

#[test]
fn player_choice_prefers_ffplay() {
    let (program, args) = choose_player(true, true, true).unwrap();
    assert_eq!(program, "ffplay");
    assert_eq!(args, vec!["-nodisp", "-autoexit", "-loglevel", "error"]);
    let (program, args) = choose_player(false, true, true).unwrap();
    assert_eq!(program, "paplay");
    assert!(args.is_empty());
    assert_eq!(choose_player(false, false, true).unwrap().0, "aplay");
    assert_eq!(
        choose_player(false, false, false).unwrap_err(),
        "No audio player was found (install ffplay, paplay, or aplay)"
    );
}

#[test]
fn exports_are_staged_beside_the_destination() {
    let (parent, partial) =
        export_staging("/tmp/out/game.mp3", "chess-voice.mp3", "no parent").unwrap();
    assert_eq!(parent, "/tmp/out");
    assert!(partial.starts_with("/tmp/out/.game.mp3."));
    assert!(partial.ends_with(".partial"));
    let stamp = &partial["/tmp/out/.game.mp3.".len()..partial.len() - ".partial".len()];
    assert!(stamp.parse::<u128>().is_ok());

    let (parent, partial) = export_staging("music/..", "chess-voice.wav", "no parent").unwrap();
    assert_eq!(parent, "music");
    assert!(partial.starts_with("music/.chess-voice.wav."));

    assert_eq!(export_staging("/", "chess-voice.wav", "no parent").unwrap_err(), "no parent");
}

#[test]
fn clock_stamps_are_after_the_epoch() {
    assert!(unique_stamp() > 0);
}

#[test]
fn mp3_encoding_arguments() {
    assert_eq!(
        mp3_encode_args("/c/a.wav", "/o/.x.mp3.1.partial"),
        vec![
            "-nostdin", "-hide_banner", "-loglevel", "error", "-i", "/c/a.wav", "-map_metadata",
            "-1", "-codec:a", "libmp3lame", "-b:a", "192k", "-f", "mp3", "/o/.x.mp3.1.partial",
        ]
    );
}

#[test]
fn generated_audio_must_be_more_than_a_header() {
    assert_eq!(check_generated_audio(43).unwrap_err(), "Piper produced an empty audio file");
    assert!(check_generated_audio(44).is_ok());
}

#[test]
fn engine_setup_arguments() {
    assert_eq!(venv_args("/a/engine"), vec!["-m", "venv", "/a/engine"]);
    assert_eq!(
        pip_install_args(),
        vec!["-m", "pip", "install", "--upgrade", "piper-tts>=1.6,<2"]
    );
}

#[test]
fn wav_and_mp3_exports_name_their_own_fallbacks() {
    let (_, partial) = wav_export_staging("music/..").unwrap();
    assert!(partial.starts_with("music/.chess-voice.wav."));
    let (_, partial) = mp3_export_staging("music/..").unwrap();
    assert!(partial.starts_with("music/.chess-voice.mp3."));
    assert_eq!(wav_export_staging("/").unwrap_err(), "The destination has no parent directory");
    assert_eq!(mp3_export_staging("/").unwrap_err(), "The MP3 destination has no parent directory");
}
