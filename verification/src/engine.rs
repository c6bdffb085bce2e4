//! The speech engine: finding Piper, checking a synthesis request, naming cached audio, and
//! reading the outcome of the programs it runs.

use vstd::prelude::*;

use crate::catalog::InstalledVoice;
use crate::digest::{md5_digest, md5_hex};
use crate::paths::{file_name_of, join, join_path, parent_of, path_file_name, path_parent, AppPaths};
use crate::text::{decimal, hex_lower, push_decimal, push_str, trim, trim_str};

verus! {

/// The longest text, in UTF-8 bytes, that one synthesis accepts.
pub const MAX_TEXT_BYTES: usize = 80000;

/// How to start the Piper engine: a program, the arguments that come first, and a label.
#[derive(Clone, Debug)]
pub struct EngineSpec {
    program: String,
    prefix_args: Vec<String>,
    pub label: String,
}

/// The synthesis settings as the cache key records them: each number written with four
/// decimals (`format!("{:.4}", value)`).
#[derive(Clone, Debug)]
pub struct SettingsText {
    pub speed: String,
    pub sentence_silence: String,
    pub volume: String,
}

/// The arguments that run Piper as a Python module.
pub open spec fn module_args() -> Seq<Seq<char>> {
    seq!["-m"@, "piper"@]
}

/// The contents of a list of strings.
pub open spec fn views(v: Seq<String>) -> Seq<Seq<char>> {
    Seq::new(v.len(), |i: int| v[i]@)
}

fn module_arg_list() -> (r: Vec<String>)
    ensures
        views(r@) == module_args(),
{
    let mut r: Vec<String> = Vec::new();
    r.push(String::from_str("-m"));
    r.push(String::from_str("piper"));
    assert(views(r@) =~= module_args());
    r
}

impl EngineSpec {
    /// The engine's label.
    pub closed spec fn spec_label(&self) -> Seq<char> {
        self.label@
    }

    /// The program to run.
    pub closed spec fn spec_program(&self) -> Seq<char> {
        self.program@
    }

    /// The arguments that precede the synthesis arguments.
    pub closed spec fn spec_prefix_args(&self) -> Seq<Seq<char>> {
        views(self.prefix_args@)
    }

    /// The program to run.
    pub fn program(&self) -> (r: &String)
        ensures
            r@ == self.spec_program(),
    {
        &self.program
    }

    /// The arguments that precede the synthesis arguments.
    pub fn prefix_args(&self) -> (r: &Vec<String>)
        ensures
            views(r@) == self.spec_prefix_args(),
    {
        &self.prefix_args
    }

    /// A copy of the engine description.
    pub fn duplicate(&self) -> (e: Self)
        ensures
            e.spec_program() == self.spec_program(),
            e.spec_prefix_args() == self.spec_prefix_args(),
            e.spec_label() == self.spec_label(),
    {
        let prefix_args = self.prefix_args.clone();
        assert(views(prefix_args@) =~= views(self.prefix_args@));
        EngineSpec { program: self.program.clone(), prefix_args, label: self.label.clone() }
    }

    /// An engine run as `program prefix_args...`.
    pub fn new(program: String, prefix_args: Vec<String>, label: String) -> (e: Self)
        ensures
            e.spec_program() == program@,
            e.spec_prefix_args() == views(prefix_args@),
            e.spec_label() == label@,
    {
        EngineSpec { program, prefix_args, label }
    }

    /// Chooses the engine: the managed environment when its Python can load Piper
    /// (`managed_ready`), else a `piper` program found on the search path, else a `python3`
    /// on the search path that can load Piper (`python_with_piper`); none otherwise.
    pub fn detect(
        paths: &AppPaths,
        managed_ready: bool,
        piper_on_path: Option<String>,
        python_with_piper: Option<String>,
    ) -> (r: Option<Self>)
        ensures
            managed_ready ==> (r matches Some(e) && e.spec_program() == join_path(
                paths.engine_dir@,
                "bin/python"@,
            ) && e.spec_prefix_args() == module_args() && e.spec_label() == "Managed Piper engine"@),
            !managed_ready && piper_on_path is Some ==> (r matches Some(e) && e.spec_program()
                == piper_on_path->0@ && e.spec_prefix_args().len() == 0 && e.spec_label()
                == "Piper from PATH"@),
            !managed_ready && piper_on_path is None && python_with_piper is Some ==> (r matches Some(
                e,
            ) && e.spec_program() == python_with_piper->0@ && e.spec_prefix_args() == module_args()
                && e.spec_label() == "Piper Python module"@),
            !managed_ready && piper_on_path is None && python_with_piper is None ==> r is None,
    {
        if managed_ready {
            return Some(
                EngineSpec {
                    program: paths.managed_python(),
                    prefix_args: module_arg_list(),
                    label: String::from_str("Managed Piper engine"),
                },
            );
        }
        if let Some(piper) = piper_on_path {
            let e = EngineSpec {
                program: piper,
                prefix_args: Vec::new(),
                label: String::from_str("Piper from PATH"),
            };
            assert(views(e.prefix_args@) =~= Seq::<Seq<char>>::empty());
            return Some(e);
        }
        match python_with_piper {
            Some(python) => Some(
                EngineSpec {
                    program: python,
                    prefix_args: module_arg_list(),
                    label: String::from_str("Piper Python module"),
                },
            ),
            None => None,
        }
    }
}

// ---------------------------------------------------------------- running programs

/// The error message for a program that failed: its trimmed error output, else its trimmed
/// standard output, else a fixed sentence.
pub open spec fn failure_details(stderr: Seq<char>, stdout: Seq<char>) -> Seq<char> {
    if trim(stderr).len() > 0 {
        trim(stderr)
    } else if trim(stdout).len() > 0 {
        trim(stdout)
    } else {
        "the process exited without an error message"@
    }
}

/// The outcome of a program run for `action`: success, or `"{action} failed: {details}"`.
/// `stderr` and `stdout` are the program's outputs decoded as text.
pub fn require_success(success: bool, stderr: &str, stdout: &str, action: &str) -> (r: Result<
    (),
    String,
>)
    ensures
        r is Ok <==> success,
        r matches Err(e) ==> e@ == action@ + " failed: "@ + failure_details(stderr@, stdout@),
{
    if success {
        return Ok(());
    }
    let err = trim_str(stderr);
    let out = trim_str(stdout);
    let mut e = String::from_str(action);
    push_str(&mut e, " failed: ");
    if err.as_str().as_bytes().len() > 0 {
        push_str(&mut e, err.as_str());
    } else if out.as_str().as_bytes().len() > 0 {
        push_str(&mut e, out.as_str());
    } else {
        push_str(&mut e, "the process exited without an error message");
    }
    proof {
        vstd::utf8::encode_utf8_decode_utf8(err@);
        vstd::utf8::encode_utf8_decode_utf8(out@);
        if err@.len() > 0 {
            lemma_nonempty_encoding(err@);
        }
        if out@.len() > 0 {
            lemma_nonempty_encoding(out@);
        }
    }
    Err(e)
}

proof fn lemma_nonempty_encoding(s: Seq<char>)
    requires
        s.len() > 0,
    ensures
        vstd::utf8::encode_utf8(s).len() > 0,
{
    vstd::utf8::encode_utf8_first_scalar(s);
}

/// The error message of a failed download: its trimmed error output.
pub fn download_failure(stderr: &str) -> (r: String)
    ensures
        r@ == "Download failed: "@ + trim(stderr@),
{
    let mut r = String::from_str("Download failed: ");
    let t = trim_str(stderr);
    push_str(&mut r, t.as_str());
    r
}

// ---------------------------------------------------------------- synthesis requests

/// What a synthesis request comes to: the trimmed text to speak, or why it is refused.
pub open spec fn spec_synthesis_text(num_speakers: u32, speaker_id: u32, text: Seq<char>) -> Result<
    Seq<char>,
    Seq<char>,
> {
    let t = trim(text);
    if t.len() == 0 {
        Err("Enter some text before generating audio"@)
    } else if vstd::utf8::encode_utf8(t).len() > MAX_TEXT_BYTES {
        Err("The text is too long for one render (maximum "@ + decimal(MAX_TEXT_BYTES as nat)
            + " UTF-8 bytes)"@)
    } else if speaker_id >= num_speakers {
        Err("Voice "@ + decimal(speaker_id as nat + 1) + " is outside this model's range of 1–"@
            + decimal(num_speakers as nat))
    } else {
        Ok(t)
    }
}

/// Checks a synthesis request for `voice`: the text without surrounding white space must be
/// non-empty and fit in one render, and the speaker must be one of the voice's.
pub fn check_synthesis_request(voice: &InstalledVoice, speaker_id: u32, text: &str) -> (r: Result<
    String,
    String,
>)
    requires
        speaker_id == u32::MAX ==> (trim(text@).len() == 0 || vstd::utf8::encode_utf8(
            trim(text@),
        ).len() > MAX_TEXT_BYTES),
    ensures
        match spec_synthesis_text(voice.num_speakers, speaker_id, text@) {
            Ok(t) => r matches Ok(s) && s@ == t,
            Err(m) => r matches Err(e) && e@ == m,
        },
{
    let t = trim_str(text);
    proof {
        vstd::utf8::encode_utf8_decode_utf8(t@);
        if t@.len() > 0 {
            lemma_nonempty_encoding(t@);
        }
    }
    if t.as_str().as_bytes().len() == 0 {
        return Err(String::from_str("Enter some text before generating audio"));
    }
    if t.as_str().as_bytes().len() > MAX_TEXT_BYTES {
        let mut e = String::from_str("The text is too long for one render (maximum ");
        push_decimal(&mut e, MAX_TEXT_BYTES as u128);
        push_str(&mut e, " UTF-8 bytes)");
        return Err(e);
    }
    if speaker_id >= voice.num_speakers {
        let mut e = String::from_str("Voice ");
        push_decimal(&mut e, speaker_id as u128 + 1);
        push_str(&mut e, " is outside this model's range of 1–");
        push_decimal(&mut e, voice.num_speakers as u128);
        return Err(e);
    }
    Ok(t)
}

/// The arguments that follow the engine's own for one synthesis: model, configuration,
/// output, speaker, then the three rendered settings, then the text after `--`.
pub open spec fn spec_synthesis_args(
    voice: InstalledVoice,
    output: Seq<char>,
    speaker_id: u32,
    length_scale: Seq<char>,
    sentence_silence: Seq<char>,
    volume: Seq<char>,
    text: Seq<char>,
) -> Seq<Seq<char>> {
    seq![
        "--model"@,
        voice.model_path@,
        "--config"@,
        voice.config_path@,
        "--output-file"@,
        output,
        "--speaker"@,
        decimal(speaker_id as nat),
        "--length-scale"@,
        length_scale,
        "--sentence-silence"@,
        sentence_silence,
        "--volume"@,
        volume,
        "--"@,
        text,
    ]
}

/// The synthesis arguments for `voice` writing to `output`; the settings come already
/// rendered as text.
pub fn synthesis_args(
    voice: &InstalledVoice,
    output: &str,
    speaker_id: u32,
    length_scale: &str,
    sentence_silence: &str,
    volume: &str,
    text: &str,
) -> (r: Vec<String>)
    ensures
        views(r@) == spec_synthesis_args(
            *voice,
            output@,
            speaker_id,
            length_scale@,
            sentence_silence@,
            volume@,
            text@,
        ),
{
    let mut r: Vec<String> = Vec::new();
    r.push(String::from_str("--model"));
    r.push(voice.model_path.clone());
    r.push(String::from_str("--config"));
    r.push(voice.config_path.clone());
    r.push(String::from_str("--output-file"));
    r.push(String::from_str(output));
    r.push(String::from_str("--speaker"));
    let mut id = String::new();
    push_decimal(&mut id, speaker_id as u128);
    r.push(id);
    r.push(String::from_str("--length-scale"));
    r.push(String::from_str(length_scale));
    r.push(String::from_str("--sentence-silence"));
    r.push(String::from_str(sentence_silence));
    r.push(String::from_str("--volume"));
    r.push(String::from_str(volume));
    r.push(String::from_str("--"));
    r.push(String::from_str(text));
    assert(views(r@) =~= spec_synthesis_args(
        *voice,
        output@,
        speaker_id,
        length_scale@,
        sentence_silence@,
        volume@,
        text@,
    ));
    r
}

// ---------------------------------------------------------------- cache keys

/// The text whose digest names a cached rendering.
pub open spec fn cache_input(
    voice_key: Seq<char>,
    speaker_id: u32,
    text: Seq<char>,
    settings: SettingsText,
) -> Seq<char> {
    "v1"@ + seq!['\0'] + voice_key + seq!['\0'] + decimal(speaker_id as nat) + seq!['\0']
        + settings.speed@ + seq!['\0'] + settings.sentence_silence@ + seq!['\0']
        + settings.volume@ + seq!['\0'] + text
}

/// The cache key of a rendering: the MD5 digest of its description in lower-case hexadecimal.
pub open spec fn spec_cache_key(
    voice_key: Seq<char>,
    speaker_id: u32,
    text: Seq<char>,
    settings: SettingsText,
) -> Seq<char> {
    hex_lower(md5_digest(vstd::utf8::encode_utf8(cache_input(voice_key, speaker_id, text, settings))))
}

/// The name under which the rendering of `text` by speaker `speaker_id` of voice `voice_key`
/// with the given settings is cached.
pub fn cache_key(voice_key: &str, speaker_id: u32, text: &str, settings: &SettingsText) -> (r:
    String)
    ensures
        r@ == spec_cache_key(voice_key@, speaker_id, text@, *settings),
        r@.len() == 32,
{
    let mut input = String::from_str("v1");
    push_str(&mut input, "\0");
    push_str(&mut input, voice_key);
    push_str(&mut input, "\0");
    push_decimal(&mut input, speaker_id as u128);
    push_str(&mut input, "\0");
    push_str(&mut input, settings.speed.as_str());
    push_str(&mut input, "\0");
    push_str(&mut input, settings.sentence_silence.as_str());
    push_str(&mut input, "\0");
    push_str(&mut input, settings.volume.as_str());
    push_str(&mut input, "\0");
    push_str(&mut input, text);
    proof {
        reveal_strlit("\0");
        assert(input@ =~= cache_input(voice_key@, speaker_id, text@, *settings));
    }
    md5_hex(input.as_str().as_bytes())
}

// ---------------------------------------------------------------- staging files and players

/// The hidden temporary name, beside the destination, that an export is written to first:
/// `.{name}.{stamp}.partial`, with `fallback` when the destination has no usable file name.
pub open spec fn spec_staging_name(name: Option<Seq<char>>, fallback: Seq<char>, stamp: u128) -> Seq<
    char,
> {
    "."@ + (match name {
        Some(n) => n,
        None => fallback,
    }) + "."@ + decimal(stamp as nat) + ".partial"@
}

/// The contents of an optional string slice.
pub open spec fn opt_str_view(name: Option<&str>) -> Option<Seq<char>> {
    match name {
        Some(n) => Some(n@),
        None => None,
    }
}

/// The temporary name for an export whose destination file is named `name`.
pub fn staging_name(name: Option<&str>, fallback: &str, stamp: u128) -> (r: String)
    ensures
        r@ == spec_staging_name(
            opt_str_view(name),
            fallback@,
            stamp,
        ),
{
    let mut r = String::from_str(".");
    match name {
        Some(n) => push_str(&mut r, n),
        None => push_str(&mut r, fallback),
    }
    push_str(&mut r, ".");
    push_decimal(&mut r, stamp);
    push_str(&mut r, ".partial");
    r
}

#[verifier::external_type_specification]
#[verifier::external_body]
pub struct ExSystemTime(std::time::SystemTime);

#[verifier::external_type_specification]
#[verifier::external_body]
pub struct ExSystemTimeError(std::time::SystemTimeError);

/// std's `SystemTime::now`: the current time by the system clock. Nothing is promised of it.
#[verifier::external_body]
fn system_now() -> (t: std::time::SystemTime) {
    std::time::SystemTime::now()
}

/// std's `SystemTime::duration_since`, measured from the Unix epoch: the time elapsed since
/// then, or an error when `t` lies before it. Nothing is promised of either.
#[verifier::external_body]
fn since_unix_epoch(t: &std::time::SystemTime) -> (r: Result<std::time::Duration, std::time::SystemTimeError>) {
    t.duration_since(std::time::UNIX_EPOCH)
}

/// The longest span a std `Duration` holds, in nanoseconds: `u64::MAX` whole seconds and
/// 999 999 999 nanoseconds (`Duration::MAX`).
pub const MAX_DURATION_NANOS: u128 = 18446744073709551615999999999;

/// std's `Duration::as_nanos`: the total nanoseconds of `d`, which is at most those of
/// `Duration::MAX` (a `Duration` is whole seconds in a `u64` and fewer than a billion
/// nanoseconds). Which value within that range is not stated: `d` is opaque here.
#[verifier::external_body]
fn duration_nanos(d: &std::time::Duration) -> (n: u128)
    ensures
        n <= MAX_DURATION_NANOS,
{
    d.as_nanos()
}

/// A stamp from the clock that makes temporary names unique: the nanoseconds elapsed since
/// the Unix epoch, or zero when the clock is set before it. Either way it is at most the
/// nanoseconds of the longest `Duration`; which value comes out depends on the clock.
pub fn unique_stamp() -> (n: u128)
    ensures
        n <= MAX_DURATION_NANOS,
{
    let now = system_now();
    match since_unix_epoch(&now) {
        Ok(elapsed) => duration_nanos(&elapsed),
        Err(_) => 0,
    }
}

/// The temporary name for an export, stamped with the current time.
pub fn staging_name_now(name: Option<&str>, fallback: &str) -> (r: String)
    ensures
        exists|stamp: u128|
            r@ == #[trigger] spec_staging_name(
                opt_str_view(name),
                fallback@,
                stamp,
            ),
{
    let stamp = unique_stamp();
    staging_name(name, fallback, stamp)
}

/// Where an export to `destination` is staged: the destination's parent directory, and in it
/// the hidden temporary file named after the destination (`fallback` when it has no name)
/// and a clock stamp; `missing_parent` when the destination has no parent directory.
pub fn export_staging(destination: &str, fallback: &str, missing_parent: &str) -> (r: Result<
    (String, String),
    String,
>)
    ensures
        match path_parent(destination@) {
            None => r matches Err(e) && e@ == missing_parent@,
            Some(dir) => r matches Ok((d, partial)) && d@ == dir && exists|stamp: u128|
                partial@ == join_path(
                    dir,
                    #[trigger] spec_staging_name(path_file_name(destination@), fallback@, stamp),
                ),
        },
{
    let dir = match parent_of(destination) {
        Some(d) => d,
        None => return Err(String::from_str(missing_parent)),
    };
    let name = file_name_of(destination);
    let staged = match &name {
        Some(n) => staging_name_now(Some(n.as_str()), fallback),
        None => staging_name_now(None, fallback),
    };
    let partial = join(dir.as_str(), staged.as_str());
    Ok((dir, partial))
}

/// Where a WAV export to `destination` is staged: as `export_staging` with the name
/// `chess-voice.wav` for a destination without one, and the matching error.
pub fn wav_export_staging(destination: &str) -> (r: Result<(String, String), String>)
    ensures
        match path_parent(destination@) {
            None => r matches Err(e) && e@ == "The destination has no parent directory"@,
            Some(dir) => r matches Ok((d, partial)) && d@ == dir && exists|stamp: u128|
                partial@ == join_path(
                    dir,
                    #[trigger] spec_staging_name(path_file_name(destination@), "chess-voice.wav"@, stamp),
                ),
        },
{
    export_staging(destination, "chess-voice.wav", "The destination has no parent directory")
}

/// Where an MP3 export to `destination` is staged: as `export_staging` with the name
/// `chess-voice.mp3` for a destination without one, and the matching error.
pub fn mp3_export_staging(destination: &str) -> (r: Result<(String, String), String>)
    ensures
        match path_parent(destination@) {
            None => r matches Err(e) && e@ == "The MP3 destination has no parent directory"@,
            Some(dir) => r matches Ok((d, partial)) && d@ == dir && exists|stamp: u128|
                partial@ == join_path(
                    dir,
                    #[trigger] spec_staging_name(path_file_name(destination@), "chess-voice.mp3"@, stamp),
                ),
        },
{
    export_staging(destination, "chess-voice.mp3", "The MP3 destination has no parent directory")
}

/// The FFmpeg arguments that encode the WAV file `source` as a 192 kbit/s MP3 at `output`,
/// without metadata.
pub open spec fn spec_mp3_args(source: Seq<char>, output: Seq<char>) -> Seq<Seq<char>> {
    seq![
        "-nostdin"@,
        "-hide_banner"@,
        "-loglevel"@,
        "error"@,
        "-i"@,
        source,
        "-map_metadata"@,
        "-1"@,
        "-codec:a"@,
        "libmp3lame"@,
        "-b:a"@,
        "192k"@,
        "-f"@,
        "mp3"@,
        output,
    ]
}

/// The FFmpeg arguments for encoding `source` as MP3 into `output`.
pub fn mp3_encode_args(source: &str, output: &str) -> (r: Vec<String>)
    ensures
        views(r@) == spec_mp3_args(source@, output@),
{
    let mut r: Vec<String> = Vec::new();
    r.push(String::from_str("-nostdin"));
    r.push(String::from_str("-hide_banner"));
    r.push(String::from_str("-loglevel"));
    r.push(String::from_str("error"));
    r.push(String::from_str("-i"));
    r.push(String::from_str(source));
    r.push(String::from_str("-map_metadata"));
    r.push(String::from_str("-1"));
    r.push(String::from_str("-codec:a"));
    r.push(String::from_str("libmp3lame"));
    r.push(String::from_str("-b:a"));
    r.push(String::from_str("192k"));
    r.push(String::from_str("-f"));
    r.push(String::from_str("mp3"));
    r.push(String::from_str(output));
    assert(views(r@) =~= spec_mp3_args(source@, output@));
    r
}

/// The smallest WAV file that holds audio: a bare header is 44 bytes.
pub const MIN_WAV_BYTES: u64 = 44;

/// The check of the file Piper wrote: `size` bytes (read from disk) must be more than a
/// bare WAV header.
pub fn check_generated_audio(size: u64) -> (r: Result<(), String>)
    ensures
        r is Ok <==> size >= MIN_WAV_BYTES,
        r matches Err(e) ==> e@ == "Piper produced an empty audio file"@,
{
    if size < MIN_WAV_BYTES {
        return Err(String::from_str("Piper produced an empty audio file"));
    }
    Ok(())
}

/// The arguments to `python3` that create the managed environment in `engine_dir`.
pub fn venv_args(engine_dir: &str) -> (r: Vec<String>)
    ensures
        views(r@) == seq!["-m"@, "venv"@, engine_dir@],
{
    let mut r: Vec<String> = Vec::new();
    r.push(String::from_str("-m"));
    r.push(String::from_str("venv"));
    r.push(String::from_str(engine_dir));
    assert(views(r@) =~= seq!["-m"@, "venv"@, engine_dir@]);
    r
}

/// The arguments to the managed Python that install Piper 1.6 or a later 1.x release.
pub fn pip_install_args() -> (r: Vec<String>)
    ensures
        views(r@) == seq!["-m"@, "pip"@, "install"@, "--upgrade"@, "piper-tts>=1.6,<2"@],
{
    let mut r: Vec<String> = Vec::new();
    r.push(String::from_str("-m"));
    r.push(String::from_str("pip"));
    r.push(String::from_str("install"));
    r.push(String::from_str("--upgrade"));
    r.push(String::from_str("piper-tts>=1.6,<2"));
    assert(views(r@) =~= seq!["-m"@, "pip"@, "install"@, "--upgrade"@, "piper-tts>=1.6,<2"@]);
    r
}

/// The audio player to use: `ffplay` (quiet, exiting at the end), else `paplay`, else
/// `aplay`, whichever is found first; an error when none is.
pub fn choose_player(has_ffplay: bool, has_paplay: bool, has_aplay: bool) -> (r: Result<
    (String, Vec<String>),
    String,
>)
    ensures
        has_ffplay ==> (r matches Ok((p, a)) && p@ == "ffplay"@ && views(a@) == seq![
            "-nodisp"@,
            "-autoexit"@,
            "-loglevel"@,
            "error"@,
        ]),
        !has_ffplay && has_paplay ==> (r matches Ok((p, a)) && p@ == "paplay"@ && a@.len() == 0),
        !has_ffplay && !has_paplay && has_aplay ==> (r matches Ok((p, a)) && p@ == "aplay"@
            && a@.len() == 0),
        !has_ffplay && !has_paplay && !has_aplay ==> (r matches Err(e) && e@
            == "No audio player was found (install ffplay, paplay, or aplay)"@),
{
    if has_ffplay {
        let mut a: Vec<String> = Vec::new();
        a.push(String::from_str("-nodisp"));
        a.push(String::from_str("-autoexit"));
        a.push(String::from_str("-loglevel"));
        a.push(String::from_str("error"));
        assert(views(a@) =~= seq!["-nodisp"@, "-autoexit"@, "-loglevel"@, "error"@]);
        Ok((String::from_str("ffplay"), a))
    } else if has_paplay {
        Ok((String::from_str("paplay"), Vec::new()))
    } else if has_aplay {
        Ok((String::from_str("aplay"), Vec::new()))
    } else {
        Err(String::from_str("No audio player was found (install ffplay, paplay, or aplay)"))
    }
}

/// Two texts that share a prefix and a suffix differ when what lies between them differs.
proof fn lemma_framed_fields_differ(p: Seq<char>, d1: Seq<char>, d2: Seq<char>, r: Seq<char>)
    requires
        d1 != d2,
    ensures
        p + d1 + r != p + d2 + r,
{
    if p + d1 + r == p + d2 + r {
        assert((p + d1 + r).len() == p.len() + d1.len() + r.len());
        assert((p + d2 + r).len() == p.len() + d2.len() + r.len());
        assert(d1.len() == d2.len());
        assert((p + d1 + r).subrange(p.len() as int, (p.len() + d1.len()) as int) =~= d1);
        assert((p + d2 + r).subrange(p.len() as int, (p.len() + d2.len()) as int) =~= d2);
    }
}

proof fn lemma_encoding_injective(a: Seq<char>, b: Seq<char>)
    requires
        a != b,
    ensures
        vstd::utf8::encode_utf8(a) != vstd::utf8::encode_utf8(b),
{
    vstd::utf8::encode_utf8_decode_utf8(a);
    vstd::utf8::encode_utf8_decode_utf8(b);
}

/// The cache tells speakers apart: two speakers of the same voice, with the same text and
/// settings, have different digested descriptions (their keys then differ unless MD5 collides).
pub proof fn law_cache_input_tells_speakers_apart(
    voice_key: Seq<char>,
    a: u32,
    b: u32,
    text: Seq<char>,
    settings: SettingsText,
)
    requires
        a != b,
    ensures
        cache_input(voice_key, a, text, settings) != cache_input(voice_key, b, text, settings),
        vstd::utf8::encode_utf8(cache_input(voice_key, a, text, settings))
            != vstd::utf8::encode_utf8(cache_input(voice_key, b, text, settings)),
{
    reveal_strlit("v1");
    let p = "v1"@ + seq!['\0'] + voice_key + seq!['\0'];
    let rest = settings.speed@ + seq!['\0'] + settings.sentence_silence@ + seq!['\0']
        + settings.volume@ + seq!['\0'] + text;
    assert(cache_input(voice_key, a, text, settings) =~= p + decimal(a as nat) + (seq!['\0'] + rest));
    assert(cache_input(voice_key, b, text, settings) =~= p + decimal(b as nat) + (seq!['\0'] + rest));
    if decimal(a as nat) == decimal(b as nat) {
        crate::text::lemma_decimal_injective(a as nat, b as nat);
    }
    lemma_framed_fields_differ(p, decimal(a as nat), decimal(b as nat), seq!['\0'] + rest);
    lemma_encoding_injective(
        cache_input(voice_key, a, text, settings),
        cache_input(voice_key, b, text, settings),
    );
}

/// The cache tells voices apart: two voices with the same speaker, text and settings have
/// different digested descriptions (their keys then differ unless MD5 collides).
pub proof fn law_cache_input_tells_voices_apart(
    v: Seq<char>,
    w: Seq<char>,
    speaker_id: u32,
    text: Seq<char>,
    settings: SettingsText,
)
    requires
        v != w,
    ensures
        cache_input(v, speaker_id, text, settings) != cache_input(w, speaker_id, text, settings),
        vstd::utf8::encode_utf8(cache_input(v, speaker_id, text, settings))
            != vstd::utf8::encode_utf8(cache_input(w, speaker_id, text, settings)),
{
    reveal_strlit("v1");
    let p = "v1"@ + seq!['\0'];
    let rest = decimal(speaker_id as nat) + seq!['\0'] + settings.speed@ + seq!['\0']
        + settings.sentence_silence@ + seq!['\0'] + settings.volume@ + seq!['\0'] + text;
    assert(cache_input(v, speaker_id, text, settings) =~= p + v + (seq!['\0'] + rest));
    assert(cache_input(w, speaker_id, text, settings) =~= p + w + (seq!['\0'] + rest));
    lemma_framed_fields_differ(p, v, w, seq!['\0'] + rest);
    lemma_encoding_injective(
        cache_input(v, speaker_id, text, settings),
        cache_input(w, speaker_id, text, settings),
    );
}

/// What a cache key digests: the key is the lower-case hexadecimal MD5 of the UTF-8 text
/// `v1`, the voice, the speaker number in decimal, the speed, the sentence pause, the volume
/// and the text, in this order, each field after a NUL.
pub proof fn law_cache_key_digests_each_field(
    voice_key: Seq<char>,
    speaker_id: u32,
    text: Seq<char>,
    settings: SettingsText,
)
    ensures
        spec_cache_key(voice_key, speaker_id, text, settings) == hex_lower(
            md5_digest(
                vstd::utf8::encode_utf8(
                    seq!['v', '1', '\0'] + voice_key + seq!['\0'] + decimal(speaker_id as nat)
                        + seq!['\0'] + settings.speed@ + seq!['\0'] + settings.sentence_silence@
                        + seq!['\0'] + settings.volume@ + seq!['\0'] + text,
                ),
            ),
        ),
{
    reveal_strlit("v1");
    assert(cache_input(voice_key, speaker_id, text, settings) =~= seq!['v', '1', '\0'] + voice_key
        + seq!['\0'] + decimal(speaker_id as nat) + seq!['\0'] + settings.speed@ + seq!['\0']
        + settings.sentence_silence@ + seq!['\0'] + settings.volume@ + seq!['\0'] + text);
}

/// The cache tells settings apart: two renderings of the same voice, speaker and text whose
/// settings differ in exactly one of speed, sentence pause and volume have different digested
/// descriptions (their keys then differ unless MD5 collides).
pub proof fn law_cache_input_tells_settings_apart(
    voice_key: Seq<char>,
    speaker_id: u32,
    text: Seq<char>,
    s: SettingsText,
    t: SettingsText,
)
    requires
        (s.speed@ != t.speed@ && s.sentence_silence@ == t.sentence_silence@ && s.volume@
            == t.volume@) || (s.speed@ == t.speed@ && s.sentence_silence@ != t.sentence_silence@
            && s.volume@ == t.volume@) || (s.speed@ == t.speed@ && s.sentence_silence@
            == t.sentence_silence@ && s.volume@ != t.volume@),
    ensures
        cache_input(voice_key, speaker_id, text, s) != cache_input(voice_key, speaker_id, text, t),
        vstd::utf8::encode_utf8(cache_input(voice_key, speaker_id, text, s))
            != vstd::utf8::encode_utf8(cache_input(voice_key, speaker_id, text, t)),
{
    reveal_strlit("v1");
    let head = "v1"@ + seq!['\0'] + voice_key + seq!['\0'] + decimal(speaker_id as nat) + seq!['\0'];
    let tail = seq!['\0'] + text;
    let a = cache_input(voice_key, speaker_id, text, s);
    let b = cache_input(voice_key, speaker_id, text, t);
    if s.speed@ != t.speed@ {
        let rest = seq!['\0'] + s.sentence_silence@ + seq!['\0'] + s.volume@ + tail;
        assert(a =~= head + s.speed@ + rest);
        assert(b =~= head + t.speed@ + rest);
        lemma_framed_fields_differ(head, s.speed@, t.speed@, rest);
    } else if s.sentence_silence@ != t.sentence_silence@ {
        let p = head + s.speed@ + seq!['\0'];
        let rest = seq!['\0'] + s.volume@ + tail;
        assert(a =~= p + s.sentence_silence@ + rest);
        assert(b =~= p + t.sentence_silence@ + rest);
        lemma_framed_fields_differ(p, s.sentence_silence@, t.sentence_silence@, rest);
    } else {
        let p = head + s.speed@ + seq!['\0'] + s.sentence_silence@ + seq!['\0'];
        assert(a =~= p + s.volume@ + tail);
        assert(b =~= p + t.volume@ + tail);
        lemma_framed_fields_differ(p, s.volume@, t.volume@, tail);
    }
    lemma_encoding_injective(a, b);
}

} // verus!
