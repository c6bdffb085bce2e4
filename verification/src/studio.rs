//! The studio's state and its decisions: which voice is selected, what the status line says,
//! whether a background job runs, what a render request leads to, and how job reports change
//! the state. The window and the jobs themselves run outside; they hand events in and carry
//! out what comes back.

use vstd::prelude::*;

use crate::catalog::{InstalledVoice, VoiceCatalog, VoiceEntry, FEATURED_VOICE};
use crate::download::{is_install_plan, plan_install, InstallPlan};
use crate::engine::{cache_key, spec_cache_key, EngineSpec, SettingsText};
use crate::paths::{join, join_path};
use crate::strmap::StrMap;
use crate::text::{compare_str, lex_lt, lemma_lex_total, lemma_lex_transitive, lemma_lex_irreflexive, Cmp, decimal, pad_left, push_decimal, push_padded_decimal, push_str, str_eq, trim, trim_str};

verus! {

/// What a background job reports.
#[derive(Debug)]
pub enum JobEvent {
    /// A progress message.
    Status(String),
    /// A refreshed catalog.
    CatalogUpdated(VoiceCatalog),
    /// The pack with this name was installed.
    VoiceInstalled(String),
    /// The managed engine was installed.
    EngineInstalled,
    /// Audio was generated at `path`; `autoplay` asks for it to be played.
    AudioReady { path: String, autoplay: bool },
    /// An export was saved; the path as shown to the user.
    Exported(String),
    /// The job failed with this message.
    Failed(String),
    /// The job is over.
    Finished,
}

/// What the window has to do after an event.
#[derive(Debug, PartialEq, Eq)]
pub enum FollowUp {
    Nothing,
    /// Scan the installed voices again and, if that succeeds, hand them over; a failed scan
    /// leaves the voices and the status as they are.
    ReloadInstalled,
    /// Look for the engine again and hand the result over.
    DetectEngine,
    /// Play the audio at this path and report how it went.
    Play(String),
}

/// Which playback an outcome belongs to.
#[derive(Debug)]
pub enum Playback {
    /// Freshly generated audio.
    Generated,
    /// A cached rendering at this path.
    Cached(String),
    /// The last audio, played again.
    Replay,
}

/// Where a rendering goes.
#[derive(Debug)]
pub enum RenderTarget {
    Preview,
    Wav(String),
    Mp3(String),
}

/// A rendering the studio has agreed to: the engine, the voice, the speaker, the trimmed text
/// and the cache file that holds (or will hold) the audio.
#[derive(Debug)]
pub struct RenderJob {
    pub engine: EngineSpec,
    pub voice: InstalledVoice,
    pub speaker_id: u32,
    pub text: String,
    pub cache_key: String,
    pub cached_wav: String,
    /// Where Piper writes before the audio replaces `cached_wav`.
    pub partial_wav: String,
    pub target: RenderTarget,
}

/// The studio's state.
#[derive(Debug)]
pub struct Session {
    pub catalog: VoiceCatalog,
    pub installed: StrMap<InstalledVoice>,
    pub engine: Option<EngineSpec>,
    pub selected_voice: String,
    /// The speaker chosen for each voice.
    pub speaker_ids: StrMap<u32>,
    pub status: String,
    /// A background job is running.
    pub busy: bool,
    pub last_audio: Option<String>,
    pub show_setup: bool,
}

/// The voice to select at start-up: the remembered one if the catalog has it, else the first
/// installed voice (in name order), else the featured pack.
pub open spec fn spec_initial_voice(
    catalog: VoiceCatalog,
    installed: StrMap<InstalledVoice>,
    remembered: Seq<char>,
) -> Seq<char> {
    if catalog.entry_map()@.dom().contains(remembered) {
        remembered
    } else if installed.keys().len() > 0 {
        installed.keys()[0]
    } else {
        FEATURED_VOICE@
    }
}

/// The status line at start-up.
pub open spec fn spec_startup_status(has_engine: bool) -> Seq<char> {
    if has_engine {
        "Ready — choose an installed voice and start writing"@
    } else {
        "Install the local Piper engine, then install a voice pack"@
    }
}

/// The speaker to use: the remembered one (or the first), but no further than the last.
pub open spec fn spec_selected_speaker(remembered: Option<u32>, num_speakers: u32) -> u32 {
    let r: u32 = match remembered {
        Some(id) => id,
        None => 0,
    };
    let last: u32 = if num_speakers == 0 {
        0
    } else {
        (num_speakers - 1) as u32
    };
    if r < last {
        r
    } else {
        last
    }
}

/// The speaker that a clock reading picks among `count`.
pub open spec fn spec_speaker_for_stamp(count: u32, stamp: u128) -> u32 {
    if count <= 1 {
        0
    } else {
        (stamp % (count as u128)) as u32
    }
}

/// The speaker a clock reading picks among `count`: the reading modulo `count`, or the first
/// when there is at most one.
pub fn speaker_for_stamp(count: u32, stamp: u128) -> (r: u32)
    ensures
        r == spec_speaker_for_stamp(count, stamp),
        count >= 1 ==> r < count,
{
    if count <= 1 {
        0
    } else {
        (stamp % (count as u128)) as u32
    }
}

/// A speaker picked by the clock among `count`.
pub fn random_speaker(count: u32) -> (r: u32)
    ensures
        count <= 1 ==> r == 0,
        count > 1 ==> r < count,
        exists|stamp: u128| r == #[trigger] spec_speaker_for_stamp(count, stamp),
{
    let stamp = crate::engine::unique_stamp();
    speaker_for_stamp(count, stamp)
}

/// The label of speaker `id` in the speaker picker: `Voice 001`-style numbers for the
/// featured pack, the pack's own labels otherwise.
pub open spec fn spec_picker_label(entry: VoiceEntry, id: u32) -> Seq<char> {
    if entry.key@ == FEATURED_VOICE@ {
        "Voice "@ + pad_left(decimal(id as nat + 1), 3, '0')
    } else {
        entry.spec_speaker_label(id)
    }
}

/// The label of speaker `id` of `entry` in the speaker picker.
pub fn picker_label(entry: &VoiceEntry, id: u32) -> (r: String)
    requires
        id < u32::MAX,
    ensures
        r@ == spec_picker_label(*entry, id),
{
    if str_eq(entry.key.as_str(), FEATURED_VOICE) {
        let mut r = String::from_str("Voice ");
        push_padded_decimal(&mut r, id as u128 + 1, 3);
        r
    } else {
        entry.speaker_label(id)
    }
}

/// The previous speaker, staying at the first.
pub fn previous_speaker(id: u32) -> (r: u32)
    ensures
        r == (if id == 0 {
            0
        } else {
            id - 1
        }),
{
    if id == 0 {
        0
    } else {
        id - 1
    }
}

/// The next speaker, staying at the last of `num_speakers`.
pub fn next_speaker(id: u32, num_speakers: u32) -> (r: u32)
    requires
        id < u32::MAX,
    ensures
        r == spec_selected_speaker(Some((id + 1) as u32), num_speakers),
{
    let last = if num_speakers == 0 {
        0
    } else {
        num_speakers - 1
    };
    if id + 1 < last {
        id + 1
    } else {
        last
    }
}

/// Whether the library filters differ from their defaults (a search, another language than
/// English, or installed packs only).
pub fn filters_active(search: &str, language: &str, installed_only: bool) -> (r: bool)
    ensures
        r == (trim(search@).len() > 0 || language@ != "English"@ || installed_only),
{
    let t = trim_str(search);
    let cs = crate::text::chars_of(t.as_str());
    !(cs.len() == 0) || !str_eq(language, "English") || installed_only
}

/// Lines joined by line breaks.
pub open spec fn join_lines(lines: Seq<Seq<char>>) -> Seq<char>
    decreases lines.len(),
{
    if lines.len() == 0 {
        Seq::empty()
    } else if lines.len() == 1 {
        lines[0]
    } else {
        join_lines(lines.drop_last()) + seq!['\n'] + lines.last()
    }
}

/// The warning shown at start-up: the problems met while starting, one per line, or none
/// when there were none.
pub fn startup_warning(problems: &Vec<String>) -> (r: Option<String>)
    ensures
        problems@.len() == 0 ==> r is None,
        problems@.len() > 0 ==> (r matches Some(w) && w@ == join_lines(
            crate::catalog::string_views(problems@),
        )),
{
    let n = problems.len();
    if n == 0 {
        return None;
    }
    let mut w = problems[0].clone();
    let mut i: usize = 1;
    while i < n
        invariant
            n == problems@.len(),
            1 <= i <= n,
            w@ == join_lines(crate::catalog::string_views(problems@.take(i as int))),
        decreases n - i,
    {
        let ghost lines = crate::catalog::string_views(problems@.take(i + 1));
        proof {
            reveal_strlit("\n");
            assert(lines.drop_last() =~= crate::catalog::string_views(problems@.take(i as int)));
            assert(lines.len() == i + 1 && lines.last() == problems@[i as int]@);
        }
        push_str(&mut w, "\n");
        push_str(&mut w, problems[i].as_str());
        assert(w@ =~= join_lines(lines));
        i = i + 1;
    }
    proof {
        assert(problems@.take(n as int) =~= problems@);
    }
    Some(w)
}

impl Session {
    /// The state at start-up, from the loaded catalog, the installed voices, the engine found,
    /// and the remembered selection and speakers.
    pub fn start(
        catalog: VoiceCatalog,
        installed: StrMap<InstalledVoice>,
        engine: Option<EngineSpec>,
        remembered_voice: String,
        speaker_ids: StrMap<u32>,
    ) -> (s: Self)
        ensures
            s.selected_voice@ == spec_initial_voice(catalog, installed, remembered_voice@),
            s.status@ == spec_startup_status(engine is Some),
            !s.busy,
            s.last_audio is None,
            !s.show_setup,
            s.catalog == catalog,
            s.installed == installed,
            s.engine == engine,
            s.speaker_ids == speaker_ids,
    {
        let selected_voice = if catalog.get(remembered_voice.as_str()).is_some() {
            remembered_voice
        } else if installed.len() > 0 {
            installed.key_at(0).clone()
        } else {
            String::from_str(FEATURED_VOICE)
        };
        let status = if engine.is_some() {
            String::from_str("Ready — choose an installed voice and start writing")
        } else {
            String::from_str("Install the local Piper engine, then install a voice pack")
        };
        Session {
            catalog,
            installed,
            engine,
            selected_voice,
            speaker_ids,
            status,
            busy: false,
            last_audio: None,
            show_setup: false,
        }
    }

    /// Starts a background job unless one is running; whether it was started.
    pub fn begin_job(&mut self) -> (started: bool)
        ensures
            started == !old(self).busy,
            old(self).busy ==> *final(self) == *old(self),
            !old(self).busy ==> *final(self) == (Session { busy: true, ..*old(self) }),
    {
        if self.busy {
            return false;
        }
        self.busy = true;
        true
    }

    /// The speaker to use for voice `key` with `num_speakers` speakers.
    pub fn selected_speaker_id(&self, key: &str, num_speakers: u32) -> (r: u32)
        ensures
            r == spec_selected_speaker(
                if self.speaker_ids@.dom().contains(key@) {
                    Some(self.speaker_ids@[key@])
                } else {
                    None
                },
                num_speakers,
            ),
            num_speakers >= 1 ==> r < num_speakers,
    {
        let remembered: u32 = match self.speaker_ids.get(key) {
            Some(id) => *id,
            None => 0,
        };
        let last = if num_speakers == 0 {
            0
        } else {
            num_speakers - 1
        };
        if remembered < last {
            remembered
        } else {
            last
        }
    }

    /// Remembers `id` as the speaker of voice `key`.
    pub fn remember_speaker(&mut self, key: String, id: u32)
        ensures
            final(self).speaker_ids@ == old(self).speaker_ids@.insert(key@, id),
            final(self).catalog == old(self).catalog,
            final(self).installed == old(self).installed,
            final(self).engine == old(self).engine,
            final(self).selected_voice == old(self).selected_voice,
            final(self).status == old(self).status,
            final(self).busy == old(self).busy,
            final(self).last_audio == old(self).last_audio,
            final(self).show_setup == old(self).show_setup,
    {
        self.speaker_ids.insert(key, id);
    }

    /// Whether a rendering can be asked for: no job runs, the engine is there, the selected
    /// voice is installed and the text is not blank.
    pub fn can_render(&self, text: &str) -> (r: bool)
        ensures
            r == (!self.busy && self.engine is Some && self.installed@.dom().contains(
                self.selected_voice@,
            ) && trim(text@).len() > 0),
    {
        let t = trim_str(text);
        let cs = crate::text::chars_of(t.as_str());
        !self.busy && self.engine.is_some() && self.installed.contains_key(
            self.selected_voice.as_str(),
        ) && cs.len() > 0
    }

    /// The number of voices ready to speak: the speakers of all installed voices together.
    pub fn ready_voice_count(&self) -> (n: u64)
        requires
            self.installed.keys().len() <= u32::MAX,
        ensures
            n == total_speakers(self.installed.values()),
    {
        let count = self.installed.len();
        let mut n: u64 = 0;
        let mut i: usize = 0;
        while i < count
            invariant
                count == self.installed.values().len(),
                count <= u32::MAX,
                i <= count,
                n == total_speakers(self.installed.values().take(i as int)),
                n <= i * (u32::MAX as int),
            decreases count - i,
        {
            assert(self.installed.values().take(i + 1).drop_last() == self.installed.values().take(
                i as int,
            ));
            n = n + self.installed.value_at(i).num_speakers as u64;
            i = i + 1;
        }
        assert(self.installed.values().take(count as int) == self.installed.values());
        n
    }

    /// Selects voice `key`.
    pub fn select_voice(&mut self, key: String)
        ensures
            final(self).selected_voice == key,
            final(self).catalog == old(self).catalog,
            final(self).installed == old(self).installed,
            final(self).engine == old(self).engine,
            final(self).speaker_ids == old(self).speaker_ids,
            final(self).last_audio == old(self).last_audio,
            final(self).show_setup == old(self).show_setup,
            final(self).status == old(self).status,
            final(self).busy == old(self).busy,
    {
        self.selected_voice = key;
    }

    /// The plan for installing the selected pack under `voices_dir`, with the pack's name; when
    /// the catalog lacks the selection the status says to select one instead.
    pub fn plan_selected_install(&mut self, voices_dir: &str) -> (r: Option<(String, InstallPlan)>)
        ensures
            final(self).busy == old(self).busy,
            final(self).catalog == old(self).catalog,
            final(self).installed == old(self).installed,
            final(self).engine == old(self).engine,
            final(self).speaker_ids == old(self).speaker_ids,
            final(self).last_audio == old(self).last_audio,
            final(self).show_setup == old(self).show_setup,
            final(self).selected_voice == old(self).selected_voice,
            old(self).catalog.entry_map()@.dom().contains(old(self).selected_voice@) ==> (r matches Some(
                (key, plan),
            ) && key@ == old(self).catalog.entry_map()@[old(self).selected_voice@].key@
                && is_install_plan(
                plan,
                old(self).catalog.entry_map()@[old(self).selected_voice@],
                voices_dir@,
            ) && final(self).status == old(self).status),
            !old(self).catalog.entry_map()@.dom().contains(old(self).selected_voice@) ==> (r is None
                && final(self).status@ == "Select a catalog voice first"@),
    {
        match self.catalog.get(self.selected_voice.as_str()) {
            Some(entry) => {
                let plan = plan_install(entry, voices_dir);
                Some((entry.key.clone(), plan))
            },
            None => {
                self.status = String::from_str("Select a catalog voice first");
                None
            },
        }
    }

    /// Applies a job report to the state; what the window has to do next.
    pub fn apply_event(&mut self, event: JobEvent) -> (f: FollowUp)
        ensures
            final(self).installed == old(self).installed,
            final(self).engine == old(self).engine,
            final(self).speaker_ids == old(self).speaker_ids,
            final(self).show_setup == old(self).show_setup,
            !(event is CatalogUpdated) ==> final(self).catalog == old(self).catalog,
            !(event is VoiceInstalled) ==> final(self).selected_voice == old(self).selected_voice,
            !(event is AudioReady) ==> final(self).last_audio == old(self).last_audio,
            match event {
                JobEvent::Status(m) => {
                    &&& final(self).status == m
                    &&& f == FollowUp::Nothing
                    &&& final(self).busy == old(self).busy
                },
                JobEvent::CatalogUpdated(c) => {
                    &&& final(self).catalog == c
                    &&& final(self).status@ == "Voice catalog updated — "@ + decimal(
                        c.entry_map().keys().len(),
                    ) + " packs available"@
                    &&& f == FollowUp::ReloadInstalled
                    &&& final(self).busy == old(self).busy
                },
                JobEvent::VoiceInstalled(key) => {
                    &&& final(self).selected_voice == key
                    &&& final(self).status@ == (if key@ == FEATURED_VOICE@ {
                        "904 English voices are ready offline"@
                    } else {
                        "Voice pack installed and ready offline"@
                    })
                    &&& f == FollowUp::ReloadInstalled
                    &&& final(self).busy == old(self).busy
                },
                JobEvent::EngineInstalled => {
                    &&& final(self).status@ == "Piper engine installed and ready offline"@
                    &&& f == FollowUp::DetectEngine
                    &&& final(self).busy == old(self).busy
                },
                JobEvent::AudioReady { path, autoplay } => {
                    &&& final(self).last_audio == Some(path)
                    &&& autoplay ==> f == FollowUp::Play(path) && final(self).status == old(
                        self,
                    ).status
                    &&& !autoplay ==> f == FollowUp::Nothing && final(self).status@
                        == "Audio generated"@
                    &&& final(self).busy == old(self).busy
                },
                JobEvent::Exported(shown) => {
                    &&& final(self).status@ == "Saved "@ + shown@
                    &&& f == FollowUp::Nothing
                    &&& final(self).busy == old(self).busy
                },
                JobEvent::Failed(e) => {
                    &&& final(self).status == e
                    &&& f == FollowUp::Nothing
                    &&& final(self).busy == old(self).busy
                },
                JobEvent::Finished => {
                    &&& !final(self).busy
                    &&& final(self).status == old(self).status
                    &&& f == FollowUp::Nothing
                },
            },
    {
        match event {
            JobEvent::Status(m) => {
                self.status = m;
                FollowUp::Nothing
            },
            JobEvent::CatalogUpdated(c) => {
                self.catalog = c;
                let mut m = String::from_str("Voice catalog updated — ");
                push_decimal(&mut m, self.catalog.len() as u128);
                push_str(&mut m, " packs available");
                self.status = m;
                FollowUp::ReloadInstalled
            },
            JobEvent::VoiceInstalled(key) => {
                let featured = str_eq(key.as_str(), FEATURED_VOICE);
                self.selected_voice = key;
                self.status = if featured {
                    String::from_str("904 English voices are ready offline")
                } else {
                    String::from_str("Voice pack installed and ready offline")
                };
                FollowUp::ReloadInstalled
            },
            JobEvent::EngineInstalled => {
                self.status = String::from_str("Piper engine installed and ready offline");
                FollowUp::DetectEngine
            },
            JobEvent::AudioReady { path, autoplay } => {
                self.last_audio = Some(path.clone());
                if autoplay {
                    FollowUp::Play(path)
                } else {
                    self.status = String::from_str("Audio generated");
                    FollowUp::Nothing
                }
            },
            JobEvent::Exported(shown) => {
                let mut m = String::from_str("Saved ");
                push_str(&mut m, shown.as_str());
                self.status = m;
                FollowUp::Nothing
            },
            JobEvent::Failed(e) => {
                self.status = e;
                FollowUp::Nothing
            },
            JobEvent::Finished => {
                self.busy = false;
                FollowUp::Nothing
            },
        }
    }

    /// Records how a playback went.
    pub fn finish_playback(&mut self, which: Playback, outcome: Result<(), String>)
        ensures
            final(self).busy == old(self).busy,
            final(self).catalog == old(self).catalog,
            final(self).installed == old(self).installed,
            final(self).engine == old(self).engine,
            final(self).speaker_ids == old(self).speaker_ids,
            final(self).selected_voice == old(self).selected_voice,
            final(self).show_setup == old(self).show_setup,
            match outcome {
                Err(e) => final(self).status == e && final(self).last_audio == old(self).last_audio,
                Ok(()) => match which {
                    Playback::Generated => final(self).status@ == "Generated and playing preview"@
                        && final(self).last_audio == old(self).last_audio,
                    Playback::Cached(path) => final(self).status@ == "Playing cached preview"@
                        && final(self).last_audio == Some(path),
                    Playback::Replay => final(self).status@ == "Replaying the last preview"@
                        && final(self).last_audio == old(self).last_audio,
                },
            },
    {
        match outcome {
            Err(e) => {
                self.status = e;
            },
            Ok(()) => match which {
                Playback::Generated => {
                    self.status = String::from_str("Generated and playing preview");
                },
                Playback::Cached(path) => {
                    self.last_audio = Some(path);
                    self.status = String::from_str("Playing cached preview");
                },
                Playback::Replay => {
                    self.status = String::from_str("Replaying the last preview");
                },
            },
        }
    }

    /// Decides on a rendering of `text` to `target` with the rendered `settings`, its audio
    /// cached under `preview_dir`: refused (with the reason on the status line, and the setup
    /// window opened when the engine is missing) or a job to carry out.
    pub fn plan_render(
        &mut self,
        target: RenderTarget,
        text: &str,
        settings: &SettingsText,
        preview_dir: &str,
    ) -> (r: Option<RenderJob>)
        ensures
            final(self).busy == old(self).busy,
            final(self).catalog == old(self).catalog,
            final(self).installed == old(self).installed,
            final(self).engine == old(self).engine,
            final(self).speaker_ids == old(self).speaker_ids,
            final(self).selected_voice == old(self).selected_voice,
            final(self).last_audio == old(self).last_audio,
            old(self).engine is None ==> (r is None && final(self).status@
                == "Install the Piper engine first"@ && final(self).show_setup),
            old(self).engine is Some ==> final(self).show_setup == old(self).show_setup,
            old(self).engine is Some && !old(self).installed@.dom().contains(
                old(self).selected_voice@,
            ) ==> (r is None && final(self).status@ == "Install the selected voice pack first"@),
            old(self).engine is Some && old(self).installed@.dom().contains(
                old(self).selected_voice@,
            ) && trim(text@).len() == 0 ==> (r is None && final(self).status@
                == "Enter some text before generating audio"@),
            old(self).engine is Some && old(self).installed@.dom().contains(
                old(self).selected_voice@,
            ) && trim(text@).len() > 0 ==> (r matches Some(job) && {
                let voice = old(self).installed@[old(self).selected_voice@];
                let speaker = spec_selected_speaker(
                    if old(self).speaker_ids@.dom().contains(voice.key@) {
                        Some(old(self).speaker_ids@[voice.key@])
                    } else {
                        None
                    },
                    voice.num_speakers,
                );
                &&& job.voice.key == voice.key
                &&& job.voice.model_path == voice.model_path
                &&& job.voice.config_path == voice.config_path
                &&& job.voice.num_speakers == voice.num_speakers
                &&& job.voice.model_card_path == voice.model_card_path
                &&& job.voice.speaker_id_map@ == voice.speaker_id_map@
                &&& job.speaker_id == speaker
                &&& job.text@ == trim(text@)
                &&& job.cache_key@ == spec_cache_key(voice.key@, speaker, trim(text@), *settings)
                &&& job.cached_wav@ == join_path(preview_dir@, job.cache_key@ + ".wav"@)
                &&& job.partial_wav@ == join_path(preview_dir@, job.cache_key@ + ".wav.partial"@)
                &&& job.target == target
                &&& job.engine.spec_program() == old(self).engine->0.spec_program()
                &&& job.engine.spec_prefix_args() == old(self).engine->0.spec_prefix_args()
                &&& job.engine.spec_label() == old(self).engine->0.spec_label()
                &&& final(self).status == old(self).status
            }),
    {
        let engine = match &self.engine {
            Some(e) => e.duplicate(),
            None => {
                self.status = String::from_str("Install the Piper engine first");
                self.show_setup = true;
                return None;
            },
        };
        let voice = match self.installed.get(self.selected_voice.as_str()) {
            Some(v) => v.duplicate(),
            None => {
                self.status = String::from_str("Install the selected voice pack first");
                return None;
            },
        };
        let text = trim_str(text);
        let cs = crate::text::chars_of(text.as_str());
        if cs.len() == 0 {
            self.status = String::from_str("Enter some text before generating audio");
            return None;
        }
        let speaker_id = self.selected_speaker_id(voice.key.as_str(), voice.num_speakers);
        let key = cache_key(voice.key.as_str(), speaker_id, text.as_str(), settings);
        let mut file = key.clone();
        push_str(&mut file, ".wav");
        let cached_wav = join(preview_dir, file.as_str());
        let mut partial = key.clone();
        push_str(&mut partial, ".wav.partial");
        let partial_wav = join(preview_dir, partial.as_str());
        Some(
            RenderJob {
                engine,
                voice,
                speaker_id,
                text,
                cache_key: key,
                cached_wav,
                partial_wav,
                target,
            },
        )
    }
}

/// The speakers of a list of installed voices, together.
pub open spec fn total_speakers(voices: Seq<InstalledVoice>) -> int
    decreases voices.len(),
{
    if voices.len() == 0 {
        0
    } else {
        total_speakers(voices.drop_last()) + voices.last().num_speakers
    }
}

/// The speaker the studio uses is always one the voice has.
pub proof fn law_selected_speaker_in_range(remembered: Option<u32>, num_speakers: u32)
    requires
        num_speakers >= 1,
    ensures
        spec_selected_speaker(remembered, num_speakers) < num_speakers,
{
}

// ---------------------------------------------------------------- the library list

/// The fields that order the library: featured pack, installed, language (in English), name,
/// quality.
pub open spec fn library_rank(e: VoiceEntry, installed: bool) -> (bool, bool, Seq<char>, Seq<char>, Seq<char>) {
    (e.key@ == FEATURED_VOICE@, installed, e.language.name_english@, e.name@, e.quality@)
}

/// `a` is listed before `b` by its fields: the featured pack first, then installed packs,
/// then by language, name and quality in ascending order.
pub open spec fn rank_before(
    a: (bool, bool, Seq<char>, Seq<char>, Seq<char>),
    b: (bool, bool, Seq<char>, Seq<char>, Seq<char>),
) -> bool {
    if a.0 != b.0 {
        a.0
    } else if a.1 != b.1 {
        a.1
    } else if a.2 != b.2 {
        lex_lt(a.2, b.2)
    } else if a.3 != b.3 {
        lex_lt(a.3, b.3)
    } else if a.4 != b.4 {
        lex_lt(a.4, b.4)
    } else {
        false
    }
}

proof fn lemma_rank_order(
    a: (bool, bool, Seq<char>, Seq<char>, Seq<char>),
    b: (bool, bool, Seq<char>, Seq<char>, Seq<char>),
    c: (bool, bool, Seq<char>, Seq<char>, Seq<char>),
)
    ensures
        !rank_before(a, a),
        rank_before(a, b) ==> !rank_before(b, a),
        a != b ==> rank_before(a, b) || rank_before(b, a),
        rank_before(a, b) && rank_before(b, c) ==> rank_before(a, c),
{
    lemma_lex_irreflexive(a.2);
    lemma_lex_irreflexive(a.3);
    lemma_lex_irreflexive(a.4);
    lemma_lex_total(a.2, b.2);
    lemma_lex_total(a.3, b.3);
    lemma_lex_total(a.4, b.4);
    if rank_before(a, b) && rank_before(b, c) {
        if a.2 != b.2 && b.2 != c.2 && a.0 == b.0 && b.0 == c.0 && a.1 == b.1 && b.1 == c.1 {
            lemma_lex_transitive(a.2, b.2, c.2);
        }
        if a.3 != b.3 && b.3 != c.3 && a.0 == b.0 && b.0 == c.0 && a.1 == b.1 && b.1 == c.1 && a.2
            == b.2 && b.2 == c.2 {
            lemma_lex_transitive(a.3, b.3, c.3);
        }
        if a.4 != b.4 && b.4 != c.4 && a.0 == b.0 && b.0 == c.0 && a.1 == b.1 && b.1 == c.1 && a.2
            == b.2 && b.2 == c.2 && a.3 == b.3 && b.3 == c.3 {
            lemma_lex_transitive(a.4, b.4, c.4);
        }
    }
    if a != b {
        assert(a.0 != b.0 || a.1 != b.1 || a.2 != b.2 || a.3 != b.3 || a.4 != b.4);
    }
}

/// Entry `i` is listed before entry `j`: by its fields, or, with equal fields, by its place in
/// the catalog (the sort keeps the catalog order among equals).
pub open spec fn listed_before(
    ranks: Seq<(bool, bool, Seq<char>, Seq<char>, Seq<char>)>,
    i: int,
    j: int,
) -> bool {
    rank_before(ranks[i], ranks[j]) || (ranks[i] == ranks[j] && i < j)
}

/// `order` lists, by their catalog positions, exactly the shown entries, each once, in
/// library order.
pub open spec fn is_library_order(
    order: Seq<usize>,
    ranks: Seq<(bool, bool, Seq<char>, Seq<char>, Seq<char>)>,
    shown: Seq<bool>,
) -> bool {
    &&& forall|k: int|
        0 <= k < order.len() ==> #[trigger] order[k] < ranks.len() && shown[order[k] as int]
    &&& forall|i: int| 0 <= i < ranks.len() && shown[i] ==> #[trigger] order.contains(i as usize)
    &&& forall|k: int, l: int|
        0 <= k < l < order.len() ==> listed_before(ranks, #[trigger] order[k] as int, #[trigger] order[l] as int)
}

/// Whether a pack passes the library filters: the chosen language (any when empty),
/// installed packs only when asked, and the search.
pub open spec fn spec_shown(
    e: VoiceEntry,
    installed: bool,
    language: Seq<char>,
    installed_only: bool,
    search: Seq<char>,
) -> bool {
    (language.len() == 0 || e.language.name_english@ == language) && (!installed_only || installed)
        && e.spec_matches_search(search)
}

fn rank_before_exec(a: &VoiceEntry, ai: bool, b: &VoiceEntry, bi: bool) -> (r: bool)
    ensures
        r == rank_before(library_rank(*a, ai), library_rank(*b, bi)),
{
    let af = str_eq(a.key.as_str(), FEATURED_VOICE);
    let bf = str_eq(b.key.as_str(), FEATURED_VOICE);
    if af != bf {
        return af;
    }
    if ai != bi {
        return ai;
    }
    match compare_str(a.language.name_english.as_str(), b.language.name_english.as_str()) {
        Cmp::Less => return true,
        Cmp::Greater => return false,
        Cmp::Equal => {},
    }
    match compare_str(a.name.as_str(), b.name.as_str()) {
        Cmp::Less => return true,
        Cmp::Greater => return false,
        Cmp::Equal => {},
    }
    match compare_str(a.quality.as_str(), b.quality.as_str()) {
        Cmp::Less => true,
        _ => false,
    }
}

impl Session {
    /// The ranks of the catalog's packs, in catalog order.
    pub open spec fn library_ranks(&self) -> Seq<(bool, bool, Seq<char>, Seq<char>, Seq<char>)> {
        Seq::new(
            self.catalog.entry_map().values().len(),
            |i: int|
                library_rank(
                    self.catalog.entry_map().values()[i],
                    self.installed@.dom().contains(self.catalog.entry_map().values()[i].key@),
                ),
        )
    }

    /// Which of the catalog's packs pass the filters, in catalog order.
    pub open spec fn library_shown(&self, language: Seq<char>, installed_only: bool, search: Seq<char>) -> Seq<bool> {
        Seq::new(
            self.catalog.entry_map().values().len(),
            |i: int|
                spec_shown(
                    self.catalog.entry_map().values()[i],
                    self.installed@.dom().contains(self.catalog.entry_map().values()[i].key@),
                    language,
                    installed_only,
                    search,
                ),
        )
    }

    /// The packs the library shows, as positions in the catalog, in the order it shows them:
    /// those of `language` (any when empty), only installed ones when `installed_only`, and
    /// those matching `search` (the trimmed, lower-case search text).
    pub fn visible_order(&self, language: &str, installed_only: bool, search: &str) -> (order: Vec<
        usize,
    >)
        ensures
            is_library_order(
                order@,
                self.library_ranks(),
                self.library_shown(language@, installed_only, search@),
            ),
    {
        let entries = self.catalog.entries();
        let n = entries.len();
        let ghost ranks = self.library_ranks();
        let ghost shown = self.library_shown(language@, installed_only, search@);
        let any_language = crate::text::chars_of(language).len() == 0;
        let mut installed_flags: Vec<bool> = Vec::new();
        let mut i: usize = 0;
        while i < n
            invariant
                n == entries@.len(),
                n == self.catalog.entry_map().values().len(),
                forall|k: int| 0 <= k < n ==> *(#[trigger] entries@[k]) == self.catalog.entry_map().values()[k],
                i <= n,
                installed_flags@.len() == i,
                forall|k: int|
                    0 <= k < i ==> #[trigger] installed_flags@[k] == self.installed@.dom().contains(
                        self.catalog.entry_map().values()[k].key@,
                    ),
            decreases n - i,
        {
            installed_flags.push(self.installed.contains_key(entries[i].key.as_str()));
            i = i + 1;
        }
        let mut order: Vec<usize> = Vec::new();
        let mut i: usize = 0;
        while i < n
            invariant
                n == entries@.len(),
                n == self.catalog.entry_map().values().len(),
                forall|k: int| 0 <= k < n ==> *(#[trigger] entries@[k]) == self.catalog.entry_map().values()[k],
                installed_flags@.len() == n,
                forall|k: int|
                    0 <= k < n ==> #[trigger] installed_flags@[k] == self.installed@.dom().contains(
                        self.catalog.entry_map().values()[k].key@,
                    ),
                ranks == self.library_ranks(),
                shown == self.library_shown(language@, installed_only, search@),
                any_language == (language@.len() == 0),
                i <= n,
                forall|k: int| 0 <= k < order@.len() ==> #[trigger] order@[k] < i && shown[order@[k] as int],
                forall|j: int| 0 <= j < i && shown[j] ==> #[trigger] order@.contains(j as usize),
                forall|k: int, l: int|
                    0 <= k < l < order@.len() ==> listed_before(ranks, #[trigger] order@[k] as int, #[trigger] order@[l] as int),
            decreases n - i,
        {
            let e = entries[i];
            let show = (any_language || str_eq(e.language.name_english.as_str(), language)) && (
            !installed_only || installed_flags[i]) && e.matches_search(search);
            assert(show == shown[i as int]);
            if show {
                let mut p: usize = 0;
                while p < order.len() && !rank_before_exec(
                    e,
                    installed_flags[i],
                    entries[order[p]],
                    installed_flags[order[p]],
                )
                    invariant
                        n == entries@.len(),
                        n == self.catalog.entry_map().values().len(),
                        installed_flags@.len() == n,
                        i < n,
                        e == entries@[i as int],
                        p <= order@.len(),
                        forall|k: int| 0 <= k < order@.len() ==> #[trigger] order@[k] < i,
                        forall|k: int| 0 <= k < p ==> !rank_before(ranks[i as int], ranks[#[trigger] order@[k] as int]),
                        forall|k: int| 0 <= k < n ==> *(#[trigger] entries@[k]) == self.catalog.entry_map().values()[k],
                        forall|k: int|
                            0 <= k < n ==> #[trigger] installed_flags@[k] == self.installed@.dom().contains(
                                self.catalog.entry_map().values()[k].key@,
                            ),
                        ranks == self.library_ranks(),
                    decreases order.len() - p,
                {
                    assert(ranks[i as int] == library_rank(*entries@[i as int], installed_flags@[i as int]));
                    let ghost q = order[p as int] as int;
                    assert(ranks[q] == library_rank(*entries@[q], installed_flags@[q]));
                    p = p + 1;
                }
                let ghost before = order@;
                order.insert(p, i);
                proof {
                    assert forall|k: int, l: int|
                        0 <= k < l < order@.len() implies listed_before(
                            ranks,
                            #[trigger] order@[k] as int,
                            #[trigger] order@[l] as int,
                        ) by {
                        let a = order@[k] as int;
                        let b = order@[l] as int;
                        if l < p {
                            assert(a == before[k] && b == before[l]);
                        } else if k > p {
                            assert(a == before[k - 1] && b == before[l - 1]);
                        } else if k == p {
                            // the new entry against a later one
                            assert(a == i);
                            assert(b == before[l - 1]);
                            assert(rank_before(ranks[i as int], ranks[before[p as int] as int]));
                            if l - 1 > p {
                                assert(listed_before(ranks, before[p as int] as int, b));
                                lemma_rank_order(ranks[i as int], ranks[before[p as int] as int], ranks[b]);
                                lemma_rank_order(ranks[before[p as int] as int], ranks[b], ranks[i as int]);
                            }
                        } else {
                            // an earlier one against the new entry or a later one
                            assert(a == before[k]);
                            if l == p {
                                assert(b == i);
                                assert(!rank_before(ranks[i as int], ranks[a]));
                                lemma_rank_order(ranks[a], ranks[i as int], ranks[a]);
                            } else {
                                assert(b == before[l - 1]);
                            }
                        }
                    }
                    assert forall|j: int| 0 <= j < i + 1 && shown[j] implies #[trigger] order@.contains(j as usize) by {
                        if j < i {
                            assert(before.contains(j as usize));
                            let k = choose|k: int| 0 <= k < before.len() && before[k] == j as usize;
                            if k < p {
                                assert(order@[k] == j as usize);
                            } else {
                                assert(order@[k + 1] == j as usize);
                            }
                        } else {
                            assert(order@[p as int] == i);
                        }
                    }
                }
            }
            i = i + 1;
        }
        order
    }
}

/// The library order by the packs' own fields: of two packs listed one before the other,
/// the later is never the featured pack unless the earlier is too; with the same featured
/// standing, the later is never installed unless the earlier is; and with both of those
/// equal, the earlier has the smaller English language name, or the same one and the smaller
/// name, or the same name too and the smaller quality (or is the same in all of these).
pub proof fn law_library_order_by_fields(
    session: Session,
    order: Seq<usize>,
    language: Seq<char>,
    installed_only: bool,
    search: Seq<char>,
)
    requires
        is_library_order(
            order,
            session.library_ranks(),
            session.library_shown(language, installed_only, search),
        ),
    ensures
        forall|k: int, l: int|
            0 <= k < l < order.len() ==> {
                let a = session.catalog.entry_map().values()[#[trigger] order[k] as int];
                let b = session.catalog.entry_map().values()[#[trigger] order[l] as int];
                let ia = session.installed@.dom().contains(a.key@);
                let ib = session.installed@.dom().contains(b.key@);
                let fa = a.key@ == FEATURED_VOICE@;
                let fb = b.key@ == FEATURED_VOICE@;
                &&& fb ==> fa
                &&& fa == fb && ib ==> ia
                &&& fa == fb && ia == ib && a.language.name_english@ != b.language.name_english@
                    ==> lex_lt(a.language.name_english@, b.language.name_english@)
                &&& fa == fb && ia == ib && a.language.name_english@ == b.language.name_english@
                    && a.name@ != b.name@ ==> lex_lt(a.name@, b.name@)
                &&& fa == fb && ia == ib && a.language.name_english@ == b.language.name_english@
                    && a.name@ == b.name@ && a.quality@ != b.quality@ ==> lex_lt(
                    a.quality@,
                    b.quality@,
                )
            },
{
    let ranks = session.library_ranks();
    assert forall|k: int, l: int| 0 <= k < l < order.len() implies {
        let a = session.catalog.entry_map().values()[#[trigger] order[k] as int];
        let b = session.catalog.entry_map().values()[#[trigger] order[l] as int];
        let ia = session.installed@.dom().contains(a.key@);
        let ib = session.installed@.dom().contains(b.key@);
        let fa = a.key@ == FEATURED_VOICE@;
        let fb = b.key@ == FEATURED_VOICE@;
        &&& fb ==> fa
        &&& fa == fb && ib ==> ia
        &&& fa == fb && ia == ib && a.language.name_english@ != b.language.name_english@
            ==> lex_lt(a.language.name_english@, b.language.name_english@)
        &&& fa == fb && ia == ib && a.language.name_english@ == b.language.name_english@
            && a.name@ != b.name@ ==> lex_lt(a.name@, b.name@)
        &&& fa == fb && ia == ib && a.language.name_english@ == b.language.name_english@
            && a.name@ == b.name@ && a.quality@ != b.quality@ ==> lex_lt(a.quality@, b.quality@)
    } by {
        let i = order[k] as int;
        let j = order[l] as int;
        assert(listed_before(ranks, i, j));
        let a = session.catalog.entry_map().values()[i];
        let b = session.catalog.entry_map().values()[j];
        assert(ranks[i] == library_rank(a, session.installed@.dom().contains(a.key@)));
        assert(ranks[j] == library_rank(b, session.installed@.dom().contains(b.key@)));
    }
}

} // verus!
