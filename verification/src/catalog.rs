//! The voice catalog: voice packs, their files and speakers, and the voices found on disk.

use vstd::prelude::*;

use crate::strmap::{strictly_sorted, StrMap};
use crate::text::{
    ascii_lowercase, ascii_lowercase_chars, chars_contain, contains_seq,
    chars_of, decimal, ends_with, push_decimal, push_str, replace_char, replace_char_with,
    str_ends_with, str_eq, lex_lt,
};

verus! {

/// Where the official catalog is downloaded from.
pub const CATALOG_URL: &'static str =
    "https://huggingface.co/rhasspy/piper-voices/resolve/main/voices.json?download=true";

/// The base address of the voice files named in the catalog.
pub const FILE_BASE_URL: &'static str = "https://huggingface.co/rhasspy/piper-voices/resolve/main";

/// The recommended many-speaker English pack.
pub const FEATURED_VOICE: &'static str = "en_US-libritts_r-medium";

/// The language of a voice pack.
#[derive(Clone, Debug)]
pub struct VoiceLanguage {
    pub code: String,
    pub family: String,
    pub region: String,
    pub name_native: String,
    pub name_english: String,
    pub country_english: String,
}

/// A file of a voice pack: its size and its MD5 digest as published in the catalog.
#[derive(Clone, Debug)]
pub struct VoiceFile {
    pub size_bytes: u64,
    pub md5_digest: String,
}

/// A voice pack of the catalog.
#[derive(Clone, Debug)]
pub struct VoiceEntry {
    pub key: String,
    pub name: String,
    pub language: VoiceLanguage,
    pub quality: String,
    pub num_speakers: u32,
    /// Speaker labels to speaker numbers.
    pub speaker_id_map: StrMap<u32>,
    /// Relative file paths to their metadata.
    pub files: StrMap<VoiceFile>,
    pub aliases: Vec<String>,
}

/// The catalog of voice packs, keyed by pack name.
#[derive(Clone, Debug)]
pub struct VoiceCatalog {
    entries: StrMap<VoiceEntry>,
}

/// A voice pack found installed on disk.
#[derive(Clone, Debug)]
pub struct InstalledVoice {
    pub key: String,
    pub model_path: String,
    pub config_path: String,
    pub model_card_path: Option<String>,
    pub speaker_id_map: StrMap<u32>,
    pub num_speakers: u32,
}

/// The speaker settings read from an installed model's own configuration file.
#[derive(Debug)]
pub struct LocalVoiceConfig {
    pub num_speakers: u32,
    pub speaker_id_map: StrMap<u32>,
}

/// The files of an installed voice directory that matter: the model, its configuration and
/// its model card.
#[derive(Clone, Debug)]
pub struct VoiceFiles {
    pub model_path: Option<String>,
    pub config_path: Option<String>,
    pub model_card_path: Option<String>,
}

// ---------------------------------------------------------------- file kinds

/// A model file ends with `.onnx`.
pub open spec fn is_model_path(p: Seq<char>) -> bool {
    ends_with(p, ".onnx"@)
}

/// A model configuration ends with `.onnx.json`.
pub open spec fn is_config_path(p: Seq<char>) -> bool {
    ends_with(p, ".onnx.json"@)
}

/// A model card ends with `MODEL_CARD`.
pub open spec fn is_card_path(p: Seq<char>) -> bool {
    ends_with(p, "MODEL_CARD"@)
}

/// The files a voice needs: model, configuration and model card.
pub open spec fn is_needed_file(p: Seq<char>) -> bool {
    is_model_path(p) || is_config_path(p) || is_card_path(p)
}

/// The installation order of the needed files: model first, then configuration, then card.
pub open spec fn file_rank(p: Seq<char>) -> nat {
    if is_model_path(p) {
        0
    } else if is_config_path(p) {
        1
    } else {
        2
    }
}

/// The files of a map as (path, metadata) pairs, in key order.
pub open spec fn file_list(files: StrMap<VoiceFile>) -> Seq<(Seq<char>, VoiceFile)> {
    Seq::new(files.keys().len(), |i: int| (files.keys()[i], files.values()[i]))
}

/// The needed files of `files` with the given rank, in their order.
pub open spec fn files_of_rank(files: Seq<(Seq<char>, VoiceFile)>, rank: nat) -> Seq<
    (Seq<char>, VoiceFile),
>
    decreases files.len(),
{
    if files.len() == 0 {
        Seq::empty()
    } else {
        files_of_rank(files.drop_last(), rank) + (if is_needed_file(files.last().0) && file_rank(
            files.last().0,
        ) == rank {
            seq![files.last()]
        } else {
            Seq::empty()
        })
    }
}

/// The needed files, model first, configuration next, model card last; within a kind in
/// key order.
pub open spec fn model_file_list(files: Seq<(Seq<char>, VoiceFile)>) -> Seq<(Seq<char>, VoiceFile)> {
    files_of_rank(files, 0) + files_of_rank(files, 1) + files_of_rank(files, 2)
}

/// The needed files of ranks below `n`, lower ranks first.
pub open spec fn files_below_rank(files: Seq<(Seq<char>, VoiceFile)>, n: nat) -> Seq<
    (Seq<char>, VoiceFile),
>
    decreases n,
{
    if n == 0 {
        Seq::empty()
    } else {
        files_below_rank(files, (n - 1) as nat) + files_of_rank(files, (n - 1) as nat)
    }
}

/// A list of borrowed (path, metadata) pairs holds exactly the given files.
pub open spec fn lists_files(r: Seq<(&str, &VoiceFile)>, files: Seq<(Seq<char>, VoiceFile)>) -> bool {
    &&& r.len() == files.len()
    &&& forall|i: int|
        0 <= i < r.len() ==> (#[trigger] r[i]).0@ == files[i].0 && *r[i].1 == files[i].1
}

/// The size of the first model file (in key order), or zero if there is none.
pub open spec fn first_model_size(files: Seq<(Seq<char>, VoiceFile)>) -> u64
    decreases files.len(),
{
    if files.len() == 0 {
        0
    } else if is_model_path(files[0].0) {
        files[0].1.size_bytes
    } else {
        first_model_size(files.drop_first())
    }
}

/// The first label (in key order) mapped to `id`, if any.
pub open spec fn first_label(labels: Seq<Seq<char>>, ids: Seq<u32>, id: u32) -> Option<Seq<char>>
    decreases labels.len(),
{
    if labels.len() == 0 || ids.len() == 0 {
        None
    } else if ids[0] == id {
        Some(labels[0])
    } else {
        first_label(labels.drop_first(), ids.drop_first(), id)
    }
}

proof fn lemma_first_model_size_skip(files: Seq<(Seq<char>, VoiceFile)>, i: int)
    requires
        0 <= i <= files.len(),
        forall|k: int| 0 <= k < i ==> !is_model_path(#[trigger] files[k].0),
    ensures
        first_model_size(files) == first_model_size(files.skip(i)),
    decreases i,
{
    if i > 0 {
        assert(files.drop_first().skip(i - 1) == files.skip(i));
        lemma_first_model_size_skip(files.drop_first(), i - 1);
    } else {
        assert(files.skip(0) == files);
    }
}

proof fn lemma_first_label_skip(labels: Seq<Seq<char>>, ids: Seq<u32>, id: u32, i: int)
    requires
        labels.len() == ids.len(),
        0 <= i <= labels.len(),
        forall|k: int| 0 <= k < i ==> #[trigger] ids[k] != id,
    ensures
        first_label(labels, ids, id) == first_label(labels.skip(i), ids.skip(i), id),
    decreases i,
{
    if i > 0 {
        assert(labels.drop_first().skip(i - 1) == labels.skip(i));
        assert(ids.drop_first().skip(i - 1) == ids.skip(i));
        lemma_first_label_skip(labels.drop_first(), ids.drop_first(), id, i - 1);
    } else {
        assert(labels.skip(0) == labels);
        assert(ids.skip(0) == ids);
    }
}

/// A label that `first_label` finds is mapped to the requested number; when it finds none,
/// no label is.
proof fn lemma_first_label_sound(labels: Seq<Seq<char>>, ids: Seq<u32>, id: u32)
    requires
        labels.len() == ids.len(),
    ensures
        first_label(labels, ids, id) matches Some(l) ==> exists|k: int|
            0 <= k < labels.len() && labels[k] == l && ids[k] == id,
        first_label(labels, ids, id) is None ==> forall|k: int|
            0 <= k < ids.len() ==> ids[k] != id,
    decreases labels.len(),
{
    if labels.len() > 0 && ids[0] != id {
        lemma_first_label_sound(labels.drop_first(), ids.drop_first(), id);
        if let Some(l) = first_label(labels, ids, id) {
            let k = choose|k: int|
                0 <= k < labels.drop_first().len() && labels.drop_first()[k] == l
                    && ids.drop_first()[k] == id;
            assert(labels[k + 1] == l && ids[k + 1] == id);
        } else {
            assert forall|k: int| 0 <= k < ids.len() implies ids[k] != id by {
                if k > 0 {
                    assert(ids[k] == ids.drop_first()[k - 1]);
                }
            }
        }
    }
}

// ---------------------------------------------------------------- voice entries

impl VoiceFile {
    /// A copy of the file's metadata.
    pub fn duplicate(&self) -> (r: VoiceFile)
        ensures
            r == *self,
    {
        VoiceFile { size_bytes: self.size_bytes, md5_digest: self.md5_digest.clone() }
    }
}

impl VoiceEntry {
    /// The name shown in the voice picker.
    pub open spec fn spec_display_name(&self) -> Seq<char> {
        if self.key@ == FEATURED_VOICE@ {
            "English Mega Pack · "@ + decimal(self.num_speakers as nat) + " voices"@
        } else if self.num_speakers > 1 {
            replace_char(self.name@, '_', " "@) + " · "@ + decimal(self.num_speakers as nat)
                + " voices"@
        } else {
            replace_char(self.name@, '_', " "@)
        }
    }

    /// The name shown in the voice picker: the featured pack is announced with its number of
    /// voices; other packs show their name with underscores as spaces, followed by the
    /// number of voices when there are several.
    pub fn display_name(&self) -> (r: String)
        ensures
            r@ == self.spec_display_name(),
    {
        if str_eq(self.key.as_str(), FEATURED_VOICE) {
            let mut r = String::new();
            push_str(&mut r, "English Mega Pack · ");
            push_decimal(&mut r, self.num_speakers as u128);
            push_str(&mut r, " voices");
            assert(r@ =~= self.spec_display_name());
            return r;
        }
        let mut r = replace_char_with(self.name.as_str(), '_', " ");
        if self.num_speakers > 1 {
            push_str(&mut r, " · ");
            push_decimal(&mut r, self.num_speakers as u128);
            push_str(&mut r, " voices");
        }
        r
    }

    /// The one-line description under a pack's name.
    pub open spec fn spec_compact_details(&self) -> Seq<char> {
        self.language.name_english@ + " ("@ + replace_char(self.language.code@, '_', "-"@)
            + ") · "@ + replace_char(self.quality@, '_', " "@)
    }

    /// The language in English, the language code with `-` for `_`, and the quality with
    /// spaces for underscores, as `English (en-US) · medium`.
    pub fn compact_details(&self) -> (r: String)
        ensures
            r@ == self.spec_compact_details(),
    {
        let mut r = String::new();
        push_str(&mut r, self.language.name_english.as_str());
        push_str(&mut r, " (");
        let code = replace_char_with(self.language.code.as_str(), '_', "-");
        push_str(&mut r, code.as_str());
        push_str(&mut r, ") · ");
        let quality = replace_char_with(self.quality.as_str(), '_', " ");
        push_str(&mut r, quality.as_str());
        assert(r@ =~= self.spec_compact_details());
        r
    }

    /// The size of the pack's model: that of its first `.onnx` file in path order, or zero.
    pub fn model_size_bytes(&self) -> (n: u64)
        ensures
            n == first_model_size(file_list(self.files)),
    {
        let ghost files = file_list(self.files);
        let count = self.files.len();
        let mut i: usize = 0;
        while i < count
            invariant
                count == self.files.keys().len(),
                count == self.files.values().len(),
                files == file_list(self.files),
                i <= count,
                forall|k: int| 0 <= k < i ==> !is_model_path(#[trigger] files[k].0),
            decreases count - i,
        {
            if str_ends_with(self.files.key_at(i).as_str(), ".onnx") {
                proof {
                    lemma_first_model_size_skip(files, i as int);
                }
                return self.files.value_at(i).size_bytes;
            }
            i = i + 1;
        }
        proof {
            lemma_first_model_size_skip(files, i as int);
        }
        0
    }

    /// The files to install: the model files, then the configurations, then the model
    /// cards, each kind in path order; other files are left out.
    pub fn model_files(&self) -> (r: Vec<(&str, &VoiceFile)>)
        ensures
            lists_files(r@, model_file_list(file_list(self.files))),
    {
        let ghost files = file_list(self.files);
        let count = self.files.len();
        let mut r: Vec<(&str, &VoiceFile)> = Vec::new();
        let mut rank: usize = 0;
        while rank < 3
            invariant
                count == self.files.keys().len(),
                count == self.files.values().len(),
                files == file_list(self.files),
                rank <= 3,
                lists_files(r@, files_below_rank(files, rank as nat)),
            decreases 3 - rank,
        {
            let ghost done = files_below_rank(files, rank as nat);
            let mut i: usize = 0;
            while i < count
                invariant
                    count == self.files.keys().len(),
                    count == self.files.values().len(),
                    files == file_list(self.files),
                    rank < 3,
                    i <= count,
                    done == files_below_rank(files, rank as nat),
                    lists_files(r@, done + files_of_rank(files.take(i as int), rank as nat)),
                decreases count - i,
            {
                let path = self.files.key_at(i);
                let meta = self.files.value_at(i);
                let is_model = str_ends_with(path.as_str(), ".onnx");
                let is_config = str_ends_with(path.as_str(), ".onnx.json");
                let is_card = str_ends_with(path.as_str(), "MODEL_CARD");
                let this_rank: usize = if is_model {
                    0
                } else if is_config {
                    1
                } else {
                    2
                };
                let ghost prev = done + files_of_rank(files.take(i as int), rank as nat);
                assert(files.take(i + 1).drop_last() == files.take(i as int));
                assert(files.take(i + 1).last() == files[i as int]);
                if (is_model || is_config || is_card) && this_rank == rank {
                    r.push((path.as_str(), meta));
                    assert(done + files_of_rank(files.take(i + 1), rank as nat) == prev.push(
                        files[i as int],
                    ));
                } else {
                    assert(done + files_of_rank(files.take(i + 1), rank as nat) =~= prev);
                }
                i = i + 1;
            }
            assert(files.take(count as int) == files);
            rank = rank + 1;
        }
        proof {
            reveal_with_fuel(files_below_rank, 4);
            assert(Seq::<(Seq<char>, VoiceFile)>::empty() + files_of_rank(files, 0) =~= files_of_rank(
                files,
                0,
            ));
        }
        assert(files_below_rank(files, 3) =~= model_file_list(files));
        r
    }

    /// Whether the pack matches a library search: `search` (already trimmed and in lower
    /// case) is empty, or occurs, ASCII letter case aside, in the pack's displayed name, its
    /// language's English or native name, or its key.
    pub open spec fn spec_matches_search(&self, search: Seq<char>) -> bool {
        ||| search.len() == 0
        ||| contains_seq(ascii_lowercase(self.spec_display_name()), search)
        ||| contains_seq(ascii_lowercase(self.language.name_english@), search)
        ||| contains_seq(ascii_lowercase(self.language.name_native@), search)
        ||| contains_seq(ascii_lowercase(self.key@), search)
    }

    /// Whether the pack matches the library search `search`.
    pub fn matches_search(&self, search: &str) -> (r: bool)
        ensures
            r == self.spec_matches_search(search@),
    {
        let needle = chars_of(search);
        if needle.len() == 0 {
            return true;
        }
        let shown = self.display_name();
        if chars_contain(&ascii_lowercase_chars(shown.as_str()), &needle) {
            return true;
        }
        if chars_contain(&ascii_lowercase_chars(self.language.name_english.as_str()), &needle) {
            return true;
        }
        if chars_contain(&ascii_lowercase_chars(self.language.name_native.as_str()), &needle) {
            return true;
        }
        chars_contain(&ascii_lowercase_chars(self.key.as_str()), &needle)
    }

    /// The text shown for speaker `speaker_id`.
    pub open spec fn spec_speaker_label(&self, speaker_id: u32) -> Seq<char> {
        match first_label(self.speaker_id_map.keys(), self.speaker_id_map.values(), speaker_id) {
            Some(label) => label,
            None => "Voice "@ + decimal(speaker_id as nat + 1),
        }
    }

    /// The label of speaker `speaker_id`: the first label in label order that the speaker
    /// table maps to it, or `Voice n` numbered from one.
    pub fn speaker_label(&self, speaker_id: u32) -> (r: String)
        requires
            first_label(self.speaker_id_map.keys(), self.speaker_id_map.values(), speaker_id)
                is Some || speaker_id < u32::MAX,
        ensures
            r@ == self.spec_speaker_label(speaker_id),
    {
        let ghost labels = self.speaker_id_map.keys();
        let ghost ids = self.speaker_id_map.values();
        let count = self.speaker_id_map.len();
        let mut i: usize = 0;
        while i < count
            invariant
                labels == self.speaker_id_map.keys(),
                ids == self.speaker_id_map.values(),
                count == labels.len(),
                count == ids.len(),
                i <= count,
                forall|k: int| 0 <= k < i ==> #[trigger] ids[k] != speaker_id,
            decreases count - i,
        {
            if *self.speaker_id_map.value_at(i) == speaker_id {
                proof {
                    lemma_first_label_skip(labels, ids, speaker_id, i as int);
                }
                return self.speaker_id_map.key_at(i).clone();
            }
            i = i + 1;
        }
        proof {
            lemma_first_label_skip(labels, ids, speaker_id, i as int);
        }
        let mut r = String::new();
        push_str(&mut r, "Voice ");
        push_decimal(&mut r, speaker_id as u128 + 1);
        r
    }
}

/// A speaker is shown under a label that the pack's speaker table maps to it; the numbered
/// `Voice n` is shown only for a speaker that no label maps to.
pub proof fn law_speaker_label_names_its_speaker(entry: VoiceEntry, speaker_id: u32)
    ensures
        (exists|k: int|
            0 <= k < entry.speaker_id_map.keys().len()
                && #[trigger] entry.speaker_id_map.keys()[k] == entry.spec_speaker_label(speaker_id)
                && entry.speaker_id_map.values()[k] == speaker_id) || ((forall|k: int|
            0 <= k < entry.speaker_id_map.values().len() ==> #[trigger] entry.speaker_id_map.values()[k]
                != speaker_id) && entry.spec_speaker_label(speaker_id) == "Voice "@ + decimal(
            speaker_id as nat + 1,
        )),
{
    entry.speaker_id_map.lemma_lengths();
    lemma_first_label_sound(entry.speaker_id_map.keys(), entry.speaker_id_map.values(), speaker_id);
}

// ---------------------------------------------------------------- the catalog

/// The contents of a list of strings.
pub open spec fn string_views(v: Seq<String>) -> Seq<Seq<char>> {
    Seq::new(v.len(), |i: int| v[i]@)
}

/// The English language names of the packs of a catalog.
pub open spec fn language_names(entries: StrMap<VoiceEntry>) -> Set<Seq<char>> {
    Set::new(
        |n: Seq<char>|
            exists|i: int|
                0 <= i < entries.values().len() && #[trigger] entries.values()[i].language.name_english@
                    == n,
    )
}

spec fn language_names_upto(entries: StrMap<VoiceEntry>, k: int) -> Set<Seq<char>> {
    Set::new(
        |n: Seq<char>|
            exists|i: int|
                0 <= i < k && #[trigger] entries.values()[i].language.name_english@ == n,
    )
}

impl VoiceCatalog {
    /// The packs of the catalog, keyed by pack name.
    pub closed spec fn entry_map(&self) -> StrMap<VoiceEntry> {
        self.entries
    }

    /// A catalog of the given packs; an empty one is refused.
    pub fn from_entries(entries: StrMap<VoiceEntry>) -> (r: Result<Self, String>)
        ensures
            r is Err <==> entries.keys().len() == 0,
            r matches Err(e) ==> e@ == "The voice catalog is empty"@,
            r matches Ok(c) ==> c.entry_map() == entries,
    {
        if entries.is_empty() {
            return Err(String::from_str("The voice catalog is empty"));
        }
        Ok(VoiceCatalog { entries })
    }

    /// The catalog to start with: the cached copy when it could be read and is not empty,
    /// otherwise the bundled one. `cached` is `None` when the cached copy could not be read
    /// or decoded; `bundled` is the decoded bundled catalog or the error of decoding it.
    pub fn load(cached: Option<StrMap<VoiceEntry>>, bundled: Result<StrMap<VoiceEntry>, String>) -> (r:
        Result<Self, String>)
        ensures
            match cached {
                Some(c) if c.keys().len() > 0 => r matches Ok(cat) && cat.entry_map() == c,
                _ => match bundled {
                    Ok(b) => {
                        &&& (r is Err <==> b.keys().len() == 0)
                        &&& (r matches Err(e) ==> e@ == "The voice catalog is empty"@)
                        &&& (r matches Ok(cat) ==> cat.entry_map() == b)
                    },
                    Err(e) => r == Err::<Self, String>(e),
                },
            },
    {
        if let Some(c) = cached {
            if !c.is_empty() {
                return Ok(VoiceCatalog { entries: c });
            }
        }
        match bundled {
            Ok(b) => Self::from_entries(b),
            Err(e) => Err(e),
        }
    }

    /// The pack named `key`, if the catalog has it.
    pub fn get(&self, key: &str) -> (r: Option<&VoiceEntry>)
        ensures
            r is Some <==> self.entry_map()@.dom().contains(key@),
            r matches Some(e) ==> *e == self.entry_map()@[key@],
    {
        self.entries.get(key)
    }

    /// The packs, in pack-name order.
    pub fn entries(&self) -> (r: Vec<&VoiceEntry>)
        ensures
            r@.len() == self.entry_map().values().len(),
            r@.len() == self.entry_map().keys().len(),
            strictly_sorted(self.entry_map().keys()),
            forall|i: int| 0 <= i < r@.len() ==> *(#[trigger] r@[i]) == self.entry_map().values()[i],
            forall|i: int|
                0 <= i < r@.len() ==> self.entry_map()@.dom().contains(
                    #[trigger] self.entry_map().keys()[i],
                ),
            forall|i: int|
                0 <= i < r@.len() ==> *(#[trigger] r@[i]) == self.entry_map()@[self.entry_map().keys()[i]],
    {
        let n = self.entries.len();
        let mut r: Vec<&VoiceEntry> = Vec::new();
        let mut i: usize = 0;
        while i < n
            invariant
                n == self.entries.values().len(),
                i <= n,
                r@.len() == i,
                forall|k: int| 0 <= k < i ==> *(#[trigger] r@[k]) == self.entries.values()[k],
            decreases n - i,
        {
            r.push(self.entries.value_at(i));
            i = i + 1;
        }
        proof {
            assert forall|k: int| 0 <= k < r@.len() implies self.entries@.dom().contains(
                #[trigger] self.entries.keys()[k],
            ) && *r@[k] == self.entries@[self.entries.keys()[k]] by {
                self.entries.lemma_lookup(k);
            }
        }
        r
    }

    /// The number of packs.
    pub fn len(&self) -> (n: usize)
        ensures
            n == self.entry_map().keys().len(),
            n == self.entry_map()@.dom().len(),
    {
        let n = self.entries.len();
        proof {
            self.entries.lemma_dom_len();
        }
        n
    }

    /// The languages (in English) of the packs, each once, in ascending order.
    pub fn languages(&self) -> (r: Vec<String>)
        ensures
            strictly_sorted(string_views(r@)),
            string_views(r@).to_set() == language_names(self.entry_map()),
            r@.len() <= self.entry_map().keys().len(),
    {
        let n = self.entries.len();
        let mut names: StrMap<()> = StrMap::new();
        let mut i: usize = 0;
        assert(names.keys().to_set() =~= language_names_upto(self.entries, 0));
        while i < n
            invariant
                n == self.entries.values().len(),
                i <= n,
                names.keys().to_set() == language_names_upto(self.entries, i as int),
                names.keys().len() <= i,
            decreases n - i,
        {
            let name = self.entries.value_at(i).language.name_english.clone();
            let ghost nv = name@;
            names.insert(name, ());
            proof {
                assert(names.keys().to_set() =~= language_names_upto(self.entries, i + 1)) by {
                    assert forall|m: Seq<char>| #[trigger] language_names_upto(self.entries, i + 1).contains(m)
                        implies names.keys().to_set().contains(m) by {
                        let k = choose|k: int|
                            0 <= k < i + 1 && #[trigger] self.entries.values()[k].language.name_english@
                                == m;
                        if k < i {
                            assert(language_names_upto(self.entries, i as int).contains(m));
                        }
                    }
                    assert forall|m: Seq<char>| names.keys().to_set().contains(m)
                        implies #[trigger] language_names_upto(self.entries, i + 1).contains(m) by {
                        if m != nv {
                            assert(language_names_upto(self.entries, i as int).contains(m));
                            let k = choose|k: int|
                                0 <= k < i && #[trigger] self.entries.values()[k].language.name_english@
                                    == m;
                            assert(0 <= k < i + 1);
                        } else {
                            assert(self.entries.values()[i as int].language.name_english@ == m);
                        }
                    }
                }
            }
            i = i + 1;
        }
        let r = names.key_list();
        assert(string_views(r@) =~= names.keys());
        assert(language_names_upto(self.entries, n as int) =~= language_names(self.entries));
        r
    }
}

impl Default for VoiceCatalog {
    /// An empty catalog.
    fn default() -> (c: Self)
        ensures
            c.entry_map().keys().len() == 0,
    {
        VoiceCatalog { entries: StrMap::new() }
    }
}

// ---------------------------------------------------------------- installed voices

/// The contents of an optional string.
pub open spec fn opt_view(o: Option<String>) -> Option<Seq<char>> {
    match o {
        Some(s) => Some(s@),
        None => None,
    }
}

/// What a file of an installed voice directory is, by its name: a model (0), a model
/// configuration (1), the model card (2), or something else (3).
pub open spec fn installed_file_kind(name: Seq<char>) -> nat {
    if is_model_path(name) {
        0
    } else if is_config_path(name) {
        1
    } else if name == "MODEL_CARD"@ {
        2
    } else {
        3
    }
}

/// The path of the last listed file (name, path) of the given kind.
pub open spec fn last_file_of_kind(files: Seq<(String, String)>, kind: nat) -> Option<Seq<char>>
    decreases files.len(),
{
    if files.len() == 0 {
        None
    } else if installed_file_kind(files.last().0@) == kind {
        Some(files.last().1@)
    } else {
        last_file_of_kind(files.drop_last(), kind)
    }
}

/// Picks, from the (name, path) listing of a voice directory, the model, the model
/// configuration and the model card; where several files qualify, the last one listed wins.
pub fn classify_voice_files(files: &Vec<(String, String)>) -> (r: VoiceFiles)
    ensures
        opt_view(r.model_path) == last_file_of_kind(files@, 0),
        opt_view(r.config_path) == last_file_of_kind(files@, 1),
        opt_view(r.model_card_path) == last_file_of_kind(files@, 2),
{
    let mut model_path: Option<String> = None;
    let mut config_path: Option<String> = None;
    let mut model_card_path: Option<String> = None;
    let mut i: usize = 0;
    while i < files.len()
        invariant
            i <= files@.len(),
            opt_view(model_path) == last_file_of_kind(files@.take(i as int), 0),
            opt_view(config_path) == last_file_of_kind(files@.take(i as int), 1),
            opt_view(model_card_path) == last_file_of_kind(files@.take(i as int), 2),
        decreases files.len() - i,
    {
        let name = files[i].0.as_str();
        let path = &files[i].1;
        assert(files@.take(i + 1).drop_last() == files@.take(i as int));
        assert(files@.take(i + 1).last() == files@[i as int]);
        if str_ends_with(name, ".onnx") {
            model_path = Some(path.clone());
        } else if str_ends_with(name, ".onnx.json") {
            config_path = Some(path.clone());
        } else if str_eq(name, "MODEL_CARD") {
            model_card_path = Some(path.clone());
        }
        i = i + 1;
    }
    assert(files@.take(files@.len() as int) == files@);
    VoiceFiles { model_path, config_path, model_card_path }
}

/// The speaker table an installed voice gets: that of its catalog pack, else that of its own
/// configuration, else none (`None`).
pub open spec fn chosen_speaker_table(
    key: Seq<char>,
    catalog: VoiceCatalog,
    local: Option<LocalVoiceConfig>,
) -> Option<StrMap<u32>> {
    if catalog.entry_map()@.dom().contains(key) {
        Some(catalog.entry_map()@[key].speaker_id_map)
    } else {
        match local {
            Some(l) => Some(l.speaker_id_map),
            None => None,
        }
    }
}

/// The number of speakers an installed voice gets: that of its catalog pack, else that of its
/// own configuration, else one; never less than one.
pub open spec fn chosen_speaker_count(
    key: Seq<char>,
    catalog: VoiceCatalog,
    local: Option<LocalVoiceConfig>,
) -> u32 {
    let n: u32 = if catalog.entry_map()@.dom().contains(key) {
        catalog.entry_map()@[key].num_speakers
    } else {
        match local {
            Some(l) => l.num_speakers,
            None => 1,
        }
    };
    if n < 1 {
        1
    } else {
        n
    }
}

impl InstalledVoice {
    /// A copy of the installed voice.
    pub fn duplicate(&self) -> (v: Self)
        ensures
            v.key == self.key,
            v.model_path == self.model_path,
            v.config_path == self.config_path,
            v.model_card_path == self.model_card_path,
            v.speaker_id_map.keys() == self.speaker_id_map.keys(),
            v.speaker_id_map.values() == self.speaker_id_map.values(),
            v.speaker_id_map@ == self.speaker_id_map@,
            v.num_speakers == self.num_speakers,
    {
        let model_card_path = match &self.model_card_path {
            Some(p) => Some(p.clone()),
            None => None,
        };
        InstalledVoice {
            key: self.key.clone(),
            model_path: self.model_path.clone(),
            config_path: self.config_path.clone(),
            model_card_path,
            speaker_id_map: self.speaker_id_map.duplicate(),
            num_speakers: self.num_speakers,
        }
    }

    /// The installed voice of directory `key`, from the files found in it, the catalog and
    /// the voice's own configuration (`None` when that could not be read); no voice when
    /// the model or its configuration is missing.
    pub fn assemble(
        key: String,
        files: VoiceFiles,
        catalog: &VoiceCatalog,
        local: Option<LocalVoiceConfig>,
    ) -> (r: Option<InstalledVoice>)
        ensures
            r is None <==> (files.model_path is None || files.config_path is None),
            r matches Some(v) ==> {
                &&& v.key@ == key@
                &&& Some(v.model_path) == files.model_path
                &&& Some(v.config_path) == files.config_path
                &&& v.model_card_path == files.model_card_path
                &&& v.num_speakers == chosen_speaker_count(key@, *catalog, local)
                &&& v.num_speakers >= 1
                &&& match chosen_speaker_table(key@, *catalog, local) {
                    Some(t) => v.speaker_id_map.keys() == t.keys() && v.speaker_id_map.values()
                        == t.values(),
                    None => v.speaker_id_map.keys().len() == 0,
                }
            },
    {
        let model_path = match files.model_path {
            Some(p) => p,
            None => return None,
        };
        let config_path = match files.config_path {
            Some(p) => p,
            None => return None,
        };
        let (speaker_id_map, count) = match catalog.get(key.as_str()) {
            Some(entry) => (entry.speaker_id_map.duplicate(), entry.num_speakers),
            None => match local {
                Some(l) => (l.speaker_id_map, l.num_speakers),
                None => (StrMap::new(), 1),
            },
        };
        let num_speakers = if count < 1 {
            1
        } else {
            count
        };
        Some(
            InstalledVoice {
                key,
                model_path,
                config_path,
                model_card_path: files.model_card_path,
                speaker_id_map,
                num_speakers,
            },
        )
    }
}

/// `n` is the English name of the language of some pack of the catalog.
pub open spec fn names_a_pack_language(catalog: VoiceCatalog, n: Seq<char>) -> bool {
    exists|k: int|
        0 <= k < catalog.entry_map().values().len()
            && #[trigger] catalog.entry_map().values()[k].language.name_english@ == n
}

/// The language list holds English language names exactly: every listed name is the
/// English name of the language of some pack, and the English name of every pack's language
/// is listed.
pub proof fn law_languages_are_english_names(catalog: VoiceCatalog, names: Seq<Seq<char>>)
    requires
        names.to_set() == language_names(catalog.entry_map()),
    ensures
        forall|i: int| 0 <= i < names.len() ==> names_a_pack_language(catalog, #[trigger] names[i]),
        forall|k: int|
            0 <= k < catalog.entry_map().values().len() ==> names.contains(
                #[trigger] catalog.entry_map().values()[k].language.name_english@,
            ),
{
    assert forall|i: int| 0 <= i < names.len() implies names_a_pack_language(
        catalog,
        #[trigger] names[i],
    ) by {
        assert(names.to_set().contains(names[i]));
        let k = choose|k: int|
            0 <= k < catalog.entry_map().values().len()
                && #[trigger] catalog.entry_map().values()[k].language.name_english@ == names[i];
        assert(catalog.entry_map().values()[k].language.name_english@ == names[i]);
    }
    assert forall|k: int| 0 <= k < catalog.entry_map().values().len() implies names.contains(
        #[trigger] catalog.entry_map().values()[k].language.name_english@,
    ) by {
        let n = catalog.entry_map().values()[k].language.name_english@;
        assert(language_names(catalog.entry_map()).contains(n));
        assert(names.to_set().contains(n));
    }
}

/// Where an installed voice's speakers come from: for a pack of the catalog, the pack's
/// number of speakers (at least one) and its speaker table; for a voice the catalog lacks,
/// those of the voice's own configuration (at least one speaker) when it could be read;
/// otherwise one speaker and no table.
pub proof fn law_speakers_come_from_catalog_then_own_config(
    key: Seq<char>,
    catalog: VoiceCatalog,
    local: Option<LocalVoiceConfig>,
)
    ensures
        catalog.entry_map()@.dom().contains(key) ==> {
            let e = catalog.entry_map()@[key];
            &&& chosen_speaker_count(key, catalog, local) == (if e.num_speakers >= 1 {
                e.num_speakers
            } else {
                1
            })
            &&& chosen_speaker_table(key, catalog, local) == Some(e.speaker_id_map)
        },
        !catalog.entry_map()@.dom().contains(key) ==> match local {
            Some(l) => {
                &&& chosen_speaker_count(key, catalog, local) == (if l.num_speakers >= 1 {
                    l.num_speakers
                } else {
                    1
                })
                &&& chosen_speaker_table(key, catalog, local) == Some(l.speaker_id_map)
            },
            None => {
                &&& chosen_speaker_count(key, catalog, local) == 1
                &&& chosen_speaker_table(key, catalog, local) is None
            },
        },
{
}

/// What a search finds: an empty search finds every pack, and a pack is found when the
/// search text occurs (ASCII letter case aside) in its displayed name, in the English or the
/// native name of its language, or in its key.
pub proof fn law_search_finds_names_languages_and_keys(e: VoiceEntry, search: Seq<char>)
    ensures
        search.len() == 0 ==> e.spec_matches_search(search),
        contains_seq(ascii_lowercase(e.spec_display_name()), search) ==> e.spec_matches_search(search),
        contains_seq(ascii_lowercase(e.language.name_english@), search) ==> e.spec_matches_search(search),
        contains_seq(ascii_lowercase(e.language.name_native@), search) ==> e.spec_matches_search(search),
        contains_seq(ascii_lowercase(e.key@), search) ==> e.spec_matches_search(search),
{
}

} // verus!
