//! Installing a voice pack: which files to fetch, where they go, and when a fetched file is
//! accepted.

use vstd::prelude::*;

use crate::catalog::{
    chosen_speaker_count, chosen_speaker_table, file_list, file_rank, files_of_rank,
    installed_file_kind, is_config_path, is_model_path, is_needed_file, last_file_of_kind,
    model_file_list, LocalVoiceConfig, VoiceCatalog, VoiceEntry, VoiceFile, FILE_BASE_URL,
};
use crate::text::ends_with;
use crate::paths::{inside, join, join_path, lemma_join_inside};
use crate::text::{chars_of, decimal, push_chars, push_decimal, push_str, str_ends_with};

verus! {

// ---------------------------------------------------------------- catalog paths

/// The position of the last `/` in `p`, or -1.
pub open spec fn last_separator(p: Seq<char>) -> int
    decreases p.len(),
{
    if p.len() == 0 {
        -1
    } else if p.last() == '/' {
        p.len() - 1
    } else {
        last_separator(p.drop_last())
    }
}

/// Where the last separator stands, and that none follows it.
pub proof fn lemma_last_separator(p: Seq<char>)
    ensures
        -1 <= last_separator(p) < p.len(),
        last_separator(p) >= 0 ==> p[last_separator(p)] == '/',
        forall|k: int| last_separator(p) < k < p.len() ==> p[k] != '/',
    decreases p.len(),
{
    if p.len() > 0 && p.last() != '/' {
        lemma_last_separator(p.drop_last());
        assert forall|k: int| last_separator(p) < k < p.len() implies p[k] != '/' by {
            if k < p.len() - 1 {
                assert(p[k] == p.drop_last()[k]);
            }
        }
    }
}

/// The final component of a relative path as std's `Path::file_name` finds it: trailing
/// separators and `.` components are skipped; `None` when nothing is left.
pub open spec fn final_component(p: Seq<char>) -> Option<Seq<char>>
    decreases p.len(),
{
    if p.len() == 0 {
        None
    } else if p.last() == '/' {
        final_component(p.drop_last())
    } else {
        let k = last_separator(p) + 1;
        if p.skip(k) == seq!['.'] {
            proof {
                lemma_last_separator(p);
            }
            final_component(p.take(k))
        } else {
            Some(p.skip(k))
        }
    }
}

/// `p` has a `..` component somewhere.
pub open spec fn has_parent_component(p: Seq<char>) -> bool {
    exists|i: int|
        0 <= i && i + 2 <= p.len() && #[trigger] p[i] == '.' && p[i + 1] == '.' && (i == 0 || p[i
            - 1] == '/') && (i + 2 == p.len() || p[i + 2] == '/')
}

/// A catalog path that could leave the voice directory: absolute, starting with a `.`
/// component, or holding a `..` component (std's `Path` would show a component other than a
/// normal name).
pub open spec fn is_unsafe_path(p: Seq<char>) -> bool {
    ||| (p.len() > 0 && p[0] == '/')
    ||| p == seq!['.']
    ||| (p.len() >= 2 && p[0] == '.' && p[1] == '/')
    ||| has_parent_component(p)
}

/// The file name a catalog path is saved under, or why it is refused.
pub open spec fn spec_safe_file_name(p: Seq<char>) -> Result<Seq<char>, Seq<char>> {
    if is_unsafe_path(p) {
        Err("Unsafe catalog path: "@ + p)
    } else {
        match final_component(p) {
            Some(name) => Ok(name),
            None => Err("Catalog path has no filename: "@ + p),
        }
    }
}

fn find_parent_component(cs: &Vec<char>) -> (r: bool)
    ensures
        r == has_parent_component(cs@),
{
    let n = cs.len();
    let mut i: usize = 0;
    while n >= 2 && i <= n - 2
        invariant
            n == cs@.len(),
            forall|k: int|
                0 <= k < i ==> !(k + 2 <= cs@.len() && #[trigger] cs@[k] == '.' && cs@[k + 1] == '.'
                    && (k == 0 || cs@[k - 1] == '/') && (k + 2 == cs@.len() || cs@[k + 2] == '/')),
        decreases n - i,
    {
        if cs[i] == '.' && cs[i + 1] == '.' && (i == 0 || cs[i - 1] == '/') && (i + 2 == n || cs[i
            + 2] == '/') {
            return true;
        }
        i = i + 1;
    }
    false
}

/// The end of the final component of `cs[..end]` and where it starts, skipping trailing
/// separators and `.` components.
fn final_component_bounds(cs: &Vec<char>) -> (r: Option<(usize, usize)>)
    ensures
        match r {
            Some((a, b)) => a < b <= cs@.len() && final_component(cs@) == Some(
                cs@.subrange(a as int, b as int),
            ),
            None => final_component(cs@) is None,
        },
{
    let mut end: usize = cs.len();
    assert(cs@.take(end as int) == cs@);
    loop
        invariant
            end <= cs@.len(),
            final_component(cs@) == final_component(cs@.take(end as int)),
        decreases end,
    {
        let ghost p = cs@.take(end as int);
        if end == 0 {
            return None;
        }
        if cs[end - 1] == '/' {
            assert(p.drop_last() == cs@.take(end - 1));
            end = end - 1;
        } else {
            let mut start: usize = end - 1;
            while start > 0 && cs[start - 1] != '/'
                invariant
                    start < end <= cs@.len(),
                    p == cs@.take(end as int),
                    forall|k: int| start <= k < end ==> cs@[k] != '/',
                decreases start,
            {
                start = start - 1;
            }
            proof {
                lemma_last_separator(p);
                if start > 0 {
                    assert(p[start - 1] == '/');
                }
                assert(last_separator(p) + 1 == start);
                assert(p.skip(start as int) == cs@.subrange(start as int, end as int));
            }
            if end - start == 1 && cs[start] == '.' {
                assert(p.skip(start as int) =~= seq!['.']);
                assert(p.take(start as int) == cs@.take(start as int));
                end = start;
            } else {
                assert(p.skip(start as int).len() == end - start);
                assert(p.skip(start as int)[0] == cs@[start as int]);
                assert(p.skip(start as int) != seq!['.']);
                return Some((start, end));
            }
        }
    }
}

/// The name a catalog file is saved under: the final component of its relative path, if
/// the path cannot leave the voice directory.
pub fn safe_file_name(relative_path: &str) -> (r: Result<String, String>)
    ensures
        match spec_safe_file_name(relative_path@) {
            Ok(name) => r matches Ok(n) && n@ == name,
            Err(msg) => r matches Err(e) && e@ == msg,
        },
{
    let cs = chars_of(relative_path);
    let n = cs.len();
    let unsafe_path = (n > 0 && cs[0] == '/') || (n == 1 && cs[0] == '.') || (n >= 2 && cs[0]
        == '.' && cs[1] == '/') || find_parent_component(&cs);
    proof {
        if n == 1 && cs@[0] == '.' {
            assert(cs@ =~= seq!['.']);
        }
    }
    if unsafe_path {
        let mut e = String::from_str("Unsafe catalog path: ");
        push_str(&mut e, relative_path);
        return Err(e);
    }
    match final_component_bounds(&cs) {
        Some((a, b)) => {
            let mut name = String::new();
            push_chars(&mut name, &cs, a, b);
            assert(name@ =~= cs@.subrange(a as int, b as int));
            Ok(name)
        },
        None => {
            let mut e = String::from_str("Catalog path has no filename: ");
            push_str(&mut e, relative_path);
            Err(e)
        },
    }
}

/// `seg` is a whole, non-empty `/`-separated piece of `p` other than `.`.
pub open spec fn is_segment_of(p: Seq<char>, seg: Seq<char>) -> bool {
    &&& seg.len() > 0
    &&& seg != seq!['.']
    &&& forall|j: int| 0 <= j < seg.len() ==> seg[j] != '/'
    &&& exists|k: int|
        0 <= k && k + seg.len() <= p.len() && #[trigger] p.subrange(k, k + seg.len()) == seg && (k
            == 0 || p[k - 1] == '/') && (k + seg.len() == p.len() || p[k + seg.len()] == '/')
}

/// A component that `final_component` finds is a whole piece of the path.
pub proof fn lemma_final_component_is_segment(p: Seq<char>)
    ensures
        final_component(p) matches Some(seg) ==> is_segment_of(p, seg),
    decreases p.len(),
{
    if p.len() == 0 {
    } else if p.last() == '/' {
        lemma_final_component_is_segment(p.drop_last());
        if let Some(seg) = final_component(p) {
            let q = p.drop_last();
            assert(is_segment_of(q, seg));
            let k = choose|k: int|
                0 <= k && k + seg.len() <= q.len() && #[trigger] q.subrange(k, k + seg.len()) == seg
                    && (k == 0 || q[k - 1] == '/') && (k + seg.len() == q.len() || q[k + seg.len()]
                    == '/');
            assert(p.subrange(k, k + seg.len()) == seg);
            assert(k == 0 || p[k - 1] == '/');
            assert(p[k + seg.len()] == '/');
            assert(is_segment_of(p, seg));
        }
    } else {
        lemma_last_separator(p);
        let k = last_separator(p) + 1;
        if p.skip(k) == seq!['.'] {
            lemma_final_component_is_segment(p.take(k));
            if let Some(seg) = final_component(p) {
                let q = p.take(k);
                assert(final_component(p) == final_component(q));
                assert(is_segment_of(q, seg));
                let j = choose|j: int|
                    0 <= j && j + seg.len() <= q.len() && #[trigger] q.subrange(j, j + seg.len())
                        == seg && (j == 0 || q[j - 1] == '/') && (j + seg.len() == q.len() || q[j
                        + seg.len()] == '/');
                assert(p.subrange(j, j + seg.len()) == seg);
                assert(j == 0 || p[j - 1] == '/');
                assert(k > 0);
                assert(q[k - 1] == '/');
                assert(j + seg.len() < q.len()) by {
                    if j + seg.len() == q.len() {
                        assert(seg[seg.len() - 1] == q.subrange(j, j + seg.len())[seg.len() - 1]);
                    }
                }
                assert(p[j + seg.len()] == '/');
                assert(is_segment_of(p, seg));
            }
        } else {
            let seg = p.skip(k);
            assert(last_separator(p) != p.len() - 1);
            assert(seg.len() > 0);
            assert forall|j: int| 0 <= j < seg.len() implies seg[j] != '/' by {
                assert(seg[j] == p[k + j]);
            }
            assert(p.subrange(k, k + seg.len()) == seg);
            assert(k == 0 || p[k - 1] == '/');
            assert(is_segment_of(p, seg));
        }
    }
}

/// A name accepted for a catalog file is a single, non-empty, ordinary component: it holds
/// no separator and is neither `.` nor `..`, so a file saved under it stays in its directory.
pub proof fn law_safe_names_stay_in_place(p: Seq<char>)
    ensures
        spec_safe_file_name(p) matches Ok(name) ==> {
            &&& name.len() > 0
            &&& forall|j: int| 0 <= j < name.len() ==> name[j] != '/'
            &&& name != seq!['.']
            &&& name != seq!['.', '.']
        },
{
    lemma_final_component_is_segment(p);
    if let Ok(name) = spec_safe_file_name(p) {
        if name == seq!['.', '.'] {
            let k = choose|k: int|
                0 <= k && k + name.len() <= p.len() && #[trigger] p.subrange(k, k + name.len()) == name
                    && (k == 0 || p[k - 1] == '/') && (k + name.len() == p.len() || p[k + name.len()]
                    == '/');
            assert(p[k] == p.subrange(k, k + 2)[0]);
            assert(p[k + 1] == p.subrange(k, k + 2)[1]);
            assert(has_parent_component(p));
        }
    }
}

// ---------------------------------------------------------------- staging names

/// The position of the last `.` in `name`, or -1.
pub open spec fn last_dot(name: Seq<char>) -> int
    decreases name.len(),
{
    if name.len() == 0 {
        -1
    } else if name.last() == '.' {
        name.len() - 1
    } else {
        last_dot(name.drop_last())
    }
}

/// A file name has an extension (std's `Path::extension` is `Some`) when it is not `..` and
/// holds a `.` after its first character.
pub open spec fn has_extension(name: Seq<char>) -> bool {
    name != seq!['.', '.'] && last_dot(name) > 0
}

/// The name a file is downloaded under before it is checked: the destination with
/// `.partial` added after its extension, or `.download.partial` when it has none (std's
/// `Path::with_extension` applied to the extension followed by `.partial`).
pub open spec fn spec_partial_file_name(name: Seq<char>) -> Seq<char> {
    if has_extension(name) {
        name + ".partial"@
    } else {
        name + ".download.partial"@
    }
}

fn find_last_dot(cs: &Vec<char>) -> (r: usize)
    ensures
        r as int == last_dot(cs@) + 1,
{
    let mut i: usize = cs.len();
    assert(cs@.take(cs@.len() as int) == cs@);
    while i > 0 && cs[i - 1] != '.'
        invariant
            i <= cs@.len(),
            last_dot(cs@) == last_dot(cs@.take(i as int)),
        decreases i,
    {
        assert(cs@.take(i as int).drop_last() == cs@.take(i - 1));
        i = i - 1;
    }
    assert(i > 0 ==> cs@.take(i as int).last() == '.');
    i
}

/// The temporary name of a download of the file `name`.
pub fn partial_file_name(name: &str) -> (r: String)
    ensures
        r@ == spec_partial_file_name(name@),
{
    let cs = chars_of(name);
    let dot = find_last_dot(&cs);
    let is_parent = cs.len() == 2 && cs[0] == '.' && cs[1] == '.';
    proof {
        if cs@.len() == 2 && cs@[0] == '.' && cs@[1] == '.' {
            assert(cs@ =~= seq!['.', '.']);
        }
    }
    let with_extension = !is_parent && dot > 1;
    assert(with_extension == has_extension(name@));
    let mut r = String::from_str(name);
    if with_extension {
        push_str(&mut r, ".partial");
    } else {
        push_str(&mut r, ".download.partial");
    }
    r
}

/// The address a catalog file is downloaded from.
pub open spec fn spec_file_url(relative_path: Seq<char>) -> Seq<char> {
    FILE_BASE_URL@ + "/"@ + relative_path + "?download=true"@
}

/// The address of the catalog file at `relative_path`.
pub fn file_url(relative_path: &str) -> (r: String)
    ensures
        r@ == spec_file_url(relative_path@),
{
    let mut r = String::from_str(FILE_BASE_URL);
    push_str(&mut r, "/");
    push_str(&mut r, relative_path);
    push_str(&mut r, "?download=true");
    r
}

/// The `curl` arguments that fetch `url` into `output`, following redirects and failing on
/// HTTP errors, quietly but with errors shown.
pub fn curl_args(url: &str, output: &str) -> (r: Vec<String>)
    ensures
        r@.len() == 7,
        r@[0]@ == "--fail"@,
        r@[1]@ == "--location"@,
        r@[2]@ == "--silent"@,
        r@[3]@ == "--show-error"@,
        r@[4]@ == "--output"@,
        r@[5]@ == output@,
        r@[6]@ == url@,
{
    let mut r: Vec<String> = Vec::new();
    r.push(String::from_str("--fail"));
    r.push(String::from_str("--location"));
    r.push(String::from_str("--silent"));
    r.push(String::from_str("--show-error"));
    r.push(String::from_str("--output"));
    r.push(String::from_str(output));
    r.push(String::from_str(url));
    r
}

// ---------------------------------------------------------------- installation plan

/// One file to fetch for a voice pack.
#[derive(Debug)]
pub struct PlannedDownload {
    /// The file's path in the catalog.
    pub relative_path: String,
    /// The name it is saved under.
    pub file_name: String,
    /// Where it is saved.
    pub destination: String,
    /// Where it is downloaded to before it is checked.
    pub partial_path: String,
    /// Where it is downloaded from.
    pub url: String,
    /// The progress message shown when its turn comes.
    pub progress: String,
    /// Its published size and digest.
    pub expected: VoiceFile,
}

/// What installing a voice pack takes: the files to fetch in turn, and the error that ends
/// the installation after them, if any.
#[derive(Debug)]
pub struct InstallPlan {
    /// The directory of the pack.
    pub target_dir: String,
    pub downloads: Vec<PlannedDownload>,
    pub failure: Option<String>,
}

/// Some needed file is a model.
pub open spec fn has_model_file(files: Seq<(Seq<char>, VoiceFile)>) -> bool {
    exists|i: int| 0 <= i < files.len() && is_model_path(#[trigger] files[i].0)
}

/// Some needed file is a model configuration.
pub open spec fn has_config_file(files: Seq<(Seq<char>, VoiceFile)>) -> bool {
    exists|i: int| 0 <= i < files.len() && is_config_path(#[trigger] files[i].0)
}

/// The progress message for file `index` (from zero) of `count`.
pub open spec fn spec_progress(name: Seq<char>, index: nat, count: nat) -> Seq<char> {
    "Downloading "@ + name + " ("@ + decimal(index + 1) + "/"@ + decimal(count) + ")"@
}

/// `d` fetches `file`, position `index` of `count`, into `target`, under the name `name`.
pub open spec fn is_planned_download(
    d: PlannedDownload,
    target: Seq<char>,
    file: (Seq<char>, VoiceFile),
    name: Seq<char>,
    index: nat,
    count: nat,
) -> bool {
    &&& d.relative_path@ == file.0
    &&& d.file_name@ == name
    &&& d.destination@ == join_path(target, name)
    &&& d.partial_path@ == join_path(target, spec_partial_file_name(name))
    &&& d.url@ == spec_file_url(file.0)
    &&& d.progress@ == spec_progress(name, index, count)
    &&& d.expected == file.1
}

/// `d` is the download of file `k` of `files` into `target`; that file's path is safe.
pub open spec fn is_download_of(
    d: PlannedDownload,
    target: Seq<char>,
    files: Seq<(Seq<char>, VoiceFile)>,
    k: int,
) -> bool {
    match spec_safe_file_name(files[k].0) {
        Ok(name) => is_planned_download(d, target, files[k], name, k as nat, files.len()),
        Err(_) => false,
    }
}

/// The plan is the one for `entry` installed under `voices_dir`.
pub open spec fn is_install_plan(plan: InstallPlan, entry: VoiceEntry, voices_dir: Seq<char>) -> bool {
    let files = model_file_list(file_list(entry.files));
    let target = join_path(voices_dir, entry.key@);
    &&& plan.target_dir@ == target
    &&& if !has_model_file(files) || !has_config_file(files) {
        &&& plan.downloads@.len() == 0
        &&& plan.failure matches Some(e) && e@
            == "This catalog entry does not contain a model and configuration"@
    } else {
        &&& plan.downloads@.len() <= files.len()
        &&& forall|i: int|
            0 <= i < plan.downloads@.len() ==> is_download_of(
                #[trigger] plan.downloads@[i],
                target,
                files,
                i,
            )
        &&& match plan.failure {
            Some(e) => plan.downloads@.len() < files.len() && spec_safe_file_name(
                files[plan.downloads@.len() as int].0,
            ) == Err::<Seq<char>, Seq<char>>(e@),
            None => plan.downloads@.len() == files.len(),
        }
    }
}

fn progress_message(name: &str, index: usize, count: usize) -> (r: String)
    ensures
        r@ == spec_progress(name@, index as nat, count as nat),
{
    let mut r = String::from_str("Downloading ");
    push_str(&mut r, name);
    push_str(&mut r, " (");
    push_decimal(&mut r, index as u128 + 1);
    push_str(&mut r, "/");
    push_decimal(&mut r, count as u128);
    push_str(&mut r, ")");
    r
}

/// The files to fetch to install `entry` under `voices_dir`, in the order of
/// `VoiceEntry::model_files`; a pack without both a model and its configuration is refused,
/// and the plan stops before the first file whose catalog path is unsafe.
pub fn plan_install(entry: &VoiceEntry, voices_dir: &str) -> (plan: InstallPlan)
    ensures
        is_install_plan(plan, *entry, voices_dir@),
{
    let target_dir = join(voices_dir, entry.key.as_str());
    let files = entry.model_files();
    let ghost spec_files = model_file_list(file_list(entry.files));
    let n = files.len();
    let mut has_model = false;
    let mut has_config = false;
    let mut i: usize = 0;
    while i < n
        invariant
            n == files@.len(),
            crate::catalog::lists_files(files@, spec_files),
            i <= n,
            has_model == exists|k: int| 0 <= k < i && is_model_path(#[trigger] spec_files[k].0),
            has_config == exists|k: int| 0 <= k < i && is_config_path(#[trigger] spec_files[k].0),
        decreases n - i,
    {
        let p = files[i].0;
        assert(p@ == spec_files[i as int].0);
        if str_ends_with(p, ".onnx") {
            has_model = true;
        }
        if str_ends_with(p, ".onnx.json") {
            has_config = true;
        }
        i = i + 1;
    }
    assert(has_model == has_model_file(spec_files));
    assert(has_config == has_config_file(spec_files));
    if !has_model || !has_config {
        return InstallPlan {
            target_dir,
            downloads: Vec::new(),
            failure: Some(
                String::from_str("This catalog entry does not contain a model and configuration"),
            ),
        };
    }
    let mut downloads: Vec<PlannedDownload> = Vec::new();
    let mut i: usize = 0;
    while i < n
        invariant
            n == files@.len(),
            crate::catalog::lists_files(files@, spec_files),
            spec_files == model_file_list(file_list(entry.files)),
            target_dir@ == join_path(voices_dir@, entry.key@),
            has_model_file(spec_files),
            has_config_file(spec_files),
            i <= n,
            downloads@.len() == i,
            forall|k: int|
                0 <= k < i ==> is_download_of(#[trigger] downloads@[k], target_dir@, spec_files, k),
        decreases n - i,
    {
        let (path, meta) = files[i];
        assert(path@ == spec_files[i as int].0);
        assert(*meta == spec_files[i as int].1);
        match safe_file_name(path) {
            Ok(name) => {
                let ghost nv = name@;
                let partial = partial_file_name(name.as_str());
                let d = PlannedDownload {
                    relative_path: String::from_str(path),
                    destination: join(target_dir.as_str(), name.as_str()),
                    partial_path: join(target_dir.as_str(), partial.as_str()),
                    url: file_url(path),
                    progress: progress_message(name.as_str(), i, n),
                    expected: meta.duplicate(),
                    file_name: name,
                };
                let ghost dd = d;
                let ghost before = downloads@;
                assert(is_planned_download(dd, target_dir@, spec_files[i as int], nv, i as nat, spec_files.len()));
                downloads.push(d);
                assert(downloads@[i as int] == dd);
                assert forall|k: int| 0 <= k < i + 1 implies is_download_of(
                    #[trigger] downloads@[k],
                    target_dir@,
                    spec_files,
                    k,
                ) by {
                    if k < i {
                        assert(downloads@[k] == before[k]);
                    }
                }
            },
            Err(e) => {
                return InstallPlan { target_dir, downloads, failure: Some(e) };
            },
        }
        i = i + 1;
    }
    InstallPlan { target_dir, downloads, failure: None }
}

// ---------------------------------------------------------------- carrying out a plan

/// What happened to the download in hand while a plan is carried out.
#[derive(Debug)]
pub enum InstallEvent {
    /// Nothing yet: the installation starts.
    Begin,
    /// The file already at the download's destination was checked: whether it has the
    /// published size and digest.
    Checked { verifies: bool },
    /// The download was fetched, checked and moved into place, or why that failed.
    Fetched(Result<(), String>),
}

/// What to do next while a plan is carried out.
#[derive(Debug)]
pub enum InstallStep {
    /// Show `progress`, then check the file at the destination of download `index`.
    Announce { index: usize, progress: String },
    /// Fetch download `index` into its partial path, check it and move it into place.
    Fetch { index: usize },
    /// Remove the partial file of download `index` and stop with `error`.
    Abort { index: usize, error: String },
    /// The installation is over, with this outcome.
    Done(Result<(), String>),
}

/// The step that follows reaching download `next` of `plan`: announce it, or, past the
/// last download, finish with the plan's failure if it has one.
pub open spec fn spec_step_to(plan: InstallPlan, next: int) -> InstallStep {
    if next < plan.downloads@.len() {
        InstallStep::Announce { index: next as usize, progress: plan.downloads@[next].progress }
    } else {
        match plan.failure {
            Some(e) => InstallStep::Done(Err(e)),
            None => InstallStep::Done(Ok(())),
        }
    }
}

fn step_to(plan: &InstallPlan, next: usize) -> (r: InstallStep)
    requires
        next <= plan.downloads@.len(),
    ensures
        r == spec_step_to(*plan, next as int),
{
    if next < plan.downloads.len() {
        InstallStep::Announce { index: next, progress: plan.downloads[next].progress.clone() }
    } else {
        match &plan.failure {
            Some(e) => InstallStep::Done(Err(e.clone())),
            None => InstallStep::Done(Ok(())),
        }
    }
}

/// The next step of carrying out `plan`, at download `at`, after `event`: the downloads are
/// taken in turn, each announced with its progress message; one whose destination already
/// verifies is kept, any other is fetched; the first failed fetch stops the installation
/// (its partial file removed); after the last download the plan's own failure, if any, ends
/// it.
pub fn install_step(plan: &InstallPlan, at: usize, event: InstallEvent) -> (r: InstallStep)
    requires
        !(event is Begin) ==> at < plan.downloads@.len(),
    ensures
        match event {
            InstallEvent::Begin => r == spec_step_to(*plan, 0),
            InstallEvent::Checked { verifies } => if verifies {
                r == spec_step_to(*plan, at + 1)
            } else {
                r == InstallStep::Fetch { index: at }
            },
            InstallEvent::Fetched(outcome) => match outcome {
                Ok(()) => r == spec_step_to(*plan, at + 1),
                Err(e) => r == InstallStep::Abort { index: at, error: e },
            },
        },
{
    let ghost began = event is Begin;
    let count = plan.downloads.len();
    match event {
        InstallEvent::Begin => step_to(plan, 0),
        InstallEvent::Checked { verifies } => {
            assert(!began && at < count);
            if verifies {
                step_to(plan, at + 1)
            } else {
                InstallStep::Fetch { index: at }
            }
        },
        InstallEvent::Fetched(outcome) => match outcome {
            Ok(()) => {
                assert(!began && at < count);
                step_to(plan, at + 1)
            },
            Err(e) => InstallStep::Abort { index: at, error: e },
        },
    }
}

// ---------------------------------------------------------------- checking downloads

/// The ASCII lower-case form of a byte.
pub open spec fn ascii_lower(b: u8) -> u8 {
    if 65 <= b <= 90 {
        (b + 32) as u8
    } else {
        b
    }
}

/// Two byte strings are equal up to ASCII case (std's `str::eq_ignore_ascii_case`).
pub open spec fn eq_ignore_ascii_case(a: Seq<u8>, b: Seq<u8>) -> bool {
    a.len() == b.len() && forall|i: int| 0 <= i < a.len() ==> ascii_lower(#[trigger] a[i]) == ascii_lower(b[i])
}

fn bytes_eq_ignore_ascii_case(a: &[u8], b: &[u8]) -> (r: bool)
    ensures
        r == eq_ignore_ascii_case(a@, b@),
{
    if a.len() != b.len() {
        return false;
    }
    let mut i: usize = 0;
    while i < a.len()
        invariant
            a@.len() == b@.len(),
            i <= a@.len(),
            forall|k: int| 0 <= k < i ==> ascii_lower(#[trigger] a@[k]) == ascii_lower(b@[k]),
        decreases a.len() - i,
    {
        let x = if 65 <= a[i] && a[i] <= 90 {
            a[i] + 32
        } else {
            a[i]
        };
        let y = if 65 <= b[i] && b[i] <= 90 {
            b[i] + 32
        } else {
            b[i]
        };
        if x != y {
            return false;
        }
        i = i + 1;
    }
    true
}

/// The size check of a downloaded file: its size (`actual_size`, read from disk) must be
/// the published one. `shown_path` is how the file is named in the message.
pub fn check_size(shown_path: &str, actual_size: u64, expected: &VoiceFile) -> (r: Result<
    (),
    String,
>)
    ensures
        r is Ok <==> actual_size == expected.size_bytes,
        r matches Err(e) ==> e@ == shown_path@ + " has the wrong size (expected "@ + decimal(
            expected.size_bytes as nat,
        ) + ", received "@ + decimal(actual_size as nat) + ")"@,
{
    if actual_size != expected.size_bytes {
        let mut e = String::from_str(shown_path);
        push_str(&mut e, " has the wrong size (expected ");
        push_decimal(&mut e, expected.size_bytes as u128);
        push_str(&mut e, ", received ");
        push_decimal(&mut e, actual_size as u128);
        push_str(&mut e, ")");
        return Err(e);
    }
    Ok(())
}

/// The integrity check of a downloaded file: its MD5 digest (`actual_digest`, in
/// hexadecimal) must be the published one, letter case aside.
pub fn check_digest(shown_path: &str, actual_digest: &str, expected: &VoiceFile) -> (r: Result<
    (),
    String,
>)
    ensures
        r is Ok <==> eq_ignore_ascii_case(
            vstd::utf8::encode_utf8(actual_digest@),
            vstd::utf8::encode_utf8(expected.md5_digest@),
        ),
        r matches Err(e) ==> e@ == shown_path@ + " failed its integrity check"@,
{
    if !bytes_eq_ignore_ascii_case(actual_digest.as_bytes(), expected.md5_digest.as_str().as_bytes()) {
        let mut e = String::from_str(shown_path);
        push_str(&mut e, " failed its integrity check");
        return Err(e);
    }
    Ok(())
}

/// Installing a pack writes only inside the pack's directory: every file, and every
/// temporary download, is saved directly in it, under a name without separators.
pub proof fn law_downloads_stay_in_pack_directory(
    plan: InstallPlan,
    entry: VoiceEntry,
    voices_dir: Seq<char>,
)
    requires
        is_install_plan(plan, entry, voices_dir),
        plan.target_dir@.len() > 0,
    ensures
        forall|i: int|
            0 <= i < plan.downloads@.len() ==> {
                let d = #[trigger] plan.downloads@[i];
                &&& inside(plan.target_dir@, d.destination@)
                &&& inside(plan.target_dir@, d.partial_path@)
                &&& forall|j: int| 0 <= j < d.file_name@.len() ==> d.file_name@[j] != '/'
                &&& d.file_name@ != seq!['.', '.']
            },
{
    let files = model_file_list(file_list(entry.files));
    assert forall|i: int| 0 <= i < plan.downloads@.len() implies {
        let d = #[trigger] plan.downloads@[i];
        &&& inside(plan.target_dir@, d.destination@)
        &&& inside(plan.target_dir@, d.partial_path@)
        &&& forall|j: int| 0 <= j < d.file_name@.len() ==> d.file_name@[j] != '/'
        &&& d.file_name@ != seq!['.', '.']
    } by {
        let d = plan.downloads@[i];
        assert(is_download_of(d, plan.target_dir@, files, i));
        law_safe_names_stay_in_place(files[i].0);
        let name = d.file_name@;
        assert(name.len() > 0 && name[0] != '/');
        lemma_join_inside(plan.target_dir@, name);
        let partial = spec_partial_file_name(name);
        assert(partial.len() > 0 && partial[0] == name[0]);
        lemma_join_inside(plan.target_dir@, partial);
    }
}

/// A needed file of a list is among the needed files of its rank.
proof fn lemma_files_of_rank_contains(files: Seq<(Seq<char>, VoiceFile)>, k: int)
    requires
        0 <= k < files.len(),
        is_needed_file(files[k].0),
    ensures
        files_of_rank(files, file_rank(files[k].0)).contains(files[k]),
    decreases files.len(),
{
    let r = file_rank(files[k].0);
    let rest = files_of_rank(files.drop_last(), r);
    if k == files.len() - 1 {
        assert(files_of_rank(files, r) == rest + seq![files.last()]);
        assert(files_of_rank(files, r)[rest.len() as int] == files[k]);
    } else {
        assert(files.drop_last()[k] == files[k]);
        lemma_files_of_rank_contains(files.drop_last(), k);
        let j = choose|j: int| 0 <= j < rest.len() && rest[j] == files[k];
        assert(files_of_rank(files, r)[j] == files[k]);
    }
}

/// Installing a pack fetches every file it needs: each model, configuration and model card
/// it lists (so a model's licence travels with it) is downloaded with its published size and
/// digest, unless the plan was refused or stopped at an unsafe path.
pub proof fn law_needed_files_are_fetched(
    plan: InstallPlan,
    entry: VoiceEntry,
    voices_dir: Seq<char>,
    k: int,
)
    requires
        is_install_plan(plan, entry, voices_dir),
        plan.failure is None,
        0 <= k < entry.files.keys().len(),
        is_needed_file(entry.files.keys()[k]),
    ensures
        exists|i: int|
            0 <= i < plan.downloads@.len() && (#[trigger] plan.downloads@[i]).relative_path@
                == entry.files.keys()[k] && plan.downloads@[i].expected == entry.files.values()[k],
{
    let files = file_list(entry.files);
    let needed = model_file_list(files);
    let target = join_path(voices_dir, entry.key@);
    assert(files[k] == (entry.files.keys()[k], entry.files.values()[k]));
    lemma_files_of_rank_contains(files, k);
    let r = file_rank(files[k].0);
    let a = files_of_rank(files, 0);
    let b = files_of_rank(files, 1);
    let c = files_of_rank(files, 2);
    let part = files_of_rank(files, r);
    let j = choose|j: int| 0 <= j < part.len() && part[j] == files[k];
    let at: int = if r == 0 {
        j
    } else if r == 1 {
        a.len() + j
    } else {
        a.len() + b.len() + j
    };
    assert(needed == a + b + c);
    assert(needed[at] == files[k]);
    assert(is_download_of(plan.downloads@[at], target, needed, at));
}

/// A path that ends with a suffix free of separators (and longer than one character) has a
/// final component, and that component ends with the same suffix.
proof fn lemma_final_component_keeps_suffix(p: Seq<char>, suffix: Seq<char>)
    requires
        ends_with(p, suffix),
        suffix.len() >= 2,
        forall|j: int| 0 <= j < suffix.len() ==> suffix[j] != '/',
    ensures
        final_component(p) matches Some(name) && ends_with(name, suffix),
{
    let n = p.len();
    let m = suffix.len();
    assert(p[n - 1] == suffix[m - 1]);
    lemma_last_separator(p);
    let k = last_separator(p) + 1;
    if last_separator(p) >= n - m {
        let j = last_separator(p) - (n - m);
        assert(p[last_separator(p)] == p.subrange(n - m, n as int)[j]);
    }
    assert(k <= n - m);
    let name = p.skip(k);
    assert(name.len() >= m);
    assert(name != seq!['.']);
    assert(final_component(p) == Some(name));
    assert(name.subrange(name.len() - m, name.len() as int) =~= p.subrange(n - m, n as int));
}

/// The last listed file of a kind exists when any listed file is of that kind.
proof fn lemma_kind_is_found(files: Seq<(String, String)>, k: int, kind: nat)
    requires
        0 <= k < files.len(),
        installed_file_kind(files[k].0@) == kind,
    ensures
        last_file_of_kind(files, kind) is Some,
    decreases files.len(),
{
    if k < files.len() - 1 && installed_file_kind(files.last().0@) != kind {
        assert(files.drop_last()[k] == files[k]);
        lemma_kind_is_found(files.drop_last(), k, kind);
    }
}

/// An installed pack is found again: once every file of a pack's plan lies, under the name
/// the plan gave it, in the listing of the pack's directory, that listing holds a model and
/// a configuration (so the voice is assembled), and the voice gets the catalog's number of
/// speakers (at least one) and the catalog's speaker table.
pub proof fn law_installed_pack_is_found(
    plan: InstallPlan,
    entry: VoiceEntry,
    voices_dir: Seq<char>,
    catalog: VoiceCatalog,
    listing: Seq<(String, String)>,
    local: Option<LocalVoiceConfig>,
)
    requires
        is_install_plan(plan, entry, voices_dir),
        plan.failure is None,
        catalog.entry_map()@.dom().contains(entry.key@),
        catalog.entry_map()@[entry.key@] == entry,
        forall|i: int|
            0 <= i < plan.downloads@.len() ==> exists|k: int|
                0 <= k < listing.len() && #[trigger] listing[k].0@ == (
                #[trigger] plan.downloads@[i]).file_name@,
    ensures
        last_file_of_kind(listing, 0) is Some,
        last_file_of_kind(listing, 1) is Some,
        chosen_speaker_count(entry.key@, catalog, local) == (if entry.num_speakers < 1 {
            1
        } else {
            entry.num_speakers
        }),
        chosen_speaker_table(entry.key@, catalog, local) == Some(entry.speaker_id_map),
{
    reveal_strlit(".onnx");
    reveal_strlit(".onnx.json");
    let files = model_file_list(file_list(entry.files));
    let target = join_path(voices_dir, entry.key@);
    assert(has_model_file(files) && has_config_file(files));
    // the model
    let i = choose|i: int| 0 <= i < files.len() && is_model_path(#[trigger] files[i].0);
    assert(is_download_of(plan.downloads@[i], target, files, i));
    let name = plan.downloads@[i].file_name@;
    lemma_final_component_keeps_suffix(files[i].0, ".onnx"@);
    assert(is_model_path(name));
    let k = choose|k: int| 0 <= k < listing.len() && #[trigger] listing[k].0@ == plan.downloads@[i].file_name@;
    lemma_kind_is_found(listing, k, 0);
    // the configuration
    let j = choose|j: int| 0 <= j < files.len() && is_config_path(#[trigger] files[j].0);
    assert(is_download_of(plan.downloads@[j], target, files, j));
    let cname = plan.downloads@[j].file_name@;
    lemma_final_component_keeps_suffix(files[j].0, ".onnx.json"@);
    assert(is_config_path(cname));
    assert(!is_model_path(cname)) by {
        assert(cname.subrange(cname.len() - 10, cname.len() as int)[9] == cname[cname.len() - 1]);
        assert(".onnx.json"@[9] == 'n');
        assert(cname[cname.len() - 1] == 'n');
        if is_model_path(cname) {
            assert(cname.subrange(cname.len() - 5, cname.len() as int)[4] == cname[cname.len() - 1]);
            assert(cname[cname.len() - 1] == ".onnx"@[4]);
        }
    }
    let c = choose|c: int| 0 <= c < listing.len() && #[trigger] listing[c].0@ == plan.downloads@[j].file_name@;
    lemma_kind_is_found(listing, c, 1);
}

} // verus!
