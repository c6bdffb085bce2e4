//! Where the application keeps its files: everything lives in one directory beside the
//! executable.

use vstd::prelude::*;

use crate::catalog::opt_view;
use crate::text::{chars_of, push_str};

verus! {

/// `name` appended to the path `base` as std's `Path::join` does on Unix: an absolute `name`
/// replaces `base`; otherwise a `/` separates them unless `base` is empty or already ends
/// with one.
pub open spec fn join_path(base: Seq<char>, name: Seq<char>) -> Seq<char> {
    if name.len() > 0 && name[0] == '/' {
        name
    } else if base.len() == 0 || base.last() == '/' {
        base + name
    } else {
        base + "/"@ + name
    }
}

/// The path `base` joined with `name`.
pub fn join(base: &str, name: &str) -> (r: String)
    ensures
        r@ == join_path(base@, name@),
{
    let b = chars_of(base);
    let n = chars_of(name);
    if n.len() > 0 && n[0] == '/' {
        return String::from_str(name);
    }
    let mut r = String::from_str(base);
    if b.len() > 0 && b[b.len() - 1] != '/' {
        push_str(&mut r, "/");
    }
    push_str(&mut r, name);
    r
}

/// A path is absolute on Unix when it starts at the root.
pub open spec fn is_absolute(p: Seq<char>) -> bool {
    p.len() > 0 && p[0] == '/'
}

/// The parent directory of a path, as std's `Path::parent` computes it (`None` for the root
/// and for the empty path).
pub uninterp spec fn path_parent(path: Seq<char>) -> Option<Seq<char>>;

/// std's `Path::parent`, with the result as a string. A parent of a path held in a `String`
/// is a prefix of it, hence valid UTF-8, so the conversion is lossless.
#[verifier::external_body]
pub(crate) fn parent_of(path: &str) -> (r: Option<String>)
    ensures
        opt_view(r) == path_parent(path@),
{
    match std::path::Path::new(path).parent() {
        Some(p) => Some(p.to_string_lossy().into_owned()),
        None => None,
    }
}

/// The final component of a path, as std's `Path::file_name` computes it (`None` when the
/// path ends in `..` or has no component).
pub uninterp spec fn path_file_name(path: Seq<char>) -> Option<Seq<char>>;

/// std's `Path::file_name`, with the result as a string. The name of a path held in a
/// `String` is a piece of it, hence valid UTF-8, so the conversion always succeeds.
#[verifier::external_body]
pub(crate) fn file_name_of(path: &str) -> (r: Option<String>)
    ensures
        opt_view(r) == path_file_name(path@),
{
    std::path::Path::new(path).file_name().and_then(|name| name.to_str()).map(|name| name.to_owned())
}

/// The application's directories and files.
#[derive(Clone, Debug)]
pub struct AppPaths {
    /// The directory containing the standalone executable.
    pub data_dir: String,
    pub cache_dir: String,
    pub voices_dir: String,
    pub engine_dir: String,
    pub catalog_path: String,
    pub state_path: String,
}

/// The directory the application lives in: that of the AppImage when `APPIMAGE` names an
/// absolute path, otherwise that of the running executable.
pub open spec fn launcher_directory(app_image: Option<Seq<char>>, current_exe: Option<Seq<char>>) -> Option<
    Seq<char>,
> {
    match app_image {
        Some(a) if a.len() > 0 && is_absolute(a) => path_parent(a),
        _ => match current_exe {
            Some(e) => path_parent(e),
            None => None,
        },
    }
}

impl AppPaths {
    /// The layout rooted at `data_dir`.
    pub open spec fn spec_layout(data_dir: Seq<char>, p: AppPaths) -> bool {
        &&& p.data_dir@ == data_dir
        &&& p.cache_dir@ == join_path(data_dir, "cache"@)
        &&& p.voices_dir@ == join_path(data_dir, "voices"@)
        &&& p.engine_dir@ == join_path(data_dir, "engine"@)
        &&& p.catalog_path@ == join_path(data_dir, "voices.json"@)
        &&& p.state_path@ == join_path(data_dir, "app.ron"@)
    }

    /// Finds the application directory from the `APPIMAGE` variable (`None` when unset) and
    /// the path of the running executable (`None` when unknown), and lays out the files in it.
    pub fn discover(app_image: Option<String>, current_exe: Option<String>) -> (r: Result<
        Self,
        String,
    >)
        ensures
            match launcher_directory(opt_view(app_image), opt_view(current_exe)) {
                Some(d) => r matches Ok(p) && Self::spec_layout(d, p),
                None => r matches Err(e) && e@
                    == "Could not locate the executable. Put the app in its own writable directory and run it again."@,
            },
    {
        let mut dir: Option<String> = None;
        let mut decided = false;
        if let Some(a) = &app_image {
            let cs = chars_of(a.as_str());
            if cs.len() > 0 && cs[0] == '/' {
                dir = parent_of(a.as_str());
                decided = true;
            }
        }
        if !decided {
            if let Some(e) = &current_exe {
                dir = parent_of(e.as_str());
            }
        }
        match dir {
            Some(d) => Ok(Self::from_data_dir(d)),
            None => Err(
                String::from_str(
                    "Could not locate the executable. Put the app in its own writable directory and run it again.",
                ),
            ),
        }
    }

    /// The layout of the application's files under `data_dir`.
    pub fn from_data_dir(data_dir: String) -> (p: Self)
        ensures
            Self::spec_layout(data_dir@, p),
    {
        AppPaths {
            cache_dir: join(data_dir.as_str(), "cache"),
            voices_dir: join(data_dir.as_str(), "voices"),
            engine_dir: join(data_dir.as_str(), "engine"),
            catalog_path: join(data_dir.as_str(), "voices.json"),
            state_path: join(data_dir.as_str(), "app.ron"),
            data_dir,
        }
    }

    /// Where generated previews are cached.
    pub fn preview_dir(&self) -> (r: String)
        ensures
            r@ == join_path(self.cache_dir@, "previews"@),
    {
        join(self.cache_dir.as_str(), "previews")
    }

    /// Where a refreshed catalog is downloaded before it replaces the current one.
    pub fn catalog_download_path(&self) -> (r: String)
        ensures
            r@ == join_path(self.data_dir@, "voices.json.partial"@),
    {
        join(self.data_dir.as_str(), "voices.json.partial")
    }

    /// The Python interpreter of the managed Piper environment.
    pub fn managed_python(&self) -> (r: String)
        ensures
            r@ == join_path(self.engine_dir@, "bin/python"@),
    {
        join(self.engine_dir.as_str(), "bin/python")
    }
}

/// The layout depends on the application directory alone: the same directory gives the
/// same paths.
pub proof fn law_layout_is_determined(d: Seq<char>, p: AppPaths, q: AppPaths)
    requires
        AppPaths::spec_layout(d, p),
        AppPaths::spec_layout(d, q),
    ensures
        p.data_dir@ == q.data_dir@,
        p.cache_dir@ == q.cache_dir@,
        p.voices_dir@ == q.voices_dir@,
        p.engine_dir@ == q.engine_dir@,
        p.catalog_path@ == q.catalog_path@,
        p.state_path@ == q.state_path@,
{
}

/// Every file of the layout lies inside the application directory: its path starts with the
/// directory's path followed by a separator.
pub proof fn law_layout_stays_inside(d: Seq<char>, p: AppPaths)
    requires
        AppPaths::spec_layout(d, p),
        d.len() > 0,
    ensures
        inside(d, p.cache_dir@),
        inside(d, p.voices_dir@),
        inside(d, p.engine_dir@),
        inside(d, p.catalog_path@),
        inside(d, p.state_path@),
{
    reveal_strlit("cache");
    reveal_strlit("voices");
    reveal_strlit("engine");
    reveal_strlit("voices.json");
    reveal_strlit("app.ron");
    reveal_strlit("/");
    lemma_join_inside(d, "cache"@);
    lemma_join_inside(d, "voices"@);
    lemma_join_inside(d, "engine"@);
    lemma_join_inside(d, "voices.json"@);
    lemma_join_inside(d, "app.ron"@);
}

/// `path` lies strictly below the directory `dir`: it starts with `dir`, then (unless `dir`
/// already ends with one) a separator, then at least one more character.
pub open spec fn inside(dir: Seq<char>, path: Seq<char>) -> bool {
    &&& path.len() > dir.len()
    &&& path.take(dir.len() as int) == dir
    &&& (dir.last() == '/' || path[dir.len() as int] == '/')
}

/// Joining a non-empty relative name to a non-empty directory gives a path inside it.
pub proof fn lemma_join_inside(dir: Seq<char>, name: Seq<char>)
    requires
        dir.len() > 0,
        name.len() > 0,
        name[0] != '/',
    ensures
        inside(dir, join_path(dir, name)),
{
    reveal_strlit("/");
    let j = join_path(dir, name);
    if dir.last() == '/' {
        assert(j.take(dir.len() as int) =~= dir);
    } else {
        assert(j.take(dir.len() as int) =~= dir);
        assert(j[dir.len() as int] == '/');
    }
}

} // verus!
