use vstd::prelude::*;

use crate::clock::CivilDate;
use crate::text::{chars_of, push_str, string_from_chars};

verus! {

/// `Path::join`: an absolute component replaces the base; a relative one is appended
/// with a separator between, unless the base is empty or already ends with one.
pub open spec fn path_join(base: Seq<char>, component: Seq<char>) -> Seq<char> {
    if component.len() > 0 && component[0] == '/' {
        component
    } else if base.len() == 0 || base.last() == '/' {
        base + component
    } else {
        base + seq!['/'] + component
    }
}

/// Joins a relative component onto a path.
pub fn join_path(base: &str, component: &str) -> (path: String)
    ensures
        path@ == path_join(base@, component@),
{
    let b = chars_of(base);
    let c = chars_of(component);
    if c.len() > 0 && c[0] == '/' {
        return string_from_chars(c.as_slice());
    }
    let mut out: Vec<char> = Vec::new();
    push_str(&mut out, base);
    if b.len() > 0 && b[b.len() - 1] != '/' {
        out.push('/');
    }
    push_str(&mut out, component);
    assert(out@ =~= path_join(base@, component@));
    string_from_chars(out.as_slice())
}

/// The folder that holds all of the app's data, under the platform's local data folder
/// (the working folder when there is none).
pub open spec fn spec_default_base_dir(data_local_dir: Option<Seq<char>>) -> Seq<char> {
    let root = match data_local_dir {
        Some(d) => d,
        None => "."@,
    };
    path_join(root, "MindBack"@)
}

/// Where the app keeps its data, given the platform's local data folder if there is one.
pub fn default_base_dir(data_local_dir: Option<String>) -> (dir: String)
    ensures
        dir@ == spec_default_base_dir(data_local_dir.deep_view()),
{
    match data_local_dir {
        Some(d) => join_path(d.as_str(), "MindBack"),
        None => join_path(".", "MindBack"),
    }
}

/// Where the configuration, the daily logs, thumbnails and summaries are kept.
#[derive(Debug, Clone)]
pub struct Storage {
    base_dir: String,
}

impl Storage {
    pub closed spec fn spec_base_dir(&self) -> Seq<char> {
        self.base_dir@
    }

    /// The folder of one day.
    pub open spec fn spec_day_dir(&self, date: CivilDate) -> Seq<char> {
        path_join(path_join(self.spec_base_dir(), "days"@), date.spec_text())
    }

    /// Storage rooted at `base_dir`.
    pub fn new(base_dir: String) -> (storage: Self)
        ensures
            storage.spec_base_dir() == base_dir@,
    {
        Storage { base_dir }
    }

    /// Storage under the platform's local data folder.
    pub fn default_location(data_local_dir: Option<String>) -> (storage: Self)
        ensures
            storage.spec_base_dir() == spec_default_base_dir(data_local_dir.deep_view()),
    {
        Storage { base_dir: default_base_dir(data_local_dir) }
    }

    /// The folder the data is kept in.
    pub fn base_dir(&self) -> (dir: &str)
        ensures
            dir@ == self.spec_base_dir(),
    {
        self.base_dir.as_str()
    }

    /// The configuration file.
    pub fn config_path(&self) -> (path: String)
        ensures
            path@ == path_join(self.spec_base_dir(), "config.json"@),
    {
        join_path(self.base_dir.as_str(), "config.json")
    }

    /// The folder of one day: `days/YYYY-MM-DD` under the base folder.
    pub fn day_dir(&self, date: CivilDate) -> (path: String)
        requires
            date.wf(),
        ensures
            path@ == self.spec_day_dir(date),
    {
        let days = join_path(self.base_dir.as_str(), "days");
        join_path(days.as_str(), date.text().as_str())
    }

    /// A file or folder inside the folder of one day.
    pub fn day_file(&self, date: CivilDate, name: &str) -> (path: String)
        requires
            date.wf(),
        ensures
            path@ == path_join(self.spec_day_dir(date), name@),
    {
        let day = self.day_dir(date);
        join_path(day.as_str(), name)
    }
}

// ---------------------------------------------------------------------------
// Thumbnail paths
// ---------------------------------------------------------------------------

/// A `..` component starts at index `i`.
pub open spec fn parent_at(s: Seq<char>, i: int) -> bool {
    0 <= i && i + 1 < s.len() && s[i] == '.' && s[i + 1] == '.' && (i == 0 || s[i - 1] == '/') && (
    i + 2 == s.len() || s[i + 2] == '/')
}

/// Some component of the path is `..`.
pub open spec fn has_parent_component(s: Seq<char>) -> bool {
    exists|i: int| #[trigger] parent_at(s, i)
}

/// Every component of the path is an ordinary name: the path is not empty, has no root,
/// does not start with `.` as its own component, and no component is `..` (inner `.`
/// components and repeated separators are dropped by `Path::components`).
pub open spec fn is_plain_relative_path(s: Seq<char>) -> bool {
    &&& s.len() > 0
    &&& s[0] != '/'
    &&& !(s[0] == '.' && (s.len() == 1 || s[1] == '/'))
    &&& !has_parent_component(s)
}

/// Whether a thumbnail path may be read: a relative path of ordinary names only.
pub fn is_valid_thumb_path(relative_path: &str) -> (valid: bool)
    ensures
        valid == is_plain_relative_path(relative_path@),
{
    let s = chars_of(relative_path);
    let n = s.len();
    if n == 0 {
        return false;
    }
    if s[0] == '/' {
        return false;
    }
    if s[0] == '.' && (n == 1 || s[1] == '/') {
        return false;
    }
    let mut i: usize = 0;
    while i + 1 < n
        invariant
            s@ == relative_path@,
            n == s.len(),
            i < n,
            forall|j: int| 0 <= j < i ==> !#[trigger] parent_at(s@, j),
        decreases n - i,
    {
        if s[i] == '.' && s[i + 1] == '.' && (i == 0 || s[i - 1] == '/') && (i + 2 == n || s[i
            + 2] == '/') {
            assert(parent_at(s@, i as int));
            return false;
        }
        i = i + 1;
    }
    true
}

} // verus!
