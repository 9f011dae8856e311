//! Batch planning: which movie each mod of a batch names, with which patch
//! configuration, and under which file name the result is written.
use vstd::prelude::*;
use crate::config::{BatchProcessConfig, FileConfig, ModConfig, SwfMapping};
use crate::text::{chars_of, slice_chars, string_of};

verus! {

/// One movie to process.
#[derive(Debug, PartialEq)]
pub struct BatchJob {
    /// A plain path, or an `archive//entry` locator.
    pub input: String,
    /// The patch configuration, relative to the batch configuration file.
    pub config: String,
    /// The file name of the result.
    pub file_name: String,
}

/// Why a mod of a batch could not be planned.
#[derive(Debug, PartialEq)]
pub enum BatchError {
    /// An archive mod, but no archive was chosen.
    MissingArchive,
    /// No mapping names the mod.
    NoMapping(String),
    /// The path has no file name.
    InvalidPath(String),
}

pub open spec fn is_separator(c: char) -> bool {
    c == '/' || c == '\\'
}

/// One past the last position before `e` that is not a separator.
pub open spec fn content_end(s: Seq<char>, e: int) -> int
    decreases e,
{
    if e <= 0 || e > s.len() || !is_separator(s[e - 1]) {
        e
    } else {
        content_end(s, e - 1)
    }
}

/// The start of the component that ends at `e`.
pub open spec fn component_start(s: Seq<char>, b: int) -> int
    decreases b,
{
    if b <= 0 || b > s.len() || is_separator(s[b - 1]) {
        b
    } else {
        component_start(s, b - 1)
    }
}

/// The file name of a path: its last component, separated by `/` or a backslash,
/// trailing separators ignored; none when that component is empty,
/// `.` or `..`.
pub open spec fn file_name_text(path: Seq<char>) -> Option<Seq<char>> {
    let e = content_end(path, path.len() as int);
    let c = path.subrange(component_start(path, e), e);
    if c.len() == 0 || c == seq!['.'] || c == seq!['.', '.'] {
        None
    } else {
        Some(c)
    }
}

fn separator(c: char) -> (r: bool)
    ensures
        r == is_separator(c),
{
    c == '/' || c == '\\'
}

/// The file name of a path (see `file_name_text`).
pub fn file_name_of(path: &str) -> (r: Option<String>)
    ensures
        r matches Some(n) ==> file_name_text(path@) == Some(n@),
        r is None ==> file_name_text(path@) is None,
{
    let s = chars_of(path);
    let mut e: usize = s.len();
    while e > 0 && separator(s[e - 1])
        invariant
            0 <= e <= s@.len(),
            content_end(s@, s@.len() as int) == content_end(s@, e as int),
        decreases e,
    {
        e -= 1;
    }
    let mut b: usize = e;
    while b > 0 && !separator(s[b - 1])
        invariant
            0 <= b <= e <= s@.len(),
            component_start(s@, e as int) == component_start(s@, b as int),
        decreases b,
    {
        b -= 1;
    }
    let c = slice_chars(&s, b, e);
    if c.len() == 0 || (c.len() == 1 && c[0] == '.') || (c.len() == 2 && c[0] == '.' && c[1] == '.') {
        proof {
            if c@.len() == 1 {
                assert(c@ =~= seq!['.']);
            }
            if c@.len() == 2 {
                assert(c@ =~= seq!['.', '.']);
            }
        }
        None
    } else {
        proof {
            if c@ == seq!['.'] {
                assert(c@[0] == '.');
            }
            if c@ == seq!['.', '.'] {
                assert(c@[0] == '.' && c@[1] == '.');
            }
        }
        Some(string_of(&c))
    }
}

/// `s` without its leading `//` pairs.
pub open spec fn without_leading_slashes(s: Seq<char>) -> Seq<char>
    decreases s.len(),
{
    if s.len() >= 2 && s[0] == '/' && s[1] == '/' {
        without_leading_slashes(s.subrange(2, s.len() as int))
    } else {
        s
    }
}

/// The locator of an entry in an archive.
pub open spec fn locator(archive: Seq<char>, entry: Seq<char>) -> Seq<char> {
    archive + seq!['/', '/'] + without_leading_slashes(entry)
}

/// The index of the first mapping for mod `name`.
pub open spec fn first_mapping(maps: Seq<SwfMapping>, name: Seq<char>) -> Option<int>
    decreases maps.len(),
{
    if maps.len() == 0 {
        None
    } else {
        match first_mapping(maps.drop_last(), name) {
            Some(i) => Some(i),
            None => if maps.last().mod_name@ == name { Some(maps.len() - 1) } else { None },
        }
    }
}

fn strip_leading_slashes(s: &Vec<char>) -> (r: Vec<char>)
    ensures
        r@ == without_leading_slashes(s@),
{
    let mut i: usize = 0;
    proof {
        assert(s@.subrange(0, s@.len() as int) =~= s@);
    }
    while i < s.len() && s.len() - i >= 2 && s[i] == '/' && s[i + 1] == '/'
        invariant
            0 <= i <= s@.len(),
            without_leading_slashes(s@) == without_leading_slashes(s@.subrange(i as int, s@.len() as int)),
        decreases s.len() - i,
    {
        proof {
            let rest = s@.subrange(i as int, s@.len() as int);
            assert(rest.subrange(2, rest.len() as int) =~= s@.subrange(i + 2, s@.len() as int));
        }
        i += 2;
    }
    proof {
        let rest = s@.subrange(i as int, s@.len() as int);
        if i + 2 <= s@.len() {
            assert(rest[0] == s@[i as int] && rest[1] == s@[i + 1]);
        }
    }
    slice_chars(s, i, s.len())
}

fn archive_locator(archive: &String, entry: &String) -> (r: String)
    ensures
        r@ == locator(archive@, entry@),
{
    proof {
        reveal_strlit("//");
    }
    let mut out = archive.clone();
    out.append("//");
    let tail = string_of(&strip_leading_slashes(&chars_of(entry.as_str())));
    out.append(tail.as_str());
    assert(out@ =~= locator(archive@, entry@));
    out
}

fn find_mapping(maps: &Vec<SwfMapping>, name: &String) -> (r: Option<usize>)
    ensures
        r matches Some(i) ==> first_mapping(maps@, name@) == Some(i as int) && i < maps@.len(),
        r is None ==> first_mapping(maps@, name@) is None,
{
    let mut i: usize = 0;
    while i < maps.len()
        invariant
            0 <= i <= maps.len(),
            first_mapping(maps@.subrange(0, i as int), name@) is None,
        decreases maps.len() - i,
    {
        proof {
            assert(maps@.subrange(0, i + 1).drop_last() =~= maps@.subrange(0, i as int));
            assert(maps@.subrange(0, i + 1).last() == maps@[i as int]);
        }
        if maps[i].mod_name == *name {
            proof {
                lemma_first_mapping_extends(maps@, name@, i + 1, i as int);
            }
            return Some(i);
        }
        i += 1;
    }
    proof {
        assert(maps@.subrange(0, maps@.len() as int) =~= maps@);
    }
    None
}

proof fn lemma_first_mapping_extends(maps: Seq<SwfMapping>, name: Seq<char>, n: int, i: int)
    requires
        0 <= i < n <= maps.len(),
        first_mapping(maps.subrange(0, n), name) == Some(i),
    ensures
        first_mapping(maps, name) == Some(i),
    decreases maps.len() - n,
{
    if n == maps.len() {
        assert(maps.subrange(0, n) =~= maps);
    } else {
        assert(maps.subrange(0, n + 1).drop_last() =~= maps.subrange(0, n));
        lemma_first_mapping_extends(maps, name, n + 1, i);
    }
}

/// Whether `job` is the job for archive entry `f` of archive `archive`.
pub open spec fn archive_job(job: BatchJob, archive: Seq<char>, f: FileConfig) -> bool {
    &&& job.input@ == locator(archive, f.path@)
    &&& job.config == f.config
    &&& file_name_text(f.path@) == Some(job.file_name@)
}

/// The index of the first entry of `files` whose path has no file name.
pub open spec fn first_nameless(files: Seq<FileConfig>) -> Option<int>
    decreases files.len(),
{
    if files.len() == 0 {
        None
    } else {
        match first_nameless(files.drop_last()) {
            Some(i) => Some(i),
            None => if file_name_text(files.last().path@) is None { Some(files.len() - 1) } else { None },
        }
    }
}

proof fn lemma_first_nameless_extends(files: Seq<FileConfig>, n: int, i: int)
    requires
        0 <= i < n <= files.len(),
        first_nameless(files.subrange(0, n)) == Some(i),
    ensures
        first_nameless(files) == Some(i),
    decreases files.len() - n,
{
    if n == files.len() {
        assert(files.subrange(0, n) =~= files);
    } else {
        assert(files.subrange(0, n + 1).drop_last() =~= files.subrange(0, n));
        lemma_first_nameless_extends(files, n + 1, i);
    }
}

fn archive_jobs(archive: &String, files: &Vec<FileConfig>) -> (r: Result<Vec<BatchJob>, BatchError>)
    ensures
        match first_nameless(files@) {
            Some(i) => r == Err::<Vec<BatchJob>, BatchError>(BatchError::InvalidPath(files@[i].path)),
            None => r matches Ok(jobs) && jobs@.len() == files@.len()
                && forall|k: int| 0 <= k < files@.len() ==> archive_job(#[trigger] jobs@[k], archive@, files@[k]),
        },
{
    let mut jobs: Vec<BatchJob> = Vec::new();
    let mut i: usize = 0;
    while i < files.len()
        invariant
            0 <= i <= files.len(),
            first_nameless(files@.subrange(0, i as int)) is None,
            jobs@.len() == i,
            forall|k: int| 0 <= k < i ==> archive_job(#[trigger] jobs@[k], archive@, files@[k]),
        decreases files.len() - i,
    {
        proof {
            assert(files@.subrange(0, i + 1).drop_last() =~= files@.subrange(0, i as int));
            assert(files@.subrange(0, i + 1).last() == files@[i as int]);
        }
        let f = &files[i];
        match file_name_of(f.path.as_str()) {
            Some(name) => {
                jobs.push(BatchJob { input: archive_locator(archive, &f.path), config: f.config.clone(), file_name: name });
            },
            None => {
                proof {
                    lemma_first_nameless_extends(files@, i + 1, i as int);
                }
                return Err(BatchError::InvalidPath(f.path.clone()));
            },
        }
        i += 1;
    }
    proof {
        assert(files@.subrange(0, files@.len() as int) =~= files@);
    }
    Ok(jobs)
}

/// Plans the jobs of one mod. An archive mod (`ba2` set) gives one job per
/// listed entry, located in the chosen archive; any other mod with a patch
/// configuration gives one job for the movie its first mapping names; a
/// mod with neither gives none.
pub fn plan_mod(m: &ModConfig, config: &BatchProcessConfig) -> (r: Result<Vec<BatchJob>, BatchError>)
    ensures
        m.ba2 == Some(true) ==> match config.ba2_path {
            None => r == Err::<Vec<BatchJob>, BatchError>(BatchError::MissingArchive),
            Some(archive) => match m.files {
                None => r matches Ok(jobs) && jobs@.len() == 0,
                Some(files) => match first_nameless(files@) {
                    Some(i) => r == Err::<Vec<BatchJob>, BatchError>(BatchError::InvalidPath(files@[i].path)),
                    None => r matches Ok(jobs) && jobs@.len() == files@.len()
                        && forall|k: int| 0 <= k < files@.len() ==> archive_job(#[trigger] jobs@[k], archive@, files@[k]),
                },
            },
        },
        m.ba2 != Some(true) ==> match m.config {
            None => r matches Ok(jobs) && jobs@.len() == 0,
            Some(cfg) => match first_mapping(config.swf_mappings@, m.name@) {
                None => r == Err::<Vec<BatchJob>, BatchError>(BatchError::NoMapping(m.name)),
                Some(i) => {
                    let path = config.swf_mappings@[i].swf_path;
                    match file_name_text(path@) {
                        None => r == Err::<Vec<BatchJob>, BatchError>(BatchError::InvalidPath(path)),
                        Some(n) => r matches Ok(jobs) && jobs@.len() == 1 && jobs@[0].input == path
                            && jobs@[0].config == cfg && jobs@[0].file_name@ == n,
                    }
                },
            },
        },
{
    if m.ba2 == Some(true) {
        let archive = match &config.ba2_path {
            Some(a) => a,
            None => return Err(BatchError::MissingArchive),
        };
        match &m.files {
            Some(files) => archive_jobs(archive, files),
            None => Ok(Vec::new()),
        }
    } else {
        match &m.config {
            None => Ok(Vec::new()),
            Some(cfg) => {
                let i = match find_mapping(&config.swf_mappings, &m.name) {
                    Some(i) => i,
                    None => return Err(BatchError::NoMapping(m.name.clone())),
                };
                let path = &config.swf_mappings[i].swf_path;
                match file_name_of(path.as_str()) {
                    None => Err(BatchError::InvalidPath(path.clone())),
                    Some(name) => {
                        let mut jobs: Vec<BatchJob> = Vec::new();
                        jobs.push(BatchJob { input: path.clone(), config: cfg.clone(), file_name: name });
                        Ok(jobs)
                    },
                }
            },
        }
    }
}

} // verus!
