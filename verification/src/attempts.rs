use vstd::prelude::*;

use rand::distributions::{Alphanumeric, DistString};

use crate::paths::{extension, extension_spec, file_name, file_name_spec, last_index_of};
use crate::text::{push_char, push_str, string_of_range, to_chars};

verus! {

pub const DEFAULT_FILE_EXTENSION: &'static str = "txt";
pub const BEST_MERGE_FILENAME: &'static str = "best_merge.txt";
pub const ATTEMPTS_DIRECTORY: &'static str = "merges";
pub const DEFAULT_CACHE_SIZE: usize = 128;

/// The path of `name` inside the directory `dir` (`Path::join`): an absolute `name` replaces
/// the directory, and a separator is added unless the directory is empty or ends with one
pub open spec fn joined(dir: Seq<char>, name: Seq<char>) -> Seq<char> {
    if name.len() > 0 && name[0] == '/' {
        name
    } else if dir.len() == 0 || dir.last() == '/' {
        dir + name
    } else {
        dir + seq!['/'] + name
    }
}

/// The path of `name` inside the directory `dir` (`Path::join`)
pub fn join_path(dir: &str, name: &str) -> (res: String)
    ensures
        res@ == joined(dir@, name@),
{
    let d = to_chars(dir);
    let n = to_chars(name);
    if n.len() > 0 && n[0] == '/' {
        return name.to_owned();
    }
    let mut res = String::new();
    push_str(&mut res, dir);
    if d.len() > 0 && d[d.len() - 1] != '/' {
        push_char(&mut res, '/');
    }
    push_str(&mut res, name);
    res
}

/// An identifier of an attempt to merge a file
#[derive(Debug, Clone, PartialEq, Eq)]
pub struct Attempt {
    pub file_name: String,
    pub uid: String,
    pub extension: String,
    pub dir: String,
}

/// The texts of an attempt: file name, uid, extension and directory
pub open spec fn attempt_view(a: Attempt) -> (Seq<char>, Seq<char>, Seq<char>, Seq<char>) {
    (a.file_name@, a.uid@, a.extension@, a.dir@)
}

/// The identifier of an attempt: its file name and uid, joined by `_`
pub open spec fn attempt_id(file_name: Seq<char>, uid: Seq<char>) -> Seq<char> {
    file_name + seq!['_'] + uid
}

impl Attempt {
    /// The path of a file of the attempt, named after a merge method or revision
    pub fn path(&self, file_name: &str) -> (res: String)
        ensures
            res@ == joined(self.dir@, file_name@ + seq!['.'] + self.extension@),
    {
        let mut name = String::new();
        push_str(&mut name, file_name);
        push_char(&mut name, '.');
        push_str(&mut name, self.extension.as_str());
        join_path(self.dir.as_str(), name.as_str())
    }

    /// The path of the file naming the method of the best merge
    pub fn best_merge_path(&self) -> (res: String)
        ensures
            res@ == joined(self.dir@, BEST_MERGE_FILENAME@),
    {
        join_path(self.dir.as_str(), BEST_MERGE_FILENAME)
    }

    /// The identifier of the attempt
    pub fn id(&self) -> (res: String)
        ensures
            res@ == attempt_id(self.file_name@, self.uid@),
    {
        let mut res = String::new();
        push_str(&mut res, self.file_name.as_str());
        push_char(&mut res, '_');
        push_str(&mut res, self.uid.as_str());
        res
    }
}

/// Is the character an ASCII letter or digit?
pub open spec fn is_ascii_alphanumeric(c: char) -> bool {
    ('a' <= c && c <= 'z') || ('A' <= c && c <= 'Z') || ('0' <= c && c <= '9')
}

/// A random string of eight ASCII letters and digits
/// (`rand::distributions::Alphanumeric::sample_string` with the thread's generator).
/// The contract says what holds of every outcome: its length and its characters.
#[verifier::external_body]
fn random_uid() -> (res: String)
    ensures
        res@.len() == 8,
        forall|i: int| 0 <= i < res@.len() ==> is_ascii_alphanumeric(#[trigger] res@[i]),
{
    Alphanumeric.sample_string(&mut rand::thread_rng(), 8)
}

/// A cache holding a collection of merge attempts to enable their review
#[derive(Debug, Clone)]
pub struct AttemptsCache {
    base_dir: String,
    max_size: usize,
}

/// The attempt for a file, with the given uid, in the cache directory `base_dir`: named after
/// the file name of the path (or `file`), with its extension (or `txt`)
pub open spec fn attempt_for(base_dir: Seq<char>, final_path: Seq<char>, uid: Seq<char>) -> (Seq<char>, Seq<char>, Seq<char>, Seq<char>) {
    let name = match file_name_spec(final_path) {
        Some(n) => n,
        None => "file"@,
    };
    let ext = match extension_spec(final_path) {
        Some(e) => e,
        None => DEFAULT_FILE_EXTENSION@,
    };
    (name, uid, ext, joined(base_dir, attempt_id(name, uid)))
}

/// The attempt an identifier names in the cache directory `base_dir`: the file name is what
/// comes before the last `_` and the uid what follows it, and the extension is what follows
/// the last `.` of the file name (or `txt`); there is none if there is no `_`
pub open spec fn parsed_attempt(base_dir: Seq<char>, id: Seq<char>) -> Option<(Seq<char>, Seq<char>, Seq<char>, Seq<char>)> {
    let u = last_index_of(id, '_');
    if u < 0 {
        None
    } else {
        let name = id.take(u);
        let uid = id.skip(u + 1);
        let d = last_index_of(name, '.');
        let ext = if d >= 0 { name.skip(d + 1) } else { DEFAULT_FILE_EXTENSION@ };
        Some((name, uid, ext, joined(base_dir, attempt_id(name, uid))))
    }
}

/// Does the `j`-th directory come before the `i`-th one when sorted from the most recently
/// modified on (stably)?
pub open spec fn more_recent(dirs: Seq<(String, u128)>, j: int, i: int) -> bool {
    dirs[j].1 > dirs[i].1 || (dirs[j].1 == dirs[i].1 && j < i)
}

/// The number of directories among the first `k` that come before the `i`-th one when sorted
/// from the most recently modified on
pub open spec fn count_more_recent(dirs: Seq<(String, u128)>, i: int, k: int) -> nat
    decreases k,
{
    if k <= 0 {
        0
    } else {
        count_more_recent(dirs, i, k - 1) + if more_recent(dirs, k - 1, i) { 1nat } else { 0nat }
    }
}

/// The position of the `i`-th directory once sorted from the most recently modified on (stably)
pub open spec fn recency_rank(dirs: Seq<(String, u128)>, i: int) -> nat {
    count_more_recent(dirs, i, dirs.len() as int)
}

/// The names of the directories among the first `k` beyond the `max_size` most recent ones
pub open spec fn pruned_names(dirs: Seq<(String, u128)>, max_size: nat, k: int) -> Seq<Seq<char>>
    decreases k,
{
    if k <= 0 {
        Seq::empty()
    } else {
        pruned_names(dirs, max_size, k - 1) + if recency_rank(dirs, k - 1) >= max_size {
            seq![dirs[k - 1].0@]
        } else {
            Seq::empty()
        }
    }
}

proof fn lemma_last_index_of_bounds(s: Seq<char>, c: char)
    ensures
        -1 <= last_index_of(s, c) < s.len(),
        last_index_of(s, c) >= 0 ==> s[last_index_of(s, c)] == c,
        forall|j: int| last_index_of(s, c) < j < s.len() ==> s[j] != c,
    decreases s.len(),
{
    if s.len() > 0 && s.last() != c {
        lemma_last_index_of_bounds(s.drop_last(), c);
        assert forall|j: int| last_index_of(s, c) < j < s.len() implies s[j] != c by {
            if j < s.len() - 1 {
                assert(s.drop_last()[j] == s[j]);
            }
        }
    }
}

/// The position just after the last occurrence of a character, or 0
pub(crate) fn after_last(v: &Vec<char>, c: char) -> (res: usize)
    ensures
        res == last_index_of(v@, c) + 1,
        res <= v@.len(),
{
    let mut i: usize = v.len();
    assert(v@.take(i as int) =~= v@);
    while i > 0 && v[i - 1] != c
        invariant
            0 <= i <= v@.len(),
            last_index_of(v@.take(i as int), c) == last_index_of(v@, c),
        decreases i,
    {
        assert(v@.take(i as int).drop_last() =~= v@.take(i - 1));
        i = i - 1;
    }
    proof {
        if i > 0 {
            assert(v@.take(i as int).last() == c);
        }
    }
    i
}

impl AttemptsCache {
    /// A cache in `base_dir` if given, else in the default directory if there is one,
    /// keeping `max_size` attempts (or 128).
    pub fn new(base_dir: Option<&str>, default_dir: Option<&str>, max_size: Option<usize>) -> (res: Result<Self, String>)
        ensures
            match res {
                Ok(cache) => Some(cache.base_dir_view()) == (match base_dir {
                    Some(d) => Some(d@),
                    None => match default_dir {
                        Some(d) => Some(d@),
                        None => None,
                    },
                }) && cache.max_size() == (match max_size {
                    Some(n) => n,
                    None => DEFAULT_CACHE_SIZE,
                }),
                Err(e) => base_dir is None && default_dir is None
                    && e@ == "Could not determine a suitable application data directory to store merge attempts"@,
            },
    {
        let dir = match base_dir {
            Some(d) => d,
            None => match default_dir {
                Some(d) => d,
                None => {
                    return Err(
                        "Could not determine a suitable application data directory to store merge attempts".to_owned(),
                    );
                },
            },
        };
        let max_size = match max_size {
            Some(n) => n,
            None => DEFAULT_CACHE_SIZE,
        };
        Ok(AttemptsCache { base_dir: dir.to_owned(), max_size })
    }

    /// The directory of the cache
    pub closed spec fn base_dir_view(self) -> Seq<char> {
        self.base_dir@
    }

    /// The number of attempts the cache keeps
    pub closed spec fn max_size(self) -> usize {
        self.max_size
    }

    /// The directory of the cache
    pub fn base_dir(&self) -> (res: &str)
        ensures
            res@ == self.base_dir_view(),
    {
        self.base_dir.as_str()
    }

    /// The attempt to merge the file at `final_path`, with the given uid
    pub fn attempt_named(&self, final_path: &str, uid: String) -> (res: Attempt)
        ensures
            attempt_view(res) == attempt_for(self.base_dir_view(), final_path@, uid@),
    {
        let name = match file_name(final_path) {
            Some(n) => n,
            None => "file".to_owned(),
        };
        let ext = match extension(final_path) {
            Some(e) => e,
            None => DEFAULT_FILE_EXTENSION.to_owned(),
        };
        let mut dir_name = String::new();
        push_str(&mut dir_name, name.as_str());
        push_char(&mut dir_name, '_');
        push_str(&mut dir_name, uid.as_str());
        let dir = join_path(self.base_dir.as_str(), dir_name.as_str());
        Attempt { file_name: name, uid, extension: ext, dir }
    }

    /// Registers a new attempt to merge the file at `final_path`, under a random uid
    /// of eight ASCII letters and digits
    pub fn new_attempt(&self, final_path: &str) -> (res: Attempt)
        ensures
            exists|uid: Seq<char>| {
                &&& uid.len() == 8
                &&& forall|i: int| 0 <= i < uid.len() ==> is_ascii_alphanumeric(#[trigger] uid[i])
                &&& attempt_view(res) == attempt_for(self.base_dir_view(), final_path@, uid)
            },
    {
        let uid = random_uid();
        self.attempt_named(final_path, uid)
    }

    /// Picks the directories of attempts to remove so that the cache doesn't grow too much:
    /// all but the `max_size` most recently modified ones (given with their modification times),
    /// in the order they are given
    pub fn attempts_to_prune(&self, dirs: &Vec<(String, u128)>) -> (res: Vec<String>)
        ensures
            res@.map_values(|s: String| s@) == pruned_names(dirs@, self.max_size() as nat, dirs@.len() as int),
    {
        let mut res: Vec<String> = Vec::new();
        let mut i: usize = 0;
        while i < dirs.len()
            invariant
                0 <= i <= dirs@.len(),
                res@.map_values(|s: String| s@) == pruned_names(dirs@, self.max_size as nat, i as int),
            decreases dirs@.len() - i,
        {
            let mut rank: usize = 0;
            let mut j: usize = 0;
            while j < dirs.len()
                invariant
                    0 <= j <= dirs@.len(),
                    i < dirs@.len(),
                    rank == count_more_recent(dirs@, i as int, j as int),
                    rank <= j,
                decreases dirs@.len() - j,
            {
                if dirs[j].1 > dirs[i].1 || (dirs[j].1 == dirs[i].1 && j < i) {
                    rank = rank + 1;
                }
                j = j + 1;
            }
            let ghost before = res@.map_values(|s: String| s@);
            if rank >= self.max_size {
                res.push(dirs[i].0.clone());
                assert(res@.map_values(|s: String| s@) =~= before.push(dirs@[i as int].0@));
            }
            i = i + 1;
        }
        res
    }

    /// The attempt an identifier names (see [`parsed_attempt`])
    pub fn parse_attempt_id(&self, attempt_id: &str) -> (res: Result<Attempt, String>)
        ensures
            match res {
                Ok(a) => parsed_attempt(self.base_dir_view(), attempt_id@) == Some(attempt_view(a)),
                Err(e) => parsed_attempt(self.base_dir_view(), attempt_id@) is None
                    && e@ == "Invalid attempt id, should contain a '_' character"@,
            },
    {
        let id = to_chars(attempt_id);
        let cut = after_last(&id, '_');
        if cut == 0 {
            return Err("Invalid attempt id, should contain a '_' character".to_owned());
        }
        let name_chars = crate::text::vec_of_range(&id, 0, cut - 1);
        assert(name_chars@ =~= id@.take(cut - 1));
        let file_name = string_of_range(&id, 0, cut - 1);
        let uid = string_of_range(&id, cut, id.len());
        assert(id@.subrange(cut as int, id@.len() as int) =~= id@.skip(cut as int));
        let dot = after_last(&name_chars, '.');
        let extension = if dot > 0 {
            assert(name_chars@.subrange(dot as int, name_chars@.len() as int) =~= name_chars@.skip(dot as int));
            string_of_range(&name_chars, dot, name_chars.len())
        } else {
            DEFAULT_FILE_EXTENSION.to_owned()
        };
        let mut dir_name = String::new();
        push_str(&mut dir_name, file_name.as_str());
        push_char(&mut dir_name, '_');
        push_str(&mut dir_name, uid.as_str());
        let dir = join_path(self.base_dir.as_str(), dir_name.as_str());
        Ok(Attempt { file_name, uid, extension, dir })
    }
}


proof fn lemma_last_index_of_append(p: Seq<char>, s: Seq<char>, c: char)
    requires
        forall|j: int| 0 <= j < s.len() ==> s[j] != c,
    ensures
        last_index_of(p + s, c) == last_index_of(p, c),
    decreases s.len(),
{
    if s.len() > 0 {
        assert((p + s).drop_last() =~= p + s.drop_last());
        assert((p + s).last() == s.last());
        lemma_last_index_of_append(p, s.drop_last(), c);
    } else {
        assert(p + s =~= p);
    }
}

/// An attempt registered for a file is found again from its identifier, as long as its uid has
/// no `_` (random uids have none) and the last `.` of the file name, if any, is not its first
/// character (a name such as `.bashrc` has no extension, while its identifier reads one).
pub proof fn law_attempt_id_round_trip(base_dir: Seq<char>, final_path: Seq<char>, uid: Seq<char>)
    requires
        forall|i: int| 0 <= i < uid.len() ==> uid[i] != '_',
        match file_name_spec(final_path) {
            Some(name) => last_index_of(name, '.') != 0,
            None => true,
        },
    ensures
        ({
            let a = attempt_for(base_dir, final_path, uid);
            parsed_attempt(base_dir, attempt_id(a.0, a.1)) == Some(a)
        }),
{
    let a = attempt_for(base_dir, final_path, uid);
    let name = a.0;
    let id = attempt_id(name, uid);
    lemma_last_index_of_append(name + seq!['_'], uid, '_');
    assert((name + seq!['_']).last() == '_');
    assert(last_index_of(name + seq!['_'], '_') == name.len());
    assert(id.take(name.len() as int) =~= name);
    assert(id.skip(name.len() + 1int) =~= uid);
    match file_name_spec(final_path) {
        Some(n) => {
            lemma_last_index_of_bounds(n, '.');
        },
        None => {
            reveal_strlit("file");
            assert(last_index_of("file"@, '.') == -1) by {
                reveal_with_fuel(last_index_of, 5);
            }
        },
    }
}

} // verus!
