use vstd::prelude::*;

use crate::text::{push_str, push_char, string_of_range, to_chars};

verus! {

/// The index at which the path component ending at `end` starts
/// (just after the last `/` before `end`, or 0)
pub open spec fn component_start(p: Seq<char>, end: int) -> int
    decreases end,
{
    if end <= 0 {
        0
    } else if p[end - 1] == '/' {
        end
    } else {
        component_start(p, end - 1)
    }
}

/// The last normal component of the path `p[..end]`, as `Path::file_name` gives it:
/// trailing slashes and `.` components are skipped, and there is none if the path
/// is empty, made only of slashes and `.`, or ends in `..`.
pub open spec fn file_name_upto(p: Seq<char>, end: int) -> Option<Seq<char>>
    decreases end,
{
    if end <= 0 {
        None
    } else if p[end - 1] == '/' {
        file_name_upto(p, end - 1)
    } else {
        let start = component_start(p, end);
        if 0 <= start < end {
            let comp = p.subrange(start, end);
            if comp == seq!['.'] {
                file_name_upto(p, start)
            } else if comp == seq!['.', '.'] {
                None
            } else {
                Some(comp)
            }
        } else {
            None
        }
    }
}

/// The file name of a path, as `Path::file_name` gives it
pub open spec fn file_name_spec(p: Seq<char>) -> Option<Seq<char>> {
    file_name_upto(p, p.len() as int)
}

/// The index of the last occurrence of a character, or -1
pub open spec fn last_index_of(s: Seq<char>, c: char) -> int
    decreases s.len(),
{
    if s.len() == 0 {
        -1
    } else if s.last() == c {
        s.len() - 1
    } else {
        last_index_of(s.drop_last(), c)
    }
}

/// The extension of a file name, as `Path::extension` gives it: what follows the
/// last `.`, if there is one that is not the first character of the name
pub open spec fn extension_of_name(name: Seq<char>) -> Option<Seq<char>> {
    let dot = last_index_of(name, '.');
    if dot <= 0 {
        None
    } else {
        Some(name.subrange(dot + 1, name.len() as int))
    }
}

/// The extension of a path, as `Path::extension` gives it
pub open spec fn extension_spec(p: Seq<char>) -> Option<Seq<char>> {
    match file_name_spec(p) {
        Some(name) => extension_of_name(name),
        None => None,
    }
}

proof fn lemma_component_start_bounds(p: Seq<char>, end: int)
    requires
        0 <= end <= p.len(),
    ensures
        0 <= component_start(p, end) <= end,
        forall|i: int| component_start(p, end) <= i < end ==> p[i] != '/',
        component_start(p, end) > 0 ==> p[component_start(p, end) - 1] == '/',
    decreases end,
{
    if end > 0 && p[end - 1] != '/' {
        lemma_component_start_bounds(p, end - 1);
    }
}

/// The file name of a path (`Path::file_name`)
pub fn file_name(path: &str) -> (res: Option<String>)
    ensures
        match res {
            Some(s) => file_name_spec(path@) == Some(s@),
            None => file_name_spec(path@) is None,
        },
{
    let chars = to_chars(path);
    let mut end: usize = chars.len();
    loop
        invariant
            chars@ == path@,
            0 <= end <= chars@.len(),
            file_name_upto(chars@, end as int) == file_name_spec(path@),
        decreases end,
    {
        if end == 0 {
            return None;
        }
        if chars[end - 1] == '/' {
            end = end - 1;
        } else {
            let mut start: usize = end;
            while start > 0 && chars[start - 1] != '/'
                invariant
                    0 <= start <= end <= chars@.len(),
                    end > 0,
                    chars@[end - 1] != '/',
                    component_start(chars@, start as int) == component_start(chars@, end as int),
                decreases start,
            {
                start = start - 1;
            }
            proof {
                if start > 0 {
                    assert(chars@[start - 1] == '/');
                }
                assert(component_start(chars@, start as int) == start);
            }
            if end - start == 1 && chars[start] == '.' {
                assert(chars@.subrange(start as int, end as int) =~= seq!['.']);
                end = start;
            } else if end - start == 2 && chars[start] == '.' && chars[start + 1] == '.' {
                assert(chars@.subrange(start as int, end as int) =~= seq!['.', '.']);
                return None;
            } else {
                proof {
                    let comp = chars@.subrange(start as int, end as int);
                    if start + 1 == end {
                        assert(comp[0] == chars@[start as int]);
                        assert(comp != seq!['.']);
                    }
                    if start + 2 == end {
                        assert(comp[0] == chars@[start as int]);
                        assert(comp[1] == chars@[start + 1]);
                        assert(comp != seq!['.', '.']);
                    }
                    if start + 1 != end {
                        assert(comp.len() != 1);
                    }
                }
                return Some(string_of_range(&chars, start, end));
            }
        }
    }
}

/// The extension of a file name (`Path::extension` applied to a name)
pub fn extension_of(name: &str) -> (res: Option<String>)
    ensures
        match res {
            Some(s) => extension_of_name(name@) == Some(s@),
            None => extension_of_name(name@) is None,
        },
{
    let chars = to_chars(name);
    let mut i: usize = chars.len();
    assert(chars@.take(i as int) =~= chars@);
    while i > 0 && chars[i - 1] != '.'
        invariant
            chars@ == name@,
            0 <= i <= chars@.len(),
            last_index_of(chars@.take(i as int), '.') == last_index_of(chars@, '.'),
        decreases i,
    {
        assert(chars@.take(i as int).drop_last() =~= chars@.take(i - 1));
        i = i - 1;
    }
    proof {
        if i == 0 {
            assert(chars@.take(0).len() == 0);
        } else {
            assert(chars@.take(i as int).last() == '.');
        }
    }
    if i <= 1 {
        None
    } else {
        Some(string_of_range(&chars, i, chars.len()))
    }
}

/// The extension of a path (`Path::extension`)
pub fn extension(path: &str) -> (res: Option<String>)
    ensures
        match res {
            Some(s) => extension_spec(path@) == Some(s@),
            None => extension_spec(path@) is None,
        },
{
    match file_name(path) {
        Some(name) => extension_of(name.as_str()),
        None => None,
    }
}

/// The path with an extra extension added at its end (`PathBuf::with_added_extension`)
pub fn with_added_extension(path: &str, extension: &str) -> (res: String)
    ensures
        res@ == path@ + seq!['.'] + extension@,
{
    let mut res = String::new();
    push_str(&mut res, path);
    push_char(&mut res, '.');
    push_str(&mut res, extension);
    res
}

} // verus!
