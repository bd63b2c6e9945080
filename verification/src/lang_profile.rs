use vstd::prelude::*;

use crate::supported_langs::{supported_languages, supported_naming};
use crate::paths::{extension, extension_spec, file_name, file_name_spec};
use crate::signature::{message_with_quoted, quoted, step_is_invalid, step_is_valid, PathStep, SignatureDefinition};
use crate::text::{eq_ignore_ascii_case, eq_ignore_ascii_case_spec, push_str, str_eq, to_chars, trim, trimmed};

verus! {

/// Language-dependent settings to influence how merging is done.
/// All those settings are declarative.
#[derive(Debug, Clone)]
pub struct LangProfile {
    /// a name that identifies the language
    pub name: &'static str,
    /// alternate names for the language
    pub alternate_names: &'static [&'static str],
    /// the file extensions of files in this language
    pub extensions: Vec<&'static str>,
    /// the full file names that this language should be used for
    pub file_names: Vec<&'static str>,
    /// list of node types which should be treated as leaves (atomic parts of the syntax tree)
    pub atomic_nodes: Vec<&'static str>,
    /// list of node types whose child order does not matter
    pub commutative_parents: Vec<CommutativeParent>,
    /// how to extract the signatures of nodes, uniquely identifying children of a commutative parent
    pub signatures: Vec<SignatureDefinition>,
    /// The injections query to locate nodes that need parsing in other languages.
    pub injections: Option<&'static str>,
    /// List of node types that should be flattened
    pub flattened_nodes: &'static [&'static str],
    /// List of node types that should be treated like comments,
    /// meaning that they can be bundled into neighbouring nodes to ease commutative merging.
    pub comment_nodes: &'static [&'static str],
}

/// Is one of the names equal to the given one, ignoring the case of ASCII letters?
pub open spec fn some_name_matches(names: Seq<&'static str>, name: Seq<char>) -> bool {
    exists|i: int| 0 <= i < names.len() && eq_ignore_ascii_case_spec((#[trigger] names[i])@, name)
}

/// Is one of the names equal to the given one, ignoring the case of ASCII letters?
pub fn any_name_matches(names: &[&'static str], name: &str) -> (res: bool)
    ensures
        res == some_name_matches(names@, name@),
{
    let mut i: usize = 0;
    while i < names.len()
        invariant
            0 <= i <= names@.len(),
            forall|j: int| 0 <= j < i ==> !eq_ignore_ascii_case_spec((#[trigger] names@[j])@, name@),
        decreases names@.len() - i,
    {
        if eq_ignore_ascii_case(names[i], name) {
            return true;
        }
        i = i + 1;
    }
    false
}

/// How a language goes by: its name, alternate names, extensions and file names
pub type Naming = (&'static str, Seq<&'static str>, Seq<&'static str>, Seq<&'static str>);

/// The names by which a profile goes
pub open spec fn naming(p: LangProfile) -> Naming {
    (p.name, p.alternate_names@, p.extensions@, p.file_names@)
}

/// Does a language go by that name, as its name, an alternate name, an extension or a file
/// name (ignoring the case of ASCII letters)?
pub open spec fn naming_has_name(e: Naming, name: Seq<char>) -> bool {
    ||| eq_ignore_ascii_case_spec(e.0@, name)
    ||| some_name_matches(e.1, name)
    ||| some_name_matches(e.2, name)
    ||| some_name_matches(e.3, name)
}

/// Is a language the one for a file with that extension and file name?
pub open spec fn naming_fits_file(e: Naming, ext: Seq<char>, file_name: Seq<char>) -> bool {
    ||| some_name_matches(e.2, ext)
    ||| names_view(e.3).contains(file_name)
}

/// Does the profile go by that name, as its name, an alternate name, an extension or a file name
/// (ignoring the case of ASCII letters)?
pub open spec fn profile_has_name(p: LangProfile, name: Seq<char>) -> bool {
    naming_has_name(naming(p), name)
}

/// Is the profile the one for a file with that extension and file name?
pub open spec fn profile_fits_file(p: LangProfile, ext: Seq<char>, file_name: Seq<char>) -> bool {
    naming_fits_file(naming(p), ext, file_name)
}

/// Does some supported language go by that name?
pub open spec fn name_found(name: Seq<char>) -> bool {
    exists|i: int| 0 <= i < supported_naming().len() && naming_has_name(#[trigger] supported_naming()[i], name)
}

/// Is some supported language the one for a file with that extension and file name?
pub open spec fn file_found(ext: Seq<char>, file_name: Seq<char>) -> bool {
    exists|i: int| 0 <= i < supported_naming().len() && naming_fits_file(#[trigger] supported_naming()[i], ext, file_name)
}

/// Why no language is found for a file, given the language names supplied (first the one
/// asked for, then the one its attributes set): the message, or none when one is found
pub open spec fn find_error(filename: Seq<char>, language_name: Option<Seq<char>>, attribute_language: Option<Seq<char>>) -> Option<Seq<char>> {
    match language_name {
        Some(n) => if name_found(n) {
            None
        } else {
            Some("Specified language '"@ + n + "' could not be found"@)
        },
        None => match attribute_language {
            Some(a) => if name_found(a) {
                None
            } else {
                Some("Attribute-specified language '"@ + a + "' could not be found"@)
            },
            None => match (extension_spec(filename), file_name_spec(filename)) {
                (Some(ext), Some(name)) => if file_found(ext, name) {
                    None
                } else {
                    Some("Could not find a supported language for "@ + filename)
                },
                _ => Some("Could not find a supported language for "@ + filename),
            },
        },
    }
}

/// The view of an optional string slice
pub open spec fn opt_str_view(o: Option<&str>) -> Option<Seq<char>> {
    match o {
        Some(s) => Some(s@),
        None => None,
    }
}

/// Is entry `i` of the table the first one that goes by the name?
pub open spec fn first_with_name(t: Seq<Naming>, name: Seq<char>, i: int) -> bool {
    &&& 0 <= i < t.len()
    &&& naming_has_name(t[i], name)
    &&& forall|j: int| 0 <= j < i ==> !naming_has_name(#[trigger] t[j], name)
}

/// Is entry `i` of the table the first one for a file with that extension and file name?
pub open spec fn first_for_file(t: Seq<Naming>, ext: Seq<char>, file_name: Seq<char>, i: int) -> bool {
    &&& 0 <= i < t.len()
    &&& naming_fits_file(t[i], ext, file_name)
    &&& forall|j: int| 0 <= j < i ==> !naming_fits_file(#[trigger] t[j], ext, file_name)
}

/// The kind of a commutative parent defined by kind
pub open spec fn parent_has_kind(p: CommutativeParent, kind: Seq<char>) -> bool {
    p.parent_type matches ParentType::ByKind(k) && k@ == kind
}

/// The text listing the languages, in the form given by `languages_listing`
pub open spec fn languages_text(langs: Seq<Naming>, gitattributes: bool) -> Seq<char>
    decreases langs.len(),
{
    if langs.len() == 0 {
        Seq::empty()
    } else {
        languages_text(langs.drop_last(), gitattributes) + language_line(langs.last(), gitattributes)
    }
}

/// The lines describing one language
pub open spec fn language_line(e: Naming, gitattributes: bool) -> Seq<char> {
    if gitattributes {
        gitattributes_lines(e.2)
    } else {
        e.0@ + " ("@ + extension_patterns(e.2) + ")\n"@
    }
}

/// One `*.ext merge=mergiraf` line for each extension
pub open spec fn gitattributes_lines(exts: Seq<&'static str>) -> Seq<char>
    decreases exts.len(),
{
    if exts.len() == 0 {
        Seq::empty()
    } else {
        gitattributes_lines(exts.drop_last()) + "*."@ + exts.last()@ + " merge=mergiraf\n"@
    }
}

/// The `.gitattributes` line for an extension
pub open spec fn gitattributes_line(ext: &'static str) -> Seq<char> {
    "*."@ + ext@ + " merge=mergiraf\n"@
}

/// Does `line` occur in `text`?
pub open spec fn occurs_in(line: Seq<char>, text: Seq<char>) -> bool {
    exists|p: int| 0 <= p && p + line.len() <= text.len() && #[trigger] text.subrange(p, p + line.len()) == line
}

/// The number of line breaks of a text
pub open spec fn line_breaks(s: Seq<char>) -> nat
    decreases s.len(),
{
    if s.len() == 0 {
        0
    } else {
        line_breaks(s.drop_last()) + if s.last() == '\n' { 1nat } else { 0nat }
    }
}

/// The total number of extensions of the languages
pub open spec fn extension_total(langs: Seq<Naming>) -> nat
    decreases langs.len(),
{
    if langs.len() == 0 {
        0
    } else {
        extension_total(langs.drop_last()) + langs.last().2.len()
    }
}

proof fn lemma_occurs_in_prefix(line: Seq<char>, a: Seq<char>, b: Seq<char>)
    requires
        occurs_in(line, a),
    ensures
        occurs_in(line, a + b),
{
    let p = choose|p: int| 0 <= p && p + line.len() <= a.len() && #[trigger] a.subrange(p, p + line.len()) == line;
    assert((a + b).subrange(p, p + line.len()) =~= a.subrange(p, p + line.len()));
}

proof fn lemma_occurs_at_end(a: Seq<char>, line: Seq<char>)
    ensures
        occurs_in(line, a + line),
{
    assert((a + line).subrange(a.len() as int, a.len() + line.len() as int) =~= line);
}

proof fn lemma_line_breaks_concat(a: Seq<char>, b: Seq<char>)
    ensures
        line_breaks(a + b) == line_breaks(a) + line_breaks(b),
    decreases b.len(),
{
    if b.len() == 0 {
        assert(a + b =~= a);
    } else {
        lemma_line_breaks_concat(a, b.drop_last());
        assert((a + b).drop_last() =~= a + b.drop_last());
        assert((a + b).last() == b.last());
    }
}

proof fn lemma_line_breaks_none(s: Seq<char>)
    requires
        forall|i: int| 0 <= i < s.len() ==> s[i] != '\n',
    ensures
        line_breaks(s) == 0,
    decreases s.len(),
{
    if s.len() > 0 {
        lemma_line_breaks_none(s.drop_last());
    }
}

/// The lines for a list of extensions hold the line of each
proof fn lemma_gitattributes_lines_hold(exts: Seq<&'static str>, j: int)
    requires
        0 <= j < exts.len(),
    ensures
        occurs_in(gitattributes_line(exts[j]), gitattributes_lines(exts)),
    decreases exts.len(),
{
    let prev = gitattributes_lines(exts.drop_last());
    assert(gitattributes_lines(exts) =~= prev + gitattributes_line(exts.last()));
    if j == exts.len() - 1 {
        lemma_occurs_at_end(prev, gitattributes_line(exts.last()));
    } else {
        lemma_gitattributes_lines_hold(exts.drop_last(), j);
        lemma_occurs_in_prefix(gitattributes_line(exts[j]), prev, gitattributes_line(exts.last()));
    }
}

/// The lines for a list of extensions without line breaks have one line break per extension
proof fn lemma_gitattributes_lines_count(exts: Seq<&'static str>)
    requires
        forall|j: int, i: int| 0 <= j < exts.len() && 0 <= i < exts[j]@.len() ==> (#[trigger] exts[j]@[i]) != '\n',
    ensures
        line_breaks(gitattributes_lines(exts)) == exts.len(),
    decreases exts.len(),
{
    if exts.len() > 0 {
        let e = exts.last();
        lemma_gitattributes_lines_count(exts.drop_last());
        reveal_strlit("*.");
        reveal_strlit(" merge=mergiraf\n");
        let head = "*."@ + e@ + " merge=mergiraf"@;
        reveal_strlit(" merge=mergiraf");
        assert(gitattributes_line(e) =~= head.push('\n'));
        assert forall|i: int| 0 <= i < head.len() implies head[i] != '\n' by {
            if 2 <= i < 2 + e@.len() {
                assert(head[i] == exts[exts.len() - 1]@[i - 2]);
            }
        }
        lemma_line_breaks_none(head);
        assert(head.push('\n').drop_last() =~= head);
        assert(gitattributes_lines(exts) =~= gitattributes_lines(exts.drop_last()) + gitattributes_line(e));
        lemma_line_breaks_concat(gitattributes_lines(exts.drop_last()), gitattributes_line(e));
    }
}

/// The `.gitattributes` listing holds the line `*.ext merge=mergiraf` for every extension of
/// every language listed.
pub proof fn law_gitattributes_listing_covers_every_extension(langs: Seq<Naming>, i: int, j: int)
    requires
        0 <= i < langs.len(),
        0 <= j < langs[i].2.len(),
    ensures
        occurs_in(gitattributes_line(langs[i].2[j]), languages_text(langs, true)),
    decreases langs.len(),
{
    let prev = languages_text(langs.drop_last(), true);
    if i == langs.len() - 1 {
        lemma_gitattributes_lines_hold(langs.last().2, j);
        let line = gitattributes_line(langs[i].2[j]);
        let text = gitattributes_lines(langs.last().2);
        let p = choose|p: int| 0 <= p && p + line.len() <= text.len() && #[trigger] text.subrange(p, p + line.len()) == line;
        assert((prev + text).subrange(prev.len() + p, prev.len() + p + line.len()) =~= text.subrange(p, p + line.len()));
    } else {
        assert(langs.drop_last()[i] == langs[i]);
        law_gitattributes_listing_covers_every_extension(langs.drop_last(), i, j);
        lemma_occurs_in_prefix(gitattributes_line(langs[i].2[j]), prev, gitattributes_lines(langs.last().2));
    }
}

/// The `.gitattributes` listing has one line per extension: as many line breaks as the
/// languages have extensions (none of which holds a line break).
pub proof fn law_gitattributes_listing_has_one_line_per_extension(langs: Seq<Naming>)
    requires
        forall|k: int, j: int, i: int| 0 <= k < langs.len() && 0 <= j < langs[k].2.len() && 0 <= i < langs[k].2[j]@.len()
            ==> (#[trigger] langs[k].2[j]@[i]) != '\n',
    ensures
        line_breaks(languages_text(langs, true)) == extension_total(langs),
    decreases langs.len(),
{
    if langs.len() > 0 {
        let last = langs.last();
        assert forall|k: int, j: int, i: int| 0 <= k < langs.drop_last().len() && 0 <= j < langs.drop_last()[k].2.len()
            && 0 <= i < langs.drop_last()[k].2[j]@.len() implies (#[trigger] langs.drop_last()[k].2[j]@[i]) != '\n' by {
            assert(langs.drop_last()[k] == langs[k]);
        }
        law_gitattributes_listing_has_one_line_per_extension(langs.drop_last());
        assert forall|j: int, i: int| 0 <= j < last.2.len() && 0 <= i < last.2[j]@.len() implies (#[trigger] last.2[j]@[i]) != '\n' by {
            assert(langs[langs.len() - 1] == last);
        }
        lemma_gitattributes_lines_count(last.2);
        lemma_line_breaks_concat(languages_text(langs.drop_last(), true), gitattributes_lines(last.2));
    }
}

/// The extensions as `*.ext` patterns separated by commas
pub open spec fn extension_patterns(exts: Seq<&'static str>) -> Seq<char>
    decreases exts.len(),
{
    if exts.len() == 0 {
        Seq::empty()
    } else if exts.len() == 1 {
        "*."@ + exts[0]@
    } else {
        extension_patterns(exts.drop_last()) + ", "@ + "*."@ + exts.last()@
    }
}

/// The position of the first profile that goes by the given name
pub fn position_by_name(langs: &Vec<LangProfile>, name: &str) -> (res: Option<usize>)
    ensures
        match res {
            Some(i) => i < langs@.len() && profile_has_name(langs@[i as int], name@)
                && forall|j: int| 0 <= j < i ==> !profile_has_name(#[trigger] langs@[j], name@),
            None => forall|j: int| 0 <= j < langs@.len() ==> !profile_has_name(#[trigger] langs@[j], name@),
        },
{
    let mut i: usize = 0;
    while i < langs.len()
        invariant
            0 <= i <= langs@.len(),
            forall|j: int| 0 <= j < i ==> !profile_has_name(#[trigger] langs@[j], name@),
        decreases langs@.len() - i,
    {
        let p = &langs[i];
        if eq_ignore_ascii_case(p.name, name) || any_name_matches(p.alternate_names, name)
            || any_name_matches(p.extensions.as_slice(), name) || any_name_matches(p.file_names.as_slice(), name)
        {
            return Some(i);
        }
        i = i + 1;
    }
    None
}

/// The position of the first profile for files with the given extension and file name
pub fn position_by_file(langs: &Vec<LangProfile>, ext: &str, file_name: &str) -> (res: Option<usize>)
    ensures
        match res {
            Some(i) => i < langs@.len() && profile_fits_file(langs@[i as int], ext@, file_name@)
                && forall|j: int| 0 <= j < i ==> !profile_fits_file(#[trigger] langs@[j], ext@, file_name@),
            None => forall|j: int| 0 <= j < langs@.len() ==> !profile_fits_file(#[trigger] langs@[j], ext@, file_name@),
        },
{
    let mut i: usize = 0;
    while i < langs.len()
        invariant
            0 <= i <= langs@.len(),
            forall|j: int| 0 <= j < i ==> !profile_fits_file(#[trigger] langs@[j], ext@, file_name@),
        decreases langs@.len() - i,
    {
        let p = &langs[i];
        if any_name_matches(p.extensions.as_slice(), ext) || contains_name(&p.file_names, file_name) {
            return Some(i);
        }
        i = i + 1;
    }
    None
}

/// The list of supported languages, either in the format understood by `.gitattributes`
/// (one `*.ext merge=mergiraf` line per extension), or in a more human-readable format
/// (one line per language with its name and extensions).
pub fn languages_listing(langs: &Vec<LangProfile>, gitattributes: bool) -> (res: String)
    ensures
        res@ == languages_text(langs@.map_values(|p: LangProfile| naming(p)), gitattributes),
{
    let ghost table = langs@.map_values(|p: LangProfile| naming(p));
    let mut res = String::new();
    let mut i: usize = 0;
    while i < langs.len()
        invariant
            0 <= i <= langs@.len(),
            table == langs@.map_values(|p: LangProfile| naming(p)),
            res@ == languages_text(table.take(i as int), gitattributes),
        decreases langs@.len() - i,
    {
        let p = &langs[i];
        let ghost before = res@;
        let exts = &p.extensions;
        if gitattributes {
            let mut k: usize = 0;
            while k < exts.len()
                invariant
                    0 <= k <= exts@.len(),
                    res@ == before + gitattributes_lines(exts@.take(k as int)),
                decreases exts@.len() - k,
            {
                push_str(&mut res, "*.");
                push_str(&mut res, exts[k]);
                push_str(&mut res, " merge=mergiraf\n");
                assert(exts@.take(k + 1).drop_last() =~= exts@.take(k as int));
                k = k + 1;
            }
            assert(exts@.take(k as int) =~= exts@);
        } else {
            push_str(&mut res, p.name);
            push_str(&mut res, " (");
            let ghost mid = res@;
            let mut k: usize = 0;
            while k < exts.len()
                invariant
                    0 <= k <= exts@.len(),
                    res@ == mid + extension_patterns(exts@.take(k as int)),
                decreases exts@.len() - k,
            {
                if k > 0 {
                    push_str(&mut res, ", ");
                }
                push_str(&mut res, "*.");
                push_str(&mut res, exts[k]);
                assert(exts@.take(k + 1).drop_last() =~= exts@.take(k as int));
                assert(exts@.take(k + 1).last() == exts@[k as int]);
                proof {
                    if k == 0 {
                        assert(exts@.take(1)[0] == exts@[0]);
                        assert(extension_patterns(exts@.take(0)) =~= Seq::<char>::empty());
                    }
                }
                k = k + 1;
            }
            assert(exts@.take(k as int) =~= exts@);
            push_str(&mut res, ")\n");
        }
        assert(table.take(i + 1).drop_last() =~= table.take(i as int));
        assert(table.take(i + 1).last() == naming(*p));
        i = i + 1;
    }
    assert(table.take(i as int) =~= table);
    res
}

impl LangProfile {
    /// Load a profile by language name.
    /// Alternate names or extensions are also considered.
    pub fn find_by_name(name: &str) -> (res: Option<LangProfile>)
        ensures
            match res {
                Some(p) => exists|i: int| first_with_name(supported_naming(), name@, i) && naming(p) == supported_naming()[i],
                None => forall|j: int| 0 <= j < supported_naming().len() ==> !naming_has_name(#[trigger] supported_naming()[j], name@),
            },
            res is Some ==> profile_has_name(res->0, name@),
    {
        let mut langs = supported_languages();
        let ghost table = langs@.map_values(|p: LangProfile| naming(p));
        match position_by_name(&langs, name) {
            Some(i) => {
                let p = langs.remove(i);
                proof {
                    assert forall|j: int| 0 <= j < i implies !naming_has_name(#[trigger] table[j], name@) by {
                        assert(table[j] == naming(langs@[j]));
                    }
                    assert(first_with_name(table, name@, i as int));
                }
                Some(p)
            },
            None => {
                assert forall|j: int| 0 <= j < table.len() implies !naming_has_name(#[trigger] table[j], name@) by {
                    assert(table[j] == naming(langs@[j]));
                }
                None
            },
        }
    }

    /// Detects the language of a file based on its filename
    pub fn detect_from_filename(filename: &str) -> (res: Option<LangProfile>)
        ensures
            match (extension_spec(filename@), file_name_spec(filename@)) {
                (Some(ext), Some(name)) => match res {
                    Some(p) => exists|i: int| first_for_file(supported_naming(), ext, name, i) && naming(p) == supported_naming()[i],
                    None => forall|j: int| 0 <= j < supported_naming().len() ==> !naming_fits_file(#[trigger] supported_naming()[j], ext, name),
                },
                _ => res is None,
            },
            res is Some ==> extension_spec(filename@) is Some && file_name_spec(filename@) is Some
                && profile_fits_file(res->0, extension_spec(filename@)->0, file_name_spec(filename@)->0),
    {
        let ext = match extension(filename) {
            Some(e) => e,
            None => {
                return None;
            },
        };
        let name = match file_name(filename) {
            Some(n) => n,
            None => {
                return None;
            },
        };
        let mut langs = supported_languages();
        let ghost table = langs@.map_values(|p: LangProfile| naming(p));
        match position_by_file(&langs, ext.as_str(), name.as_str()) {
            Some(i) => {
                let p = langs.remove(i);
                proof {
                    assert forall|j: int| 0 <= j < i implies !naming_fits_file(#[trigger] table[j], ext@, name@) by {
                        assert(table[j] == naming(langs@[j]));
                    }
                    assert(first_for_file(table, ext@, name@, i as int));
                }
                Some(p)
            },
            None => {
                assert forall|j: int| 0 <= j < table.len() implies !naming_fits_file(#[trigger] table[j], ext@, name@) by {
                    assert(table[j] == naming(langs@[j]));
                }
                None
            },
        }
    }

    /// Loads a language, by:
    /// - first, looking up the language using its name if provided
    /// - failing that, by using the language that the VCS attributes of the file set, if any
    /// - failing that, by detecting it from a filename
    pub fn find(filename: &str, language_name: Option<&str>, attribute_language: Option<&str>) -> (res: Result<LangProfile, String>)
        ensures
            match res {
                Ok(_) => find_error(filename@, opt_str_view(language_name), opt_str_view(attribute_language)) is None,
                Err(e) => find_error(filename@, opt_str_view(language_name), opt_str_view(attribute_language)) == Some(e@),
            },
            match language_name {
                Some(n) => match res {
                    Ok(p) => exists|i: int| first_with_name(supported_naming(), n@, i) && naming(p) == supported_naming()[i],
                    Err(e) => e@ == "Specified language '"@ + n@ + "' could not be found"@
                        && forall|j: int| 0 <= j < supported_naming().len() ==> !naming_has_name(#[trigger] supported_naming()[j], n@),
                },
                None => match attribute_language {
                    Some(a) => match res {
                        Ok(p) => exists|i: int| first_with_name(supported_naming(), a@, i) && naming(p) == supported_naming()[i],
                        Err(e) => e@ == "Attribute-specified language '"@ + a@ + "' could not be found"@
                            && forall|j: int| 0 <= j < supported_naming().len() ==> !naming_has_name(#[trigger] supported_naming()[j], a@),
                    },
                    None => match (extension_spec(filename@), file_name_spec(filename@), res) {
                        (Some(ext), Some(name), Ok(p)) => exists|i: int| first_for_file(supported_naming(), ext, name, i) && naming(p) == supported_naming()[i],
                        (Some(ext), Some(name), Err(e)) => e@ == "Could not find a supported language for "@ + filename@
                            && forall|j: int| 0 <= j < supported_naming().len() ==> !naming_fits_file(#[trigger] supported_naming()[j], ext, name),
                        (_, _, Ok(p)) => false,
                        (_, _, Err(e)) => e@ == "Could not find a supported language for "@ + filename@,
                    },
                },
            },
    {
        if let Some(lang_name) = language_name {
            match Self::find_by_name(lang_name) {
                Some(p) => Ok(p),
                None => {
                    let mut msg = String::new();
                    push_str(&mut msg, "Specified language '");
                    push_str(&mut msg, lang_name);
                    push_str(&mut msg, "' could not be found");
                    Err(msg)
                },
            }
        } else if let Some(lang_name) = attribute_language {
            match Self::find_by_name(lang_name) {
                Some(p) => Ok(p),
                None => {
                    let mut msg = String::new();
                    push_str(&mut msg, "Attribute-specified language '");
                    push_str(&mut msg, lang_name);
                    push_str(&mut msg, "' could not be found");
                    Err(msg)
                },
            }
        } else {
            match Self::detect_from_filename(filename) {
                Some(p) => Ok(p),
                None => {
                    let mut msg = String::new();
                    push_str(&mut msg, "Could not find a supported language for ");
                    push_str(&mut msg, filename);
                    Err(msg)
                },
            }
        }
    }

    /// Do all the children of this parent commute?
    /// This will return the first commutative parent defined on this node kind.
    /// Commutative parents defined by queries are ignored.
    pub fn get_commutative_parent_by_kind(&self, kind: &str) -> (res: Option<&CommutativeParent>)
        ensures
            match res {
                Some(p) => exists|i: int| 0 <= i < self.commutative_parents@.len() && *p == self.commutative_parents@[i]
                    && parent_has_kind(self.commutative_parents@[i], kind@)
                    && forall|j: int| 0 <= j < i ==> !parent_has_kind(#[trigger] self.commutative_parents@[j], kind@),
                None => forall|j: int| 0 <= j < self.commutative_parents@.len()
                    ==> !parent_has_kind(#[trigger] self.commutative_parents@[j], kind@),
            },
    {
        let mut i: usize = 0;
        while i < self.commutative_parents.len()
            invariant
                0 <= i <= self.commutative_parents@.len(),
                forall|j: int| 0 <= j < i ==> !parent_has_kind(#[trigger] self.commutative_parents@[j], kind@),
            decreases self.commutative_parents@.len() - i,
        {
            let p = &self.commutative_parents[i];
            let found = match p.parent_type {
                ParentType::ByKind(k) => str_eq(k, kind),
                ParentType::ByQuery(_) => false,
            };
            if found {
                return Some(p);
            }
            i = i + 1;
        }
        None
    }

    /// The first signature definition for nodes of that kind
    pub fn find_signature_definition_by_kind(&self, kind: &str) -> (res: Option<&SignatureDefinition>)
        ensures
            match res {
                Some(d) => exists|i: int| 0 <= i < self.signatures@.len() && *d == self.signatures@[i]
                    && self.signatures@[i].node_type@ == kind@
                    && forall|j: int| 0 <= j < i ==> (#[trigger] self.signatures@[j]).node_type@ != kind@,
                None => forall|j: int| 0 <= j < self.signatures@.len() ==> (#[trigger] self.signatures@[j]).node_type@ != kind@,
            },
    {
        let mut i: usize = 0;
        while i < self.signatures.len()
            invariant
                0 <= i <= self.signatures@.len(),
                forall|j: int| 0 <= j < i ==> (#[trigger] self.signatures@[j]).node_type@ != kind@,
            decreases self.signatures@.len() - i,
        {
            let d = &self.signatures[i];
            if str_eq(d.node_type, kind) {
                return Some(d);
            }
            i = i + 1;
        }
        None
    }

    /// Should this node type be treated as atomic?
    pub fn is_atomic_node_type(&self, node_type: &str) -> (res: bool)
        ensures
            res == names_view(self.atomic_nodes@).contains(node_type@),
    {
        contains_name(&self.atomic_nodes, node_type)
    }

    /// Check that all node type and field names that are used
    /// in this language profile exist in the language, according to the given checks.
    pub fn check_kinds<F: Fn(&'static str) -> bool, G: Fn(&'static str) -> bool>(
        &self,
        name_is_valid: &F,
        field_is_valid: &G,
    ) -> (res: Result<(), String>)
        requires
            forall|s: &'static str| name_is_valid.requires((s,)),
            forall|s: &'static str| field_is_valid.requires((s,)),
        ensures
            res is Ok ==> (forall|k: int| 0 <= k < self.atomic_nodes@.len() ==> name_is_valid.ensures((#[trigger] self.atomic_nodes@[k],), true))
                && (forall|c: int| 0 <= c < self.commutative_parents@.len() ==> (#[trigger] self.commutative_parents@[c]).kinds_valid(*name_is_valid))
                && (forall|c: int| 0 <= c < self.signatures@.len() ==> (#[trigger] self.signatures@[c]).kinds_valid(*name_is_valid, *field_is_valid))
                && (forall|k: int| 0 <= k < self.flattened_nodes@.len() ==> name_is_valid.ensures((#[trigger] self.flattened_nodes@[k],), true)),
            res is Err ==> (exists|k: int| 0 <= k < self.atomic_nodes@.len() && name_is_valid.ensures((#[trigger] self.atomic_nodes@[k],), false))
                || (exists|k: int| 0 <= k < self.flattened_nodes@.len() && name_is_valid.ensures((#[trigger] self.flattened_nodes@[k],), false))
                || (exists|c: int| 0 <= c < self.commutative_parents@.len() && (#[trigger] self.commutative_parents@[c]).check_kinds_fails(*name_is_valid))
                || (exists|c: int| 0 <= c < self.signatures@.len() && (#[trigger] self.signatures@[c]).check_kinds_fails(*name_is_valid, *field_is_valid)),
    {
        let mut i: usize = 0;
        while i < self.atomic_nodes.len()
            invariant
                0 <= i <= self.atomic_nodes@.len(),
                forall|s: &'static str| name_is_valid.requires((s,)),
                forall|k: int| 0 <= k < i ==> name_is_valid.ensures((#[trigger] self.atomic_nodes@[k],), true),
            decreases self.atomic_nodes@.len() - i,
        {
            if !name_is_valid(self.atomic_nodes[i]) {
                return Err(message_with_quoted("invalid atomic node type: ", self.atomic_nodes[i]));
            }
            i = i + 1;
        }
        let mut c: usize = 0;
        while c < self.commutative_parents.len()
            invariant
                0 <= c <= self.commutative_parents@.len(),
                forall|s: &'static str| name_is_valid.requires((s,)),
                forall|k: int| 0 <= k < self.atomic_nodes@.len() ==> name_is_valid.ensures((#[trigger] self.atomic_nodes@[k],), true),
                forall|cc: int| 0 <= cc < c ==> (#[trigger] self.commutative_parents@[cc]).kinds_valid(*name_is_valid),
            decreases self.commutative_parents@.len() - c,
        {
            match self.commutative_parents[c].check_kinds(name_is_valid) {
                Ok(()) => {},
                Err(e) => {
                    assert(self.commutative_parents@[c as int].check_kinds_fails(*name_is_valid));
                    return Err(e);
                },
            }
            c = c + 1;
        }
        let mut c: usize = 0;
        while c < self.signatures.len()
            invariant
                0 <= c <= self.signatures@.len(),
                forall|s: &'static str| name_is_valid.requires((s,)),
                forall|s: &'static str| field_is_valid.requires((s,)),
                forall|k: int| 0 <= k < self.atomic_nodes@.len() ==> name_is_valid.ensures((#[trigger] self.atomic_nodes@[k],), true),
                forall|cc: int| 0 <= cc < self.commutative_parents@.len() ==> (#[trigger] self.commutative_parents@[cc]).kinds_valid(*name_is_valid),
                forall|cc: int| 0 <= cc < c ==> (#[trigger] self.signatures@[cc]).kinds_valid(*name_is_valid, *field_is_valid),
            decreases self.signatures@.len() - c,
        {
            match self.signatures[c].check_kinds(name_is_valid, field_is_valid) {
                Ok(()) => {},
                Err(e) => {
                    assert(self.signatures@[c as int].check_kinds_fails(*name_is_valid, *field_is_valid));
                    return Err(e);
                },
            }
            c = c + 1;
        }
        let mut i: usize = 0;
        while i < self.flattened_nodes.len()
            invariant
                0 <= i <= self.flattened_nodes@.len(),
                forall|s: &'static str| name_is_valid.requires((s,)),
                forall|k: int| 0 <= k < self.atomic_nodes@.len() ==> name_is_valid.ensures((#[trigger] self.atomic_nodes@[k],), true),
                forall|cc: int| 0 <= cc < self.commutative_parents@.len() ==> (#[trigger] self.commutative_parents@[cc]).kinds_valid(*name_is_valid),
                forall|cc: int| 0 <= cc < self.signatures@.len() ==> (#[trigger] self.signatures@[cc]).kinds_valid(*name_is_valid, *field_is_valid),
                forall|k: int| 0 <= k < i ==> name_is_valid.ensures((#[trigger] self.flattened_nodes@[k],), true),
            decreases self.flattened_nodes@.len() - i,
        {
            if !name_is_valid(self.flattened_nodes[i]) {
                return Err(message_with_quoted("invalid flattened node type: ", self.flattened_nodes[i]));
            }
            i = i + 1;
        }
        Ok(())
    }
}

/// A group of children as plain values: its kinds and its separator
pub type GroupView = (Seq<Seq<char>>, Option<&'static str>);

/// A commutative parent as plain values: its type, separator, left and right delimiters, and
/// groups of children
pub type ParentView = (ParentType, &'static str, Option<&'static str>, Option<&'static str>, Seq<GroupView>);

/// The plain values of a group of children
pub open spec fn group_view(g: ChildrenGroup) -> GroupView {
    (names_view(g.node_types@), g.separator)
}

/// The plain values of a commutative parent
pub open spec fn parent_view(p: CommutativeParent) -> ParentView {
    (p.parent_type, p.separator, p.left_delim, p.right_delim, p.children_groups@.map_values(|g: ChildrenGroup| group_view(g)))
}

/// Ways to specify the type of the parent node in a [`CommutativeParent`]
#[derive(Debug, Clone, Copy)]
pub enum ParentType {
    /// Specified using the grammar node defined in the grammar
    ByKind(&'static str),
    /// Specified using a tree-sitter query, capturing the commutative node as `@commutative`
    ByQuery(&'static str),
}

/// A group of children of a commutative node which are allowed to commute together
#[derive(Debug, Clone)]
pub struct ChildrenGroup {
    /// The types of nodes, as kinds (each listed once)
    pub node_types: Vec<&'static str>,
    /// An optional separator specific to this children group,
    /// better suited than the one from the commutative parent.
    pub separator: Option<&'static str>,
}

/// Specification for a commutative parent in a given language.
#[derive(Debug, Clone)]
pub struct CommutativeParent {
    /// the type of the root node
    pub parent_type: ParentType,
    /// any separator that needs to be inserted between the children.
    /// It can be overridden by specifying separators in each children group.
    pub separator: &'static str,
    /// any left delimiter that can come before all children
    pub left_delim: Option<&'static str>,
    /// any right delimiter that can come after all children
    pub right_delim: Option<&'static str>,
    /// any restrictions on which types of children are allowed to commute together.
    /// If empty, all children can commute together.
    pub children_groups: Vec<ChildrenGroup>,
}

/// The texts of a list of names
pub open spec fn names_view(names: Seq<&'static str>) -> Seq<Seq<char>> {
    names.map_values(|s: &'static str| s@)
}

/// The distinct names of a list, each kept at its first occurrence
pub open spec fn dedup(names: Seq<Seq<char>>) -> Seq<Seq<char>>
    decreases names.len(),
{
    if names.len() == 0 {
        Seq::empty()
    } else {
        let rest = dedup(names.drop_last());
        if rest.contains(names.last()) {
            rest
        } else {
            rest.push(names.last())
        }
    }
}

/// Is a name among a list of names?
pub fn contains_name(names: &Vec<&'static str>, name: &str) -> (res: bool)
    ensures
        res == names_view(names@).contains(name@),
{
    let mut i: usize = 0;
    while i < names.len()
        invariant
            0 <= i <= names@.len(),
            forall|j: int| 0 <= j < i ==> names@[j]@ != name@,
        decreases names@.len() - i,
    {
        if str_eq(names[i], name) {
            assert(names_view(names@)[i as int] == name@);
            return true;
        }
        i = i + 1;
    }
    proof {
        if names_view(names@).contains(name@) {
            let j = choose|j: int| 0 <= j < names_view(names@).len() && names_view(names@)[j] == name@;
            assert(names@[j]@ == name@);
        }
    }
    false
}

impl ChildrenGroup {
    /// A group of children of the given types
    pub fn new(types: &[&'static str]) -> (res: Self)
        ensures
            names_view(res.node_types@) == dedup(names_view(types@)),
            res.separator is None,
    {
        Self { node_types: dedup_names(types), separator: None }
    }

    /// A group of children of the given types, with its own separator
    pub fn with_separator(types: &[&'static str], separator: &'static str) -> (res: Self)
        ensures
            names_view(res.node_types@) == dedup(names_view(types@)),
            res.separator == Some(separator),
    {
        Self { node_types: dedup_names(types), separator: Some(separator) }
    }

    /// Check that all node types contained in this object exist in the language.
    pub fn check_kinds<F: Fn(&'static str) -> bool>(&self, name_is_valid: &F) -> (res: Result<(), String>)
        requires
            forall|s: &'static str| name_is_valid.requires((s,)),
        ensures
            match res {
                Ok(()) => forall|k: int| 0 <= k < self.node_types@.len() ==> name_is_valid.ensures((self.node_types@[k],), true),
                Err(e) => exists|k: int| 0 <= k < self.node_types@.len() && name_is_valid.ensures((self.node_types@[k],), false)
                    && e@ == "invalid commutative child type: "@ + quoted(self.node_types@[k]@),
            },
    {
        let mut i: usize = 0;
        while i < self.node_types.len()
            invariant
                0 <= i <= self.node_types@.len(),
                forall|s: &'static str| name_is_valid.requires((s,)),
                forall|k: int| 0 <= k < i ==> name_is_valid.ensures((self.node_types@[k],), true),
            decreases self.node_types@.len() - i,
        {
            let child_type = self.node_types[i];
            if !name_is_valid(child_type) {
                return Err(message_with_quoted("invalid commutative child type: ", child_type));
            }
            i = i + 1;
        }
        Ok(())
    }
}

/// The names of a slice with duplicates removed, each kept at its first occurrence
fn dedup_names(types: &[&'static str]) -> (res: Vec<&'static str>)
    ensures
        names_view(res@) == dedup(names_view(types@)),
{
    let mut res: Vec<&'static str> = Vec::new();
    let mut i: usize = 0;
    while i < types.len()
        invariant
            0 <= i <= types@.len(),
            names_view(res@) == dedup(names_view(types@.take(i as int))),
        decreases types@.len() - i,
    {
        let t = types[i];
        let ghost before = res@;
        proof {
            assert(names_view(types@.take(i + 1)).drop_last() =~= names_view(types@.take(i as int)));
            assert(names_view(types@.take(i + 1)).last() == t@);
        }
        if !contains_name(&res, t) {
            res.push(t);
            assert(names_view(res@) =~= names_view(before).push(t@));
        }
        i = i + 1;
    }
    assert(types@.take(i as int) =~= types@);
    res
}

/// The separator of a children group, or else that of its parent
pub open spec fn group_separator(g: ChildrenGroup, default: &'static str) -> Seq<char> {
    match g.separator {
        Some(s) => s@,
        None => default@,
    }
}

/// A child node, as far as commutative merging is concerned
#[derive(Debug, Clone)]
pub struct ChildNode {
    /// The grammar kind of the node
    pub kind: &'static str,
    /// The source code of the node
    pub source: String,
    /// Whether the node is an "extra" node of the grammar (such as a comment)
    pub is_extra: bool,
}

/// The text of an optional delimiter (empty if absent)
pub open spec fn delim_view(d: Option<&'static str>) -> Seq<char> {
    match d {
        Some(s) => s@,
        None => Seq::empty(),
    }
}

impl CommutativeParent {
    /// Can the node be part of a given children group of this parent?
    pub open spec fn fits_group(self, n: ChildNode, g: ChildrenGroup) -> bool {
        let t = trimmed(n.source@);
        names_view(g.node_types@).contains(n.kind@) || t == trimmed(group_separator(g, self.separator))
            || t == trimmed(delim_view(self.right_delim)) || t == trimmed(delim_view(self.left_delim))
    }

    /// The separator of the first group, from `from` on, in which all the nodes fit
    pub open spec fn first_fitting_group(self, nodes: Seq<ChildNode>, from: int) -> Option<Seq<char>>
        decreases self.children_groups@.len() - from,
    {
        if from < 0 || from >= self.children_groups@.len() {
            None
        } else if forall|k: int| 0 <= k < nodes.len() ==> self.fits_group(#[trigger] nodes[k], self.children_groups@[from]) {
            Some(group_separator(self.children_groups@[from], self.separator))
        } else {
            self.first_fitting_group(nodes, from + 1)
        }
    }

    /// Short-hand function to declare a commutative parent without any delimiters.
    pub fn without_delimiters(root_type: &'static str, separator: &'static str) -> (res: Self)
        ensures
            res.parent_type == ParentType::ByKind(root_type),
            res.separator == separator,
            res.left_delim is None,
            res.right_delim is None,
            res.children_groups@.len() == 0,
    {
        Self {
            parent_type: ParentType::ByKind(root_type),
            separator,
            left_delim: None,
            right_delim: None,
            children_groups: Vec::new(),
        }
    }

    /// Short-hand function to create a commutative parent with delimiters and separator
    pub fn new(
        parent_type: &'static str,
        left_delim: &'static str,
        separator: &'static str,
        right_delim: &'static str,
    ) -> (res: Self)
        ensures
            res.parent_type == ParentType::ByKind(parent_type),
            res.separator == separator,
            res.left_delim == Some(left_delim),
            res.right_delim == Some(right_delim),
            res.children_groups@.len() == 0,
    {
        Self {
            parent_type: ParentType::ByKind(parent_type),
            separator,
            left_delim: Some(left_delim),
            right_delim: Some(right_delim),
            children_groups: Vec::new(),
        }
    }

    /// Short-hand function to create a commutative parent with a left delimiter and separator
    pub fn with_left_delimiter(
        parent_type: &'static str,
        left_delim: &'static str,
        separator: &'static str,
    ) -> (res: Self)
        ensures
            res.parent_type == ParentType::ByKind(parent_type),
            res.separator == separator,
            res.left_delim == Some(left_delim),
            res.right_delim is None,
            res.children_groups@.len() == 0,
    {
        Self {
            parent_type: ParentType::ByKind(parent_type),
            separator,
            left_delim: Some(left_delim),
            right_delim: None,
            children_groups: Vec::new(),
        }
    }

    /// Short-hand to restrict a commutative parent to some children groups
    pub fn restricted_to_groups(self, groups: &[&[&'static str]]) -> (res: Self)
        ensures
            res.parent_type == self.parent_type,
            res.separator == self.separator,
            res.left_delim == self.left_delim,
            res.right_delim == self.right_delim,
            res.children_groups@.len() == groups@.len(),
            forall|k: int| 0 <= k < groups@.len() ==> names_view(#[trigger] res.children_groups@[k].node_types@) == dedup(names_view(groups@[k]@))
                && res.children_groups@[k].separator is None,
    {
        let mut children_groups: Vec<ChildrenGroup> = Vec::new();
        let mut i: usize = 0;
        while i < groups.len()
            invariant
                0 <= i <= groups@.len(),
                children_groups@.len() == i,
                forall|k: int| 0 <= k < i ==> names_view(#[trigger] children_groups@[k].node_types@) == dedup(names_view(groups@[k]@))
                    && children_groups@[k].separator is None,
            decreases groups@.len() - i,
        {
            children_groups.push(ChildrenGroup::new(groups[i]));
            i = i + 1;
        }
        Self { children_groups, ..self }
    }

    /// Short-hand function to create a commutative parent with delimiters and separator, with the
    /// parent node specified using a tree-sitter query
    pub fn from_query(
        query: &'static str,
        left_delim: &'static str,
        separator: &'static str,
        right_delim: &'static str,
    ) -> (res: Self)
        ensures
            res.parent_type == ParentType::ByQuery(query),
            res.separator == separator,
            res.left_delim == Some(left_delim),
            res.right_delim == Some(right_delim),
            res.children_groups@.len() == 0,
    {
        Self {
            parent_type: ParentType::ByQuery(query),
            separator,
            left_delim: Some(left_delim),
            right_delim: Some(right_delim),
            children_groups: Vec::new(),
        }
    }

    /// Short-hand function to create a commutative parent without delimiters, with the
    /// parent node specified using a tree-sitter query
    pub fn from_query_without_delimiters(query: &'static str, separator: &'static str) -> (res: Self)
        ensures
            res.parent_type == ParentType::ByQuery(query),
            res.separator == separator,
            res.left_delim is None,
            res.right_delim is None,
            res.children_groups@.len() == 0,
    {
        Self {
            parent_type: ParentType::ByQuery(query),
            separator,
            left_delim: None,
            right_delim: None,
            children_groups: Vec::new(),
        }
    }

    /// Restrict a commutative parent to some children groups, possibly with their own separators
    pub fn restricted_to(self, children_groups: Vec<ChildrenGroup>) -> (res: Self)
        ensures
            res.parent_type == self.parent_type,
            res.separator == self.separator,
            res.left_delim == self.left_delim,
            res.right_delim == self.right_delim,
            res.children_groups == children_groups,
    {
        Self { children_groups, ..self }
    }

    /// the type of the root node
    pub fn parent_type(&self) -> (res: &ParentType)
        ensures
            *res == self.parent_type,
    {
        &self.parent_type
    }

    /// The default separator for children of this parent.
    pub fn default_separator(&self) -> (res: &'static str)
        ensures
            res == self.separator,
    {
        self.separator
    }

    /// The separator for children in this group, trimmed from leading and trailing whitespace.
    pub fn trimmed_separator(&self) -> (res: String)
        ensures
            res@ == trimmed(self.separator@),
    {
        trim(self.separator)
    }

    /// Does any of the nodes stand for an "extra" node of the grammar?
    pub open spec fn has_extra(nodes: Seq<ChildNode>) -> bool {
        exists|k: int| 0 <= k < nodes.len() && (#[trigger] nodes[k]).is_extra
    }

    /// The separator with which the nodes may commute, if they may
    pub open spec fn separator_for(self, nodes: Seq<ChildNode>) -> Option<Seq<char>> {
        if Self::has_extra(nodes) {
            None
        } else if self.children_groups@.len() == 0 {
            Some(self.separator@)
        } else {
            self.first_fitting_group(nodes, 0)
        }
    }

    /// Can children with the supplied types commute together?
    /// If so, return the separator to use when inserting two nodes in the same place.
    pub fn child_separator(&self, base_nodes: &Vec<ChildNode>, left_nodes: &Vec<ChildNode>, right_nodes: &Vec<ChildNode>) -> (res: Option<String>)
        ensures
            res is Some ==> self.separator_for(base_nodes@ + left_nodes@ + right_nodes@) == Some(res->0@),
            res is None ==> self.separator_for(base_nodes@ + left_nodes@ + right_nodes@) is None,
    {
        let ghost all = base_nodes@ + left_nodes@ + right_nodes@;
        let mut nodes: Vec<ChildNode> = Vec::new();
        append_nodes(&mut nodes, base_nodes);
        append_nodes(&mut nodes, left_nodes);
        append_nodes(&mut nodes, right_nodes);
        assert(nodes@ =~= all);
        let mut i: usize = 0;
        while i < nodes.len()
            invariant
                0 <= i <= nodes@.len(),
                nodes@ == all,
                all == base_nodes@ + left_nodes@ + right_nodes@,
                forall|k: int| 0 <= k < i ==> !(#[trigger] nodes@[k]).is_extra,
            decreases nodes@.len() - i,
        {
            if nodes[i].is_extra {
                assert(all[i as int].is_extra);
                assert(Self::has_extra(all));
                assert(self.separator_for(all) is None);
                return None;
            }
            i = i + 1;
        }
        assert(!exists|k: int| 0 <= k < all.len() && (#[trigger] all[k]).is_extra);
        if self.children_groups.len() == 0 {
            return Some(string_from_static(self.separator));
        }
        let trimmed_left_delim = match self.left_delim {
            Some(d) => trim(d),
            None => String::new(),
        };
        let trimmed_right_delim = match self.right_delim {
            Some(d) => trim(d),
            None => String::new(),
        };
        proof {
            let e = Seq::<char>::empty();
            assert(trimmed(e) =~= e);
        }
        let mut g: usize = 0;
        while g < self.children_groups.len()
            invariant
                0 <= g <= self.children_groups@.len(),
                nodes@ == all,
                all == base_nodes@ + left_nodes@ + right_nodes@,
                self.children_groups@.len() > 0,
                trimmed_left_delim@ == trimmed(delim_view(self.left_delim)),
                trimmed_right_delim@ == trimmed(delim_view(self.right_delim)),
                self.first_fitting_group(all, 0) == self.first_fitting_group(all, g as int),
                !exists|k: int| 0 <= k < all.len() && (#[trigger] all[k]).is_extra,
            decreases self.children_groups@.len() - g,
        {
            let group = &self.children_groups[g];
            let group_sep = match group.separator {
                Some(s) => s,
                None => self.separator,
            };
            assert(group_sep@ == group_separator(*group, self.separator));
            let trimmed_sep = trim(group_sep);
            let mut k: usize = 0;
            let mut all_fit = true;
            while k < nodes.len()
                invariant
                    0 <= k <= nodes@.len(),
                    nodes@ == all,
                    g < self.children_groups@.len(),
                    *group == self.children_groups@[g as int],
                    trimmed_sep@ == trimmed(group_separator(*group, self.separator)),
                    trimmed_left_delim@ == trimmed(delim_view(self.left_delim)),
                    trimmed_right_delim@ == trimmed(delim_view(self.right_delim)),
                    all_fit == forall|j: int| 0 <= j < k ==> self.fits_group(#[trigger] nodes@[j], *group),
                decreases nodes@.len() - k,
            {
                let node = &nodes[k];
                let t = trim(node.source.as_str());
                let fits = contains_name(&group.node_types, node.kind) || str_eq(t.as_str(), trimmed_sep.as_str())
                    || str_eq(t.as_str(), trimmed_right_delim.as_str()) || str_eq(t.as_str(), trimmed_left_delim.as_str());
                assert(fits == self.fits_group(nodes@[k as int], *group));
                all_fit = all_fit && fits;
                k = k + 1;
            }
            if all_fit {
                assert(self.first_fitting_group(all, g as int) == Some(group_separator(self.children_groups@[g as int], self.separator)));
                return Some(string_from_static(group_sep));
            }
            assert(!(forall|j: int| 0 <= j < all.len() ==> self.fits_group(#[trigger] all[j], self.children_groups@[g as int])));
            assert(self.first_fitting_group(all, g as int) == self.first_fitting_group(all, g + 1));
            g = g + 1;
        }
        assert(self.first_fitting_group(all, g as int) is None);
        None
    }

    /// Are the parent's kind (when given by kind) and all the kinds of its children groups valid?
    pub open spec fn kinds_valid<F: Fn(&'static str) -> bool>(self, name_is_valid: F) -> bool {
        &&& (self.parent_type matches ParentType::ByKind(name) ==> name_is_valid.ensures((name,), true))
        &&& forall|g: int, k: int| 0 <= g < self.children_groups@.len() && 0 <= k < self.children_groups@[g].node_types@.len()
            ==> name_is_valid.ensures((#[trigger] self.children_groups@[g].node_types@[k],), true)
    }

    /// Is the parent's kind or one of the kinds of its children groups found invalid?
    pub open spec fn check_kinds_fails<F: Fn(&'static str) -> bool>(self, name_is_valid: F) -> bool {
        ||| (self.parent_type matches ParentType::ByKind(name) && name_is_valid.ensures((name,), false))
        ||| exists|g: int, k: int| 0 <= g < self.children_groups@.len() && 0 <= k < self.children_groups@[g].node_types@.len()
            && name_is_valid.ensures((#[trigger] self.children_groups@[g].node_types@[k],), false)
    }

    /// Check that all node types contained in this object exist in the language.
    pub fn check_kinds<F: Fn(&'static str) -> bool>(&self, name_is_valid: &F) -> (res: Result<(), String>)
        requires
            forall|s: &'static str| name_is_valid.requires((s,)),
        ensures
            res is Ok ==> self.kinds_valid(*name_is_valid),
            res is Err ==> self.check_kinds_fails(*name_is_valid),
    {
        if let ParentType::ByKind(name) = self.parent_type {
            if !name_is_valid(name) {
                return Err(message_with_quoted("invalid commutative node type: ", name));
            }
        }
        let mut g: usize = 0;
        while g < self.children_groups.len()
            invariant
                0 <= g <= self.children_groups@.len(),
                forall|s: &'static str| name_is_valid.requires((s,)),
                self.parent_type matches ParentType::ByKind(name) ==> name_is_valid.ensures((name,), true),
                forall|gg: int, k: int| 0 <= gg < g && 0 <= k < self.children_groups@[gg].node_types@.len()
                    ==> name_is_valid.ensures((self.children_groups@[gg].node_types@[k],), true),
            decreases self.children_groups@.len() - g,
        {
            match self.children_groups[g].check_kinds(name_is_valid) {
                Ok(()) => {},
                Err(e) => {
                    return Err(e);
                },
            }
            g = g + 1;
        }
        Ok(())
    }
}

/// Appends the nodes of a list at the end of another
fn append_nodes(nodes: &mut Vec<ChildNode>, more: &Vec<ChildNode>)
    ensures
        final(nodes)@ == old(nodes)@ + more@,
{
    let mut i: usize = 0;
    let ghost start = nodes@;
    while i < more.len()
        invariant
            0 <= i <= more@.len(),
            nodes@ == start + more@.take(i as int),
        decreases more@.len() - i,
    {
        let n = &more[i];
        nodes.push(ChildNode { kind: n.kind, source: n.source.clone(), is_extra: n.is_extra });
        assert(nodes@ =~= start + more@.take(i + 1));
        i = i + 1;
    }
    assert(more@.take(i as int) =~= more@);
}

/// An owned copy of a string slice
pub fn string_from_static(s: &str) -> (res: String)
    ensures
        res@ == s@,
{
    s.to_owned()
}

} // verus!
