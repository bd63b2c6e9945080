use vstd::prelude::*;
use vstd::utf8::{decode_utf8, valid_utf8};

use crate::cli::{bounded_value, parse_usize};
use crate::settings::opt_view;
use crate::text::{push_str, str_eq, string_of_range, to_chars};

verus! {

// Git attributes read by `git check-attr -z`, and the output of `git checkout-index`.
// Running git is left to the caller, which hands over what git printed.

pub const GIT_CONFLICT_MARKER_SIZE: &'static str = "conflict-marker-size";
pub const LINGUIST_LANGUAGE: &'static str = "linguist-language";
pub const MERGIRAF_ALLOW_PARSE_ERRORS: &'static str = "mergiraf.allow-parse-errors";
pub const MERGIRAF_LANGUAGE: &'static str = "mergiraf.language";

/// A value for a Git attribute.
#[derive(Debug, Clone, PartialEq, Eq)]
pub enum AttrValue {
    /// A boolean "true" (`* attr`)
    SetTrue,
    /// A boolean "false" (`* -attr`)
    Unset,
    /// No value (`* !attr`)
    Unspecified,
    /// A non-boolean value (`* attr=value`)
    Specified(String),
}

/// The mathematical content of an [`AttrValue`]
pub enum AttrView {
    SetTrue,
    Unset,
    Unspecified,
    Specified(Seq<char>),
}

impl AttrValue {
    pub open spec fn view_attr(self) -> AttrView {
        match self {
            AttrValue::SetTrue => AttrView::SetTrue,
            AttrValue::Unset => AttrView::Unset,
            AttrValue::Unspecified => AttrView::Unspecified,
            AttrValue::Specified(s) => AttrView::Specified(s@),
        }
    }
}

/// The attribute value that `git check-attr` reports with this text
pub open spec fn attr_of_info(info: Seq<char>) -> AttrView {
    if info == "set"@ {
        AttrView::SetTrue
    } else if info == "unset"@ {
        AttrView::Unset
    } else if info == "unspecified"@ {
        AttrView::Unspecified
    } else {
        AttrView::Specified(info)
    }
}

impl AttrValue {
    /// The attribute value that `git check-attr` reports with this text
    pub fn from_info(value: String) -> (res: Self)
        ensures
            res.view_attr() == attr_of_info(value@),
    {
        if str_eq(value.as_str(), "set") {
            Self::SetTrue
        } else if str_eq(value.as_str(), "unset") {
            Self::Unset
        } else if str_eq(value.as_str(), "unspecified") {
            Self::Unspecified
        } else {
            Self::Specified(value)
        }
    }

    /// Extract the value of the attr, if it's specified
    pub fn into_specified(self) -> (res: Option<String>)
        ensures
            match self {
                AttrValue::Specified(s) => res == Some(s),
                _ => res is None,
            },
    {
        match self {
            Self::Specified(value) => Some(value),
            _ => None,
        }
    }
}

/// Attribute values by name
#[derive(Debug, Clone, PartialEq, Eq)]
pub struct AttrMap {
    /// The entries in the order they were added: the last one for a name is its value
    pub entries: Vec<(&'static str, AttrValue)>,
}

/// The value of the last entry with that name
pub open spec fn attr_lookup(entries: Seq<(&'static str, AttrValue)>, name: Seq<char>) -> Option<AttrValue>
    decreases entries.len(),
{
    if entries.len() == 0 {
        None
    } else if entries.last().0@ == name {
        Some(entries.last().1)
    } else {
        attr_lookup(entries.drop_last(), name)
    }
}

impl AttrMap {
    /// The value of an attribute
    pub open spec fn get(self, name: Seq<char>) -> Option<AttrValue> {
        attr_lookup(self.entries@, name)
    }

    /// An empty map
    pub fn new() -> (res: Self)
        ensures
            forall|name: Seq<char>| res.get(name) is None,
    {
        AttrMap { entries: Vec::new() }
    }

    /// Sets the value of an attribute
    pub fn insert(&mut self, name: &'static str, value: AttrValue)
        ensures
            final(self).get(name@) == Some(value),
            forall|other: Seq<char>| other != name@ ==> final(self).get(other) == old(self).get(other),
    {
        self.entries.push((name, value));
        assert(self.entries@.drop_last() =~= old(self).entries@);
    }

    /// A map with the given entries, a later entry for a name taking precedence over earlier ones
    pub fn from_entries(entries: Vec<(&'static str, AttrValue)>) -> (res: Self)
        ensures
            res.entries@ == entries@,
    {
        AttrMap { entries }
    }

    /// Removes an attribute, and returns its value
    pub fn remove(&mut self, name: &str) -> (res: Option<AttrValue>)
        ensures
            res == old(self).get(name@),
            final(self).get(name@) is None,
            forall|other: Seq<char>| other != name@ ==> final(self).get(other) == old(self).get(other),
    {
        let ghost old_entries = self.entries@;
        let mut kept: Vec<(&'static str, AttrValue)> = Vec::new();
        let mut found: Option<AttrValue> = None;
        let mut i: usize = 0;
        while i < self.entries.len()
            invariant
                0 <= i <= self.entries@.len(),
                self.entries@ == old_entries,
                found == attr_lookup(old_entries.take(i as int), name@),
                attr_lookup(kept@, name@) is None,
                forall|other: Seq<char>| other != name@ ==> attr_lookup(kept@, other) == attr_lookup(old_entries.take(i as int), other),
            decreases self.entries@.len() - i,
        {
            let ghost prefix = old_entries.take(i as int);
            assert(old_entries.take(i + 1).drop_last() =~= prefix);
            let (n, v) = &self.entries[i];
            assert(old_entries.take(i + 1).last() == old_entries[i as int]);
            if str_eq(n, name) {
                found = Some(v.clone_value());
                assert forall|other: Seq<char>| other != name@ implies attr_lookup(kept@, other)
                    == attr_lookup(old_entries.take(i + 1), other) by {}
            } else {
                let ghost before = kept@;
                let vc = v.clone_value();
                kept.push((*n, vc));
                assert(kept@.drop_last() =~= before);
                assert(kept@.last() == old_entries[i as int]);
                assert forall|other: Seq<char>| other != name@ implies attr_lookup(kept@, other)
                    == attr_lookup(old_entries.take(i + 1), other) by {
                    if n@ != other {
                        assert(attr_lookup(kept@, other) == attr_lookup(before, other));
                    }
                }
            }
            i = i + 1;
        }
        assert(old_entries.take(i as int) =~= old_entries);
        self.entries = kept;
        found
    }
}

impl AttrValue {
    /// A copy of the value
    pub fn clone_value(&self) -> (res: Self)
        ensures
            res == *self,
    {
        match self {
            AttrValue::SetTrue => AttrValue::SetTrue,
            AttrValue::Unset => AttrValue::Unset,
            AttrValue::Unspecified => AttrValue::Unspecified,
            AttrValue::Specified(s) => AttrValue::Specified(s.clone()),
        }
    }
}


/// Reads bytes as UTF-8 text (`std::str::from_utf8`): the characters they encode if
/// they are valid UTF-8, and nothing otherwise.
#[verifier::external_body]
fn utf8_text(bytes: &[u8]) -> (res: Option<&str>)
    ensures
        match res {
            Some(s) => valid_utf8(bytes@) && s@ == decode_utf8(bytes@),
            None => !valid_utf8(bytes@),
        },
{
    std::str::from_utf8(bytes).ok()
}

/// The fields of bytes separated by NUL bytes (there is always one more field than separators)
pub open spec fn nul_fields(b: Seq<u8>) -> Seq<Seq<u8>>
    decreases b.len(),
{
    if b.len() == 0 {
        seq![Seq::empty()]
    } else if b.last() == 0 {
        nul_fields(b.drop_last()).push(Seq::empty())
    } else {
        let f = nul_fields(b.drop_last());
        f.update(f.len() - 1, f.last().push(b.last()))
    }
}

/// The view of attribute entries
pub open spec fn entries_view(entries: Seq<(&'static str, AttrValue)>) -> Seq<(Seq<char>, AttrView)> {
    entries.map_values(|e: (&'static str, AttrValue)| (e.0@, e.1.view_attr()))
}

/// The texts of attribute names
pub open spec fn attr_names_view(attrs: Seq<&'static str>) -> Seq<Seq<char>> {
    attrs.map_values(|a: &'static str| a@)
}

/// The entry read from the fields `k+1` (attribute name) and `k+2` (its value), if the name
/// is among the asked attributes and both are valid UTF-8
pub open spec fn attr_entry(fields: Seq<Seq<u8>>, attrs: Seq<&'static str>, k: int) -> Option<(Seq<char>, AttrView)> {
    let name = fields[k + 1];
    let info = fields[k + 2];
    if valid_utf8(name) && valid_utf8(info) && attr_names_view(attrs).contains(decode_utf8(name)) {
        Some((decode_utf8(name), attr_of_info(decode_utf8(info))))
    } else {
        None
    }
}

/// The entries read from the groups of three fields (path, attribute, value) from field `k` on
pub open spec fn check_attr_entries(fields: Seq<Seq<u8>>, attrs: Seq<&'static str>, k: int) -> Seq<(Seq<char>, AttrView)>
    decreases fields.len() - k,
{
    if k < 0 || k + 2 >= fields.len() {
        Seq::empty()
    } else {
        let first: Seq<(Seq<char>, AttrView)> = match attr_entry(fields, attrs, k) {
            Some(e) => seq![e],
            None => Seq::empty(),
        };
        first + check_attr_entries(fields, attrs, k + 3)
    }
}

/// The fields of bytes separated by NUL bytes
fn split_nul(b: &[u8]) -> (res: Vec<Vec<u8>>)
    ensures
        res@.map_values(|f: Vec<u8>| f@) == nul_fields(b@),
{
    let mut done: Vec<Vec<u8>> = Vec::new();
    let mut cur: Vec<u8> = Vec::new();
    let mut i: usize = 0;
    assert(b@.take(0) =~= Seq::<u8>::empty());
    while i < b.len()
        invariant
            0 <= i <= b@.len(),
            done@.map_values(|f: Vec<u8>| f@).push(cur@) == nul_fields(b@.take(i as int)),
        decreases b@.len() - i,
    {
        assert(b@.take(i + 1).drop_last() =~= b@.take(i as int));
        assert(b@.take(i + 1).last() == b@[i as int]);
        let ghost before = done@.map_values(|f: Vec<u8>| f@).push(cur@);
        if b[i] == 0 {
            let finished = cur;
            done.push(finished);
            cur = Vec::new();
            assert(done@.map_values(|f: Vec<u8>| f@).push(cur@) =~= before.push(Seq::empty()));
        } else {
            let ghost done_view = done@.map_values(|f: Vec<u8>| f@);
            cur.push(b[i]);
            assert(done@.map_values(|f: Vec<u8>| f@).push(cur@) =~= before.update(before.len() - 1, before.last().push(b@[i as int])));
        }
        i = i + 1;
    }
    assert(b@.take(i as int) =~= b@);
    done.push(cur);
    done
}

/// The asked attribute with that name, if any
fn asked_attribute(attrs: &[&'static str], name: &str) -> (res: Option<&'static str>)
    ensures
        match res {
            Some(a) => a@ == name@ && attr_names_view(attrs@).contains(name@),
            None => !attr_names_view(attrs@).contains(name@),
        },
{
    let mut i: usize = 0;
    while i < attrs.len()
        invariant
            0 <= i <= attrs@.len(),
            forall|j: int| 0 <= j < i ==> attrs@[j]@ != name@,
        decreases attrs@.len() - i,
    {
        if str_eq(attrs[i], name) {
            assert(attr_names_view(attrs@)[i as int] == name@);
            return Some(attrs[i]);
        }
        i = i + 1;
    }
    proof {
        if attr_names_view(attrs@).contains(name@) {
            let j = choose|j: int| 0 <= j < attr_names_view(attrs@).len() && attr_names_view(attrs@)[j] == name@;
            assert(attrs@[j]@ == name@);
        }
    }
    None
}

/// Reads the output of `git check-attr -z` for the given attributes, which is made of groups
/// `<path> NUL <attribute> NUL <info> NUL`. Groups naming other attributes, or that are
/// not valid UTF-8, are skipped; a later group for an attribute takes precedence.
pub fn read_check_attr_output(output: &[u8], attrs: &[&'static str]) -> (res: AttrMap)
    ensures
        entries_view(res.entries@) == check_attr_entries(nul_fields(output@), attrs@, 0),
{
    let fields = split_nul(output);
    let ghost fv = fields@.map_values(|f: Vec<u8>| f@);
    let mut entries: Vec<(&'static str, AttrValue)> = Vec::new();
    let mut k: usize = 0;
    let ghost total = check_attr_entries(fv, attrs@, 0);
    assert(entries_view(entries@) + total =~= total);
    while k < fields.len() && fields.len() - k > 2
        invariant
            k <= fields@.len(),
            fv == fields@.map_values(|f: Vec<u8>| f@),
            fv == nul_fields(output@),
            total == check_attr_entries(fv, attrs@, 0),
            entries_view(entries@) + check_attr_entries(fv, attrs@, k as int) == total,
        decreases fields@.len() - k,
    {
        let ghost before = entries_view(entries@);
        let ghost first: Seq<(Seq<char>, AttrView)> = match attr_entry(fv, attrs@, k as int) {
            Some(e) => seq![e],
            None => Seq::empty(),
        };
        assert(check_attr_entries(fv, attrs@, k as int) == first + check_attr_entries(fv, attrs@, k + 3));
        assert(fv[k + 1] == fields@[k + 1]@);
        assert(fv[k + 2] == fields@[k + 2]@);
        match utf8_text(fields[k + 1].as_slice()) {
            Some(name) => match utf8_text(fields[k + 2].as_slice()) {
                Some(info) => match asked_attribute(attrs, name) {
                    Some(attribute) => {
                        let value = AttrValue::from_info(info.to_owned());
                        entries.push((attribute, value));
                        assert(entries_view(entries@) =~= before.push((decode_utf8(fv[k + 1]), attr_of_info(decode_utf8(fv[k + 2])))));
                    },
                    None => {},
                },
                None => {},
            },
            None => {},
        }
        assert(entries_view(entries@) =~= before + first);
        assert(entries_view(entries@) + check_attr_entries(fv, attrs@, k + 3) =~= before + check_attr_entries(fv, attrs@, k as int));
        k = k + 3;
    }
    assert(check_attr_entries(fv, attrs@, k as int) =~= Seq::<(Seq<char>, AttrView)>::empty());
    assert(entries_view(entries@) =~= entries_view(entries@) + Seq::<(Seq<char>, AttrView)>::empty());
    AttrMap { entries }
}


/// The value of the last entry with that name, among viewed entries
pub open spec fn view_lookup(entries: Seq<(Seq<char>, AttrView)>, name: Seq<char>) -> Option<AttrView>
    decreases entries.len(),
{
    if entries.len() == 0 {
        None
    } else if entries.last().0 == name {
        Some(entries.last().1)
    } else {
        view_lookup(entries.drop_last(), name)
    }
}

/// The view of an optional attribute value
pub open spec fn opt_attr_view(v: Option<AttrValue>) -> Option<AttrView> {
    match v {
        Some(a) => Some(a.view_attr()),
        None => None,
    }
}

proof fn lemma_lookup_view(entries: Seq<(&'static str, AttrValue)>, name: Seq<char>)
    ensures
        view_lookup(entries_view(entries), name) == opt_attr_view(attr_lookup(entries, name)),
    decreases entries.len(),
{
    if entries.len() > 0 {
        assert(entries_view(entries).drop_last() =~= entries_view(entries.drop_last()));
        lemma_lookup_view(entries.drop_last(), name);
    }
}

impl AttrMap {
    /// The view of the value of an attribute
    pub open spec fn get_view(self, name: Seq<char>) -> Option<AttrView> {
        view_lookup(entries_view(self.entries@), name)
    }
}

/// The text of a specified value
pub open spec fn specified_text(v: Option<AttrView>) -> Option<Seq<char>> {
    match v {
        Some(AttrView::Specified(s)) => Some(s),
        _ => None,
    }
}

/// The language that attributes set: `mergiraf.language` if specified, else `linguist-language`
pub open spec fn language_of(get: spec_fn(Seq<char>) -> Option<AttrView>) -> Option<Seq<char>> {
    match specified_text(get(MERGIRAF_LANGUAGE@)) {
        Some(s) => Some(s),
        None => specified_text(get(LINGUIST_LANGUAGE@)),
    }
}

/// The conflict marker size that attributes set, if it is a number
pub open spec fn marker_size_of(get: spec_fn(Seq<char>) -> Option<AttrView>) -> Option<int> {
    match specified_text(get(GIT_CONFLICT_MARKER_SIZE@)) {
        Some(s) => bounded_value(s, usize::MAX as int),
        None => None,
    }
}

/// Whether attributes allow parse errors (set or unset), if they say so
pub open spec fn allow_parse_errors_of(get: spec_fn(Seq<char>) -> Option<AttrView>) -> Option<bool> {
    match get(MERGIRAF_ALLOW_PARSE_ERRORS@) {
        Some(AttrView::SetTrue) => Some(true),
        Some(AttrView::Unset) => Some(false),
        _ => None,
    }
}

/// The view of an optional number
pub open spec fn opt_usize_view(o: Option<usize>) -> Option<int> {
    match o {
        Some(v) => Some(v as int),
        None => None,
    }
}

/// Determine the language in which a file should be parsed as specified
/// by the git attributes defined for that file. The attributes read are removed
/// (`linguist-language` is only read if `mergiraf.language` is not specified).
pub fn read_lang_attribute(attrs: &mut AttrMap) -> (res: Option<String>)
    ensures
        opt_view(res) == language_of(|n: Seq<char>| old(attrs).get_view(n)),
        final(attrs).get_view(MERGIRAF_LANGUAGE@) is None,
        final(attrs).get_view(LINGUIST_LANGUAGE@) == (if specified_text(old(attrs).get_view(MERGIRAF_LANGUAGE@)) is Some {
            old(attrs).get_view(LINGUIST_LANGUAGE@)
        } else {
            None
        }),
        forall|other: Seq<char>| other != MERGIRAF_LANGUAGE@ && other != LINGUIST_LANGUAGE@
            ==> final(attrs).get_view(other) == old(attrs).get_view(other),
{
    proof {
        lemma_lookup_view(attrs.entries@, MERGIRAF_LANGUAGE@);
        lemma_lookup_view(attrs.entries@, LINGUIST_LANGUAGE@);
    }
    let ghost old_attrs = *attrs;
    proof {
        reveal_strlit("mergiraf.language");
        reveal_strlit("linguist-language");
        assert(MERGIRAF_LANGUAGE@[0] != LINGUIST_LANGUAGE@[0]);
    }
    let first = attrs.remove(MERGIRAF_LANGUAGE);
    proof {
        lemma_lookup_view(attrs.entries@, MERGIRAF_LANGUAGE@);
        lemma_lookup_view(attrs.entries@, LINGUIST_LANGUAGE@);
        assert forall|other: Seq<char>| other != MERGIRAF_LANGUAGE@ implies attrs.get_view(other) == old_attrs.get_view(other) by {
            assert(attrs.get(other) == old_attrs.get(other));
            lemma_lookup_view(attrs.entries@, other);
            lemma_lookup_view(old_attrs.entries@, other);
        }
    }
    assert(attrs.get_view(LINGUIST_LANGUAGE@) == old_attrs.get_view(LINGUIST_LANGUAGE@));
    match first {
        Some(AttrValue::Specified(lang)) => {
            return Some(lang);
        },
        _ => {},
    }
    proof {
        lemma_lookup_view(old_attrs.entries@, MERGIRAF_LANGUAGE@);
        assert(specified_text(old_attrs.get_view(MERGIRAF_LANGUAGE@)) is None);
    }
    let ghost mid = *attrs;
    let second = attrs.remove(LINGUIST_LANGUAGE);
    proof {
        lemma_lookup_view(attrs.entries@, MERGIRAF_LANGUAGE@);
        lemma_lookup_view(attrs.entries@, LINGUIST_LANGUAGE@);
        assert forall|other: Seq<char>| other != LINGUIST_LANGUAGE@ implies attrs.get_view(other) == mid.get_view(other) by {
            assert(attrs.get(other) == mid.get(other));
            lemma_lookup_view(attrs.entries@, other);
            lemma_lookup_view(mid.entries@, other);
        }
    }
    match second {
        Some(AttrValue::Specified(lang)) => Some(lang),
        _ => None,
    }
}

/// The conflict marker size set by the git attributes (removed from them), if it is a number
pub fn read_conflict_marker_size_attribute(attrs: &mut AttrMap) -> (res: Option<usize>)
    ensures
        opt_usize_view(res) == marker_size_of(|n: Seq<char>| old(attrs).get_view(n)),
        final(attrs).get_view(GIT_CONFLICT_MARKER_SIZE@) is None,
        forall|other: Seq<char>| other != GIT_CONFLICT_MARKER_SIZE@
            ==> final(attrs).get_view(other) == old(attrs).get_view(other),
{
    proof {
        lemma_lookup_view(attrs.entries@, GIT_CONFLICT_MARKER_SIZE@);
    }
    let ghost old_attrs = *attrs;
    let value = attrs.remove(GIT_CONFLICT_MARKER_SIZE);
    proof {
        lemma_lookup_view(attrs.entries@, GIT_CONFLICT_MARKER_SIZE@);
        assert forall|other: Seq<char>| other != GIT_CONFLICT_MARKER_SIZE@ implies attrs.get_view(other) == old_attrs.get_view(other) by {
            assert(attrs.get(other) == old_attrs.get(other));
            lemma_lookup_view(attrs.entries@, other);
            lemma_lookup_view(old_attrs.entries@, other);
        }
    }
    match value {
        Some(AttrValue::Specified(size)) => parse_usize(size.as_str()),
        _ => None,
    }
}

/// Whether the git attributes (from which it is removed) allow parse errors, if they say so
pub fn read_allow_parse_errors_attribute(attrs: &mut AttrMap) -> (res: Option<bool>)
    ensures
        res == allow_parse_errors_of(|n: Seq<char>| old(attrs).get_view(n)),
        final(attrs).get_view(MERGIRAF_ALLOW_PARSE_ERRORS@) is None,
        forall|other: Seq<char>| other != MERGIRAF_ALLOW_PARSE_ERRORS@
            ==> final(attrs).get_view(other) == old(attrs).get_view(other),
{
    proof {
        lemma_lookup_view(attrs.entries@, MERGIRAF_ALLOW_PARSE_ERRORS@);
    }
    let ghost old_attrs = *attrs;
    let value = attrs.remove(MERGIRAF_ALLOW_PARSE_ERRORS);
    proof {
        lemma_lookup_view(attrs.entries@, MERGIRAF_ALLOW_PARSE_ERRORS@);
        assert forall|other: Seq<char>| other != MERGIRAF_ALLOW_PARSE_ERRORS@ implies attrs.get_view(other) == old_attrs.get_view(other) by {
            assert(attrs.get(other) == old_attrs.get(other));
            lemma_lookup_view(attrs.entries@, other);
            lemma_lookup_view(old_attrs.entries@, other);
        }
    }
    match value {
        Some(AttrValue::SetTrue) => Some(true),
        Some(AttrValue::Unset) => Some(false),
        _ => None,
    }
}

/// The attributes we (currently) use in `mergiraf merge`
#[derive(Debug, Clone, PartialEq, Eq)]
pub struct GitAttrsForMerge {
    pub language: Option<String>,
    pub allow_parse_errors: Option<bool>,
}

/// The attributes we (currently) use in `mergiraf solve`
#[derive(Debug, Clone, PartialEq, Eq)]
pub struct GitAttrsForSolve {
    pub conflict_marker_size: Option<usize>,
    pub language: Option<String>,
    pub allow_parse_errors: Option<bool>,
}

/// The attributes that `git check-attr` is asked for, for `mergiraf merge`
pub fn merge_attribute_names() -> (res: Vec<&'static str>)
    ensures
        res@ == merge_attribute_names_spec(),
{
    let res = vec![MERGIRAF_LANGUAGE, LINGUIST_LANGUAGE, MERGIRAF_ALLOW_PARSE_ERRORS];
    assert(res@ =~= merge_attribute_names_spec());
    res
}

/// The attributes that `git check-attr` is asked for, for `mergiraf solve`
pub fn solve_attribute_names() -> (res: Vec<&'static str>)
    ensures
        res@ == solve_attribute_names_spec(),
{
    let res = vec![GIT_CONFLICT_MARKER_SIZE, MERGIRAF_LANGUAGE, LINGUIST_LANGUAGE, MERGIRAF_ALLOW_PARSE_ERRORS];
    assert(res@ =~= solve_attribute_names_spec());
    res
}

/// The attributes that entries read from `git check-attr` set
pub open spec fn entries_lookup(entries: Seq<(Seq<char>, AttrView)>) -> spec_fn(Seq<char>) -> Option<AttrView> {
    |n: Seq<char>| view_lookup(entries, n)
}

impl GitAttrsForMerge {
    /// The attributes read from the output of `git check-attr -z` for the attributes of
    /// [`merge_attribute_names`] (`None` if git could not give them)
    pub fn new(check_attr_output: Option<&[u8]>) -> (res: Option<Self>)
        ensures
            match check_attr_output {
                None => res is None,
                Some(out) => res matches Some(a) && ({
                    let get = entries_lookup(check_attr_entries(nul_fields(out@), merge_attribute_names_spec(), 0));
                    &&& opt_view(a.language) == language_of(get)
                    &&& a.allow_parse_errors == allow_parse_errors_of(get)
                }),
            },
    {
        let out = match check_attr_output {
            Some(out) => out,
            None => {
                return None;
            },
        };
        let names = merge_attribute_names();
        let mut attrs = read_check_attr_output(out, names.as_slice());
        proof {
            lemma_attribute_names_differ();
            assert(entries_lookup(check_attr_entries(nul_fields(out@), names@, 0)) =~= (|n: Seq<char>| attrs.get_view(n)));
        }
        let language = read_lang_attribute(&mut attrs);
        let allow_parse_errors = read_allow_parse_errors_attribute(&mut attrs);
        Some(Self { language, allow_parse_errors })
    }
}

impl GitAttrsForSolve {
    /// The attributes read from the output of `git check-attr -z` for the attributes of
    /// [`solve_attribute_names`] (`None` if git could not give them)
    pub fn new(check_attr_output: Option<&[u8]>) -> (res: Option<Self>)
        ensures
            match check_attr_output {
                None => res is None,
                Some(out) => res matches Some(a) && ({
                    let get = entries_lookup(check_attr_entries(nul_fields(out@), solve_attribute_names_spec(), 0));
                    &&& opt_usize_view(a.conflict_marker_size) == marker_size_of(get)
                    &&& opt_view(a.language) == language_of(get)
                    &&& a.allow_parse_errors == allow_parse_errors_of(get)
                }),
            },
    {
        let out = match check_attr_output {
            Some(out) => out,
            None => {
                return None;
            },
        };
        let names = solve_attribute_names();
        let mut attrs = read_check_attr_output(out, names.as_slice());
        proof {
            lemma_attribute_names_differ();
            assert(entries_lookup(check_attr_entries(nul_fields(out@), names@, 0)) =~= (|n: Seq<char>| attrs.get_view(n)));
        }
        let conflict_marker_size = read_conflict_marker_size_attribute(&mut attrs);
        let language = read_lang_attribute(&mut attrs);
        let allow_parse_errors = read_allow_parse_errors_attribute(&mut attrs);
        Some(Self { conflict_marker_size, language, allow_parse_errors })
    }
}

proof fn lemma_attribute_names_differ()
    ensures
        GIT_CONFLICT_MARKER_SIZE@ != MERGIRAF_LANGUAGE@,
        GIT_CONFLICT_MARKER_SIZE@ != LINGUIST_LANGUAGE@,
        GIT_CONFLICT_MARKER_SIZE@ != MERGIRAF_ALLOW_PARSE_ERRORS@,
        MERGIRAF_LANGUAGE@ != LINGUIST_LANGUAGE@,
        MERGIRAF_LANGUAGE@ != MERGIRAF_ALLOW_PARSE_ERRORS@,
        LINGUIST_LANGUAGE@ != MERGIRAF_ALLOW_PARSE_ERRORS@,
{
    reveal_strlit("conflict-marker-size");
    reveal_strlit("linguist-language");
    reveal_strlit("mergiraf.allow-parse-errors");
    reveal_strlit("mergiraf.language");
    assert(MERGIRAF_LANGUAGE@[0] != LINGUIST_LANGUAGE@[0]);
    assert(GIT_CONFLICT_MARKER_SIZE@[0] != LINGUIST_LANGUAGE@[0]);
    assert(GIT_CONFLICT_MARKER_SIZE@[0] != MERGIRAF_LANGUAGE@[0]);
    assert(GIT_CONFLICT_MARKER_SIZE@[0] != MERGIRAF_ALLOW_PARSE_ERRORS@[0]);
    assert(LINGUIST_LANGUAGE@[0] != MERGIRAF_ALLOW_PARSE_ERRORS@[0]);
    assert(MERGIRAF_LANGUAGE@[9] != MERGIRAF_ALLOW_PARSE_ERRORS@[9]);
}

/// The attributes asked for `mergiraf merge`
pub open spec fn merge_attribute_names_spec() -> Seq<&'static str> {
    seq![MERGIRAF_LANGUAGE, LINGUIST_LANGUAGE, MERGIRAF_ALLOW_PARSE_ERRORS]
}

/// The attributes asked for `mergiraf solve`
pub open spec fn solve_attribute_names_spec() -> Seq<&'static str> {
    seq![GIT_CONFLICT_MARKER_SIZE, MERGIRAF_LANGUAGE, LINGUIST_LANGUAGE, MERGIRAF_ALLOW_PARSE_ERRORS]
}


/// File produced by a call to a `git` command, which is to be removed when no longer needed
#[derive(Debug, Clone, PartialEq, Eq)]
pub struct GitTempFile {
    path: String,
}

impl GitTempFile {
    /// The file at that path
    pub fn new(path: String) -> (res: Self)
        ensures
            res.path_view() == path@,
    {
        GitTempFile { path }
    }

    /// The path of the file
    pub closed spec fn path_view(self) -> Seq<char> {
        self.path@
    }

    /// The path of the file
    pub fn path(&self) -> (res: &str)
        ensures
            res@ == self.path_view(),
    {
        self.path.as_str()
    }
}

/// Versions of a file in all three revisions, extracted from git.
#[derive(Debug, Clone, PartialEq, Eq)]
pub struct GitTempFiles {
    pub base: Option<GitTempFile>,
    pub left: Option<GitTempFile>,
    pub right: Option<GitTempFile>,
}

/// Is the character ASCII whitespace (`char::is_ascii_whitespace`)?
pub open spec fn is_ascii_ws(c: char) -> bool {
    c == ' ' || c == '\t' || c == '\n' || c == '\x0C' || c == '\r'
}

/// The words of a text separated by ASCII whitespace (`str::split_ascii_whitespace`)
pub open spec fn ascii_words(s: Seq<char>) -> Seq<Seq<char>>
    decreases s.len(),
{
    if s.len() == 0 {
        Seq::empty()
    } else {
        let w = ascii_words(s.drop_last());
        let c = s.last();
        if is_ascii_ws(c) {
            w
        } else if s.len() >= 2 && !is_ascii_ws(s[s.len() - 2]) {
            w.update(w.len() - 1, w.last().push(c))
        } else {
            w.push(seq![c])
        }
    }
}

proof fn lemma_ascii_words_nonempty_end(s: Seq<char>)
    requires
        s.len() > 0,
        !is_ascii_ws(s.last()),
    ensures
        ascii_words(s).len() > 0,
    decreases s.len(),
{
    if s.len() >= 2 && !is_ascii_ws(s[s.len() - 2]) {
        assert(s.drop_last().last() == s[s.len() - 2]);
        lemma_ascii_words_nonempty_end(s.drop_last());
    }
}

/// The words of a text separated by ASCII whitespace
fn split_ascii_words(s: &str) -> (res: Vec<Vec<char>>)
    ensures
        res@.map_values(|w: Vec<char>| w@) == ascii_words(s@),
{
    let c = to_chars(s);
    let mut words: Vec<Vec<char>> = Vec::new();
    let mut i: usize = 0;
    assert(c@.take(0) =~= Seq::<char>::empty());
    while i < c.len()
        invariant
            0 <= i <= c@.len(),
            c@ == s@,
            words@.map_values(|w: Vec<char>| w@) == ascii_words(c@.take(i as int)),
        decreases c@.len() - i,
    {
        let ghost prefix = c@.take(i + 1);
        assert(prefix.drop_last() =~= c@.take(i as int));
        assert(prefix.last() == c@[i as int]);
        let ghost before = words@.map_values(|w: Vec<char>| w@);
        let ch = c[i];
        let ws = ch == ' ' || ch == '\t' || ch == '\n' || ch == '\x0C' || ch == '\r';
        if !ws {
            let continues = i > 0 && !(c[i - 1] == ' ' || c[i - 1] == '\t' || c[i - 1] == '\n' || c[i - 1] == '\x0C' || c[i - 1] == '\r');
            if continues {
                assert(prefix[prefix.len() - 2] == c@[i - 1]);
                proof {
                    lemma_ascii_words_nonempty_end(c@.take(i as int));
                    assert(c@.take(i as int).last() == c@[i - 1]);
                }
                let last = words.len() - 1;
                let mut w = words.remove(last);
                w.push(ch);
                words.push(w);
                assert(words@.map_values(|w: Vec<char>| w@) =~= before.update(before.len() - 1, before.last().push(ch)));
            } else {
                let mut w: Vec<char> = Vec::new();
                w.push(ch);
                words.push(w);
                assert(words@.map_values(|w: Vec<char>| w@) =~= before.push(seq![ch]));
            }
        }
        i = i + 1;
    }
    assert(c@.take(i as int) =~= c@);
    words
}

/// The file of a stage in the output of `git checkout-index`, where `.` stands for no file
pub open spec fn stage_file(word: Seq<char>) -> Option<Seq<char>> {
    if word == seq!['.'] { None } else { Some(word) }
}

/// The view of an optional temporary file
pub open spec fn temp_file_view(f: Option<GitTempFile>) -> Option<Seq<char>> {
    match f {
        Some(f) => Some(f.path_view()),
        None => None,
    }
}

/// The temporary file of a stage
fn stage_temp_file(word: &Vec<char>) -> (res: Option<GitTempFile>)
    ensures
        temp_file_view(res) == stage_file(word@),
{
    if word.len() == 1 && word[0] == '.' {
        assert(word@ =~= seq!['.']);
        None
    } else {
        assert(word@.subrange(0, word@.len() as int) =~= word@);
        Some(GitTempFile::new(string_of_range(word, 0, word.len())))
    }
}

/// Reads the output of `git checkout-index --stage=all` for the file `path`, whose format is
/// `stage1temp SP stage2temp SP stage3tmp TAB path RS`, into the temporary files of the
/// base, left and right revisions (relative to the repository)
pub fn read_checkout_index_output(output: &str, path: &str) -> (res: Result<GitTempFiles, String>)
    ensures
        match res {
            Ok(files) => output@.len() > 0 && ascii_words(output@).len() >= 3
                && temp_file_view(files.base) == stage_file(ascii_words(output@)[0])
                && temp_file_view(files.left) == stage_file(ascii_words(output@)[1])
                && temp_file_view(files.right) == stage_file(ascii_words(output@)[2]),
            Err(e) => if output@.len() == 0 {
                e@ == "'"@ + path@ + "' is not in a conflicted state."@
            } else {
                ascii_words(output@).len() < 3 && e@ == "invalid checkout-index output: "@ + output@
            },
        },
{
    // No entries are returned for files in stage 0 (in index but not conflicted)
    if to_chars(output).len() == 0 {
        let mut msg = String::new();
        push_str(&mut msg, "'");
        push_str(&mut msg, path);
        push_str(&mut msg, "' is not in a conflicted state.");
        return Err(msg);
    }
    let words = split_ascii_words(output);
    if words.len() < 3 {
        let mut msg = String::new();
        push_str(&mut msg, "invalid checkout-index output: ");
        push_str(&mut msg, output);
        return Err(msg);
    }
    let ghost wv = words@.map_values(|w: Vec<char>| w@);
    assert(wv[0] == words@[0]@ && wv[1] == words@[1]@ && wv[2] == words@[2]@);
    Ok(GitTempFiles {
        base: stage_temp_file(&words[0]),
        left: stage_temp_file(&words[1]),
        right: stage_temp_file(&words[2]),
    })
}

} // verus!
