use vstd::prelude::*;

use crate::cli::{first_index_of, lemma_first_index_of};
use crate::parsed_merge::{chunks_view, or_empty, parse_spec, ChunkView, MergedChunk, ParsedMerge};
use crate::paths::last_index_of;
use crate::settings::DisplaySettings;
use crate::text::{char_is_whitespace, is_blank, is_whitespace, str_eq, string_of_range, to_chars, vec_of_range};

verus! {

/// A part of a merged file to be output
#[derive(Debug, Clone, PartialEq, Eq)]
pub enum MergeSection {
    /// Content that is successfully merged
    Merged(String),
    /// A conflict, with contents differing from the revisions
    Conflict { base: String, left: String, right: String },
}

/// The mathematical content of a [`MergeSection`]
pub enum SectionView {
    Merged(Seq<char>),
    Conflict { base: Seq<char>, left: Seq<char>, right: Seq<char> },
}

impl MergeSection {
    pub open spec fn view_section(self) -> SectionView {
        match self {
            MergeSection::Merged(c) => SectionView::Merged(c@),
            MergeSection::Conflict { base, left, right } => SectionView::Conflict {
                base: base@,
                left: left@,
                right: right@,
            },
        }
    }
}

/// The views of a list of sections
pub open spec fn sections_view(sections: Seq<MergeSection>) -> Seq<SectionView> {
    sections.map_values(|s: MergeSection| s.view_section())
}

/// A merged file represented as a sequence of sections,
/// some being successfully merged and others being conflicts.
///
/// This is different from [`ParsedMerge`] because the conflicts
/// don't necessarily need to match line boundaries, and the precise
/// layout of the resulting text is not known yet as it depends on
/// the output settings.
#[derive(Debug, Clone, PartialEq, Eq)]
pub struct MergedText {
    pub sections: Vec<MergeSection>,
}

/// Does the text end with a line break?
pub open spec fn ends_with_newline(s: Seq<char>) -> bool {
    s.len() > 0 && s.last() == '\n'
}

/// The text with a line break added, unless it is empty or already ends with one
pub open spec fn with_line_end(s: Seq<char>) -> Seq<char> {
    if s.len() > 0 && !ends_with_newline(s) {
        s.push('\n')
    } else {
        s
    }
}

/// The output once a conflict is rendered after it, with the sides that are not blank
pub open spec fn conflict_text(
    out: Seq<char>,
    base: Seq<char>,
    left: Seq<char>,
    right: Seq<char>,
    settings: DisplaySettings,
) -> Seq<char> {
    let o1 = with_line_end(out) + settings.left_marker() + seq!['\n'];
    let o2 = if is_blank(left) { o1 } else { o1 + left };
    let o3 = if settings.diff3 {
        let o = with_line_end(o2) + settings.base_marker() + seq!['\n'];
        if is_blank(base) { o } else { o + base }
    } else {
        o2
    };
    let o4 = with_line_end(o3) + settings.middle_marker() + seq!['\n'];
    let o5 = if is_blank(right) { o4 } else { o4 + right };
    with_line_end(o5) + settings.right_marker() + seq!['\n']
}

/// Are all the sections merged ones?
pub open spec fn all_merged(sections: Seq<SectionView>) -> bool {
    forall|i: int| 0 <= i < sections.len() ==> (#[trigger] sections[i]) is Merged
}

/// The concatenation of merged sections
pub open spec fn merged_concat(sections: Seq<SectionView>) -> Seq<char>
    decreases sections.len(),
{
    if sections.len() == 0 {
        Seq::empty()
    } else {
        merged_concat(sections.drop_last()) + match sections.last() {
            SectionView::Merged(c) => c,
            _ => Seq::empty(),
        }
    }
}

/// The state of the rendering of sections in full lines: the output so far,
/// the sides of a conflict being gathered, and whether one is
pub struct FullLinesState {
    pub output: Seq<char>,
    pub base: Seq<char>,
    pub left: Seq<char>,
    pub right: Seq<char>,
    pub gathering: bool,
}

/// The state once a section is rendered in full lines: merged text is added to the output,
/// unless a conflict is being gathered, in which case it is added to the sides of the conflict
/// up to the first line break (after which the conflict is rendered). A conflict gathers the
/// unfinished last line of the output, and is rendered once all its sides end lines.
pub open spec fn full_lines_step(st: FullLinesState, section: SectionView, settings: DisplaySettings) -> FullLinesState {
    match section {
        SectionView::Merged(c) => if st.gathering {
            let nl = first_index_of(c, '\n');
            if nl >= 0 {
                let head = c.take(nl + 1);
                FullLinesState {
                    output: conflict_text(st.output, st.base + head, st.left + head, st.right + head, settings)
                        + c.skip(nl + 1),
                    base: st.base + head,
                    left: st.left + head,
                    right: st.right + head,
                    gathering: false,
                }
            } else if is_blank(c) {
                FullLinesState {
                    base: if is_blank(st.base) { st.base } else { st.base + c },
                    left: if is_blank(st.left) { st.left } else { st.left + c },
                    right: if is_blank(st.right) { st.right } else { st.right + c },
                    ..st
                }
            } else {
                FullLinesState { base: st.base + c, left: st.left + c, right: st.right + c, ..st }
            }
        } else {
            FullLinesState { output: st.output + c, ..st }
        },
        SectionView::Conflict { base, left, right } => {
            let cut = if !st.gathering && st.output.len() > 0 && !ends_with_newline(st.output) {
                last_index_of(st.output, '\n') + 1
            } else {
                st.output.len() as int
            };
            let out0 = st.output.take(cut);
            let line = st.output.skip(cut);
            let b1 = (if st.gathering { st.base } else { line }) + base;
            let l1 = (if st.gathering { st.left } else { line }) + left;
            let r1 = (if st.gathering { st.right } else { line }) + right;
            let all_end = (ends_with_newline(b1) || is_blank(b1)) && (ends_with_newline(l1) || is_blank(l1))
                && (ends_with_newline(r1) || is_blank(r1));
            if all_end {
                FullLinesState { output: conflict_text(out0, b1, l1, r1, settings), base: b1, left: l1, right: r1, gathering: false }
            } else {
                FullLinesState { output: out0, base: b1, left: l1, right: r1, gathering: true }
            }
        },
    }
}

/// The state once the sections are rendered in full lines
pub open spec fn full_lines_fold(sections: Seq<SectionView>, settings: DisplaySettings) -> FullLinesState
    decreases sections.len(),
{
    if sections.len() == 0 {
        FullLinesState {
            output: Seq::empty(),
            base: Seq::empty(),
            left: Seq::empty(),
            right: Seq::empty(),
            gathering: false,
        }
    } else {
        full_lines_step(full_lines_fold(sections.drop_last(), settings), sections.last(), settings)
    }
}

/// The rendering of sections in full lines
pub open spec fn full_lines_text(sections: Seq<SectionView>, settings: DisplaySettings) -> Seq<char> {
    let st = full_lines_fold(sections, settings);
    if st.gathering {
        conflict_text(st.output, st.base, st.left, st.right, settings)
    } else {
        st.output
    }
}

/// Is the character a space or a tab?
pub open spec fn is_space_or_tab(c: char) -> bool {
    c == ' ' || c == '\t'
}

/// The number of spaces and tabs that start the text
pub open spec fn leading_spaces(s: Seq<char>) -> nat
    decreases s.len(),
{
    if s.len() > 0 && is_space_or_tab(s[0]) {
        1 + leading_spaces(s.skip(1))
    } else {
        0
    }
}

/// The number of spaces and tabs that end the text
pub open spec fn trailing_spaces(s: Seq<char>) -> nat
    decreases s.len(),
{
    if s.len() > 0 && is_space_or_tab(s.last()) {
        1 + trailing_spaces(s.drop_last())
    } else {
        0
    }
}

/// The text without its first line if that line is made only of spaces and tabs
pub open spec fn without_blank_first_line(s: Seq<char>) -> Seq<char> {
    let k = leading_spaces(s);
    if k < s.len() && s[k as int] == '\n' {
        s.skip(k + 1 as int)
    } else {
        s
    }
}

/// A side of a conflict with some whitespace put in front, unless it is empty
pub open spec fn prefixed_side(ws: Seq<char>, side: Seq<char>) -> Seq<char> {
    if side.len() == 0 { side } else { ws + side }
}

/// The output once a section is rendered compactly (with whether the last section was a conflict):
/// merged text loses a first line made of spaces and tabs after a conflict, and the spaces and
/// tabs that end the output move into the sides of a following conflict.
pub open spec fn compact_step(
    st: (Seq<char>, bool),
    section: SectionView,
    settings: DisplaySettings,
) -> (Seq<char>, bool) {
    let (out, last_was_conflict) = st;
    match section {
        SectionView::Merged(c) => (out + if last_was_conflict { without_blank_first_line(c) } else { c }, false),
        SectionView::Conflict { base, left, right } => {
            let cut = out.len() - trailing_spaces(out) as int;
            let ws = out.skip(cut);
            (
                conflict_text(
                    out.take(cut),
                    prefixed_side(ws, base),
                    prefixed_side(ws, left),
                    prefixed_side(ws, right),
                    settings,
                ),
                true,
            )
        },
    }
}

/// The compact rendering of sections
pub open spec fn compact_fold(sections: Seq<SectionView>, settings: DisplaySettings) -> (Seq<char>, bool)
    decreases sections.len(),
{
    if sections.len() == 0 {
        (Seq::empty(), false)
    } else {
        compact_step(compact_fold(sections.drop_last(), settings), sections.last(), settings)
    }
}

/// The rendering of the sections according to the settings
pub open spec fn render_text(sections: Seq<SectionView>, settings: DisplaySettings) -> Seq<char> {
    if all_merged(sections) {
        merged_concat(sections)
    } else if settings.compact == Some(true) {
        compact_fold(sections, settings).0
    } else {
        full_lines_text(sections, settings)
    }
}


/// Appends characters at the end of a vector
fn append_chars(out: &mut Vec<char>, s: &Vec<char>)
    ensures
        final(out)@ == old(out)@ + s@,
{
    let ghost start = out@;
    let mut i: usize = 0;
    while i < s.len()
        invariant
            0 <= i <= s@.len(),
            out@ == start + s@.take(i as int),
        decreases s@.len() - i,
    {
        out.push(s[i]);
        assert(s@.take(i + 1) =~= s@.take(i as int).push(s@[i as int]));
        i = i + 1;
    }
    assert(s@.take(i as int) =~= s@);
}

/// Appends the characters `s[from..to]` at the end of a vector
fn append_range(out: &mut Vec<char>, s: &Vec<char>, from: usize, to: usize)
    requires
        from <= to <= s@.len(),
    ensures
        final(out)@ == old(out)@ + s@.subrange(from as int, to as int),
{
    let ghost start = out@;
    let mut i: usize = from;
    while i < to
        invariant
            from <= i <= to <= s@.len(),
            out@ == start + s@.subrange(from as int, i as int),
        decreases to - i,
    {
        out.push(s[i]);
        assert(s@.subrange(from as int, i + 1) =~= s@.subrange(from as int, i as int).push(s@[i as int]));
        i = i + 1;
    }
}

/// Does the vector end with a line break?
fn ends_with_nl(v: &Vec<char>) -> (res: bool)
    ensures
        res == ends_with_newline(v@),
{
    v.len() > 0 && v[v.len() - 1] == '\n'
}

/// Is the vector made only of whitespace?
fn chars_blank(v: &Vec<char>) -> (res: bool)
    ensures
        res == is_blank(v@),
{
    let mut i: usize = 0;
    while i < v.len()
        invariant
            0 <= i <= v@.len(),
            forall|j: int| 0 <= j < i ==> is_whitespace(#[trigger] v@[j]),
        decreases v@.len() - i,
    {
        if !char_is_whitespace(v[i]) {
            return false;
        }
        i = i + 1;
    }
    true
}

/// Adds a line break at the end of the output unless it is empty or already ends with one
fn add_line_end(out: &mut Vec<char>)
    ensures
        final(out)@ == with_line_end(old(out)@),
{
    if out.len() > 0 && !ends_with_nl(out) {
        out.push('\n');
    }
}

/// Appends a string at the end of a vector of characters
fn append_string(out: &mut Vec<char>, s: &String)
    ensures
        final(out)@ == old(out)@ + s@,
{
    let v = to_chars(s.as_str());
    append_chars(out, &v);
}

/// Renders a conflict at the end of the output
fn render_conflict(base: &Vec<char>, left: &Vec<char>, right: &Vec<char>, settings: &DisplaySettings, output: &mut Vec<char>)
    ensures
        final(output)@ == conflict_text(old(output)@, base@, left@, right@, *settings),
{
    let ghost start = output@;
    add_line_end(output);
    append_string(output, &settings.left_marker_or_default());
    output.push('\n');
    let ghost o1 = with_line_end(start) + settings.left_marker() + seq!['\n'];
    assert(output@ =~= o1);
    if !chars_blank(left) {
        append_chars(output, left);
    }
    let ghost o2 = if is_blank(left@) { o1 } else { o1 + left@ };
    assert(output@ == o2);
    if settings.diff3 {
        add_line_end(output);
        append_string(output, &settings.base_marker_or_default());
        output.push('\n');
        assert(output@ =~= with_line_end(o2) + settings.base_marker() + seq!['\n']);
        if !chars_blank(base) {
            append_chars(output, base);
        }
    }
    let ghost o3 = if settings.diff3 {
        let o = with_line_end(o2) + settings.base_marker() + seq!['\n'];
        if is_blank(base@) { o } else { o + base@ }
    } else {
        o2
    };
    assert(output@ == o3);
    add_line_end(output);
    append_string(output, &settings.middle_marker_or_default());
    output.push('\n');
    let ghost o4 = with_line_end(o3) + settings.middle_marker() + seq!['\n'];
    assert(output@ =~= o4);
    if !chars_blank(right) {
        append_chars(output, right);
    }
    let ghost o5 = if is_blank(right@) { o4 } else { o4 + right@ };
    assert(output@ == o5);
    add_line_end(output);
    append_string(output, &settings.right_marker_or_default());
    output.push('\n');
    assert(output@ =~= with_line_end(o5) + settings.right_marker() + seq!['\n']);
}

/// The position of the first line break, if any
fn first_newline(v: &Vec<char>) -> (res: Option<usize>)
    ensures
        match res {
            Some(i) => i < v@.len() && first_index_of(v@, '\n') == i,
            None => first_index_of(v@, '\n') == -1,
        },
{
    let mut i: usize = 0;
    while i < v.len()
        invariant
            0 <= i <= v@.len(),
            forall|j: int| 0 <= j < i ==> v@[j] != '\n',
        decreases v@.len() - i,
    {
        if v[i] == '\n' {
            proof {
                lemma_first_index_of(v@, '\n', i as int);
            }
            return Some(i);
        }
        i = i + 1;
    }
    proof {
        lemma_first_index_of(v@, '\n', i as int);
    }
    None
}

/// The position just after the last line break (0 if there is none)
fn last_line_start(v: &Vec<char>) -> (res: usize)
    ensures
        res == last_index_of(v@, '\n') + 1,
        res <= v@.len(),
{
    let mut i: usize = v.len();
    assert(v@.take(i as int) =~= v@);
    while i > 0 && v[i - 1] != '\n'
        invariant
            0 <= i <= v@.len(),
            last_index_of(v@.take(i as int), '\n') == last_index_of(v@, '\n'),
        decreases i,
    {
        assert(v@.take(i as int).drop_last() =~= v@.take(i - 1));
        i = i - 1;
    }
    proof {
        if i > 0 {
            assert(v@.take(i as int).last() == '\n');
        }
    }
    i
}

impl MergedText {
    /// Adds a line break at the end of the output unless it is empty or already ends with one
    pub fn maybe_add_newline(output: &mut String)
        ensures
            final(output)@ == with_line_end(old(output)@),
    {
        let v = to_chars(output.as_str());
        if v.len() > 0 && v[v.len() - 1] != '\n' {
            crate::text::push_char(output, '\n');
        }
    }

    /// Creates an empty merged text
    pub fn new() -> (res: Self)
        ensures
            res.sections@.len() == 0,
    {
        MergedText { sections: Vec::new() }
    }

    /// Appends merged text at the end
    pub fn push_merged(&mut self, contents: String)
        ensures
            final(self).sections@ == old(self).sections@.push(MergeSection::Merged(contents)),
    {
        self.sections.push(MergeSection::Merged(contents));
    }

    /// Appends a conflict at the end (or merged text, if the left and right sides agree)
    pub fn push_conflict(&mut self, base: String, left: String, right: String)
        ensures
            final(self).sections@ == old(self).sections@.push(
                if left@ == right@ {
                    MergeSection::Merged(left)
                } else {
                    MergeSection::Conflict { base, left, right }
                },
            ),
    {
        if str_eq(left.as_str(), right.as_str()) {
            // well that's not really a conflict
            self.push_merged(left);
        } else {
            self.sections.push(MergeSection::Conflict { base, left, right });
        }
    }

    /// Renders the merged text by expanding conflict boundaries so that they match newlines
    pub fn render_full_lines(&self, settings: &DisplaySettings) -> (res: String)
        ensures
            res@ == full_lines_text(sections_view(self.sections@), *settings),
    {
        let ghost secs = sections_view(self.sections@);
        let mut output: Vec<char> = Vec::new();
        let mut base_buffer: Vec<char> = Vec::new();
        let mut left_buffer: Vec<char> = Vec::new();
        let mut right_buffer: Vec<char> = Vec::new();
        let mut gathering_conflict = false;
        let mut i: usize = 0;
        while i < self.sections.len()
            invariant
                0 <= i <= self.sections@.len(),
                secs == sections_view(self.sections@),
                (FullLinesState {
                    output: output@,
                    base: base_buffer@,
                    left: left_buffer@,
                    right: right_buffer@,
                    gathering: gathering_conflict,
                }) == full_lines_fold(secs.take(i as int), *settings),
            decreases self.sections@.len() - i,
        {
            assert(secs.take(i + 1).drop_last() =~= secs.take(i as int));
            assert(secs.take(i + 1).last() == secs[i as int]);
            match &self.sections[i] {
                MergeSection::Merged(contents) => {
                    let c = to_chars(contents.as_str());
                    let clen = c.len();
                    if gathering_conflict {
                        match first_newline(&c) {
                            Some(idx) => {
                                append_range(&mut left_buffer, &c, 0, idx + 1);
                                append_range(&mut base_buffer, &c, 0, idx + 1);
                                append_range(&mut right_buffer, &c, 0, idx + 1);
                                assert(c@.subrange(0, idx + 1) =~= c@.take(idx + 1));
                                render_conflict(&base_buffer, &left_buffer, &right_buffer, settings, &mut output);
                                append_range(&mut output, &c, idx + 1, clen);
                                assert(c@.subrange(idx + 1, c@.len() as int) =~= c@.skip(idx + 1));
                                gathering_conflict = false;
                            },
                            None => {
                                if chars_blank(&c) {
                                    // the content being added is just whitespace (but no newlines),
                                    // so something that separates an element from the next:
                                    // it only goes to a side that already has an element in it
                                    if !chars_blank(&base_buffer) {
                                        append_chars(&mut base_buffer, &c);
                                    }
                                    if !chars_blank(&left_buffer) {
                                        append_chars(&mut left_buffer, &c);
                                    }
                                    if !chars_blank(&right_buffer) {
                                        append_chars(&mut right_buffer, &c);
                                    }
                                } else {
                                    append_chars(&mut base_buffer, &c);
                                    append_chars(&mut left_buffer, &c);
                                    append_chars(&mut right_buffer, &c);
                                }
                            },
                        }
                    } else {
                        append_chars(&mut output, &c);
                    }
                },
                MergeSection::Conflict { base, left, right } => {
                    if !gathering_conflict {
                        if !ends_with_nl(&output) && output.len() > 0 {
                            // we have an unfinished line in the output: let's remove it
                            // and add it to the conflict we are starting to gather
                            let cut = last_line_start(&output);
                            base_buffer = vec_of_range(&output, cut, output.len());
                            left_buffer = vec_of_range(&output, cut, output.len());
                            right_buffer = vec_of_range(&output, cut, output.len());
                            assert(output@.subrange(cut as int, output@.len() as int) =~= output@.skip(cut as int));
                            output.truncate(cut);
                        } else {
                            base_buffer.clear();
                            left_buffer.clear();
                            right_buffer.clear();
                            assert(output@.skip(output@.len() as int) =~= Seq::<char>::empty());
                            assert(output@.take(output@.len() as int) =~= output@);
                        }
                    } else {
                        assert(output@.skip(output@.len() as int) =~= Seq::<char>::empty());
                        assert(output@.take(output@.len() as int) =~= output@);
                    }
                    append_string(&mut base_buffer, base);
                    append_string(&mut left_buffer, left);
                    append_string(&mut right_buffer, right);
                    let all_end_with_newline = (ends_with_nl(&base_buffer) || chars_blank(&base_buffer))
                        && (ends_with_nl(&left_buffer) || chars_blank(&left_buffer))
                        && (ends_with_nl(&right_buffer) || chars_blank(&right_buffer));
                    if all_end_with_newline {
                        render_conflict(&base_buffer, &left_buffer, &right_buffer, settings, &mut output);
                    }
                    gathering_conflict = !all_end_with_newline;
                },
            }
            i = i + 1;
        }
        assert(secs.take(i as int) =~= secs);
        if gathering_conflict {
            render_conflict(&base_buffer, &left_buffer, &right_buffer, settings, &mut output);
        }
        string_of_range(&output, 0, output.len())
    }
}


proof fn lemma_leading_spaces(s: Seq<char>, k: int)
    requires
        0 <= k <= s.len(),
        forall|j: int| 0 <= j < k ==> is_space_or_tab(#[trigger] s[j]),
        k == s.len() || !is_space_or_tab(s[k]),
    ensures
        leading_spaces(s) == k,
    decreases k,
{
    if k > 0 {
        assert forall|j: int| 0 <= j < k - 1 implies is_space_or_tab(#[trigger] s.skip(1)[j]) by {
            assert(s.skip(1)[j] == s[j + 1]);
        }
        lemma_leading_spaces(s.skip(1), k - 1);
    }
}

proof fn lemma_trailing_spaces(s: Seq<char>, k: int)
    requires
        0 <= k <= s.len(),
        forall|j: int| k <= j < s.len() ==> is_space_or_tab(#[trigger] s[j]),
        k == 0 || !is_space_or_tab(s[k - 1]),
    ensures
        trailing_spaces(s) == s.len() - k,
    decreases s.len() - k,
{
    if k < s.len() {
        assert forall|j: int| k <= j < s.drop_last().len() implies is_space_or_tab(#[trigger] s.drop_last()[j]) by {
            assert(s.drop_last()[j] == s[j]);
        }
        lemma_trailing_spaces(s.drop_last(), k);
    }
}

/// A side of a conflict with some whitespace put in front, unless it is empty
fn prefix_side(ws: &Vec<char>, side: &String) -> (res: Vec<char>)
    ensures
        res@ == prefixed_side(ws@, side@),
{
    let side_chars = to_chars(side.as_str());
    if side_chars.len() == 0 {
        side_chars
    } else {
        let mut res: Vec<char> = Vec::new();
        append_chars(&mut res, ws);
        append_chars(&mut res, &side_chars);
        res
    }
}

impl MergedText {
    /// Renders the merged text without expanding conflict boundaries so that they match newlines.
    /// Instead, insert newlines around the conflict boundaries directly.
    pub fn render_compact(&self, settings: &DisplaySettings) -> (res: String)
        ensures
            res@ == compact_fold(sections_view(self.sections@), *settings).0,
    {
        let ghost secs = sections_view(self.sections@);
        let mut output: Vec<char> = Vec::new();
        let mut last_was_conflict = false;
        let mut i: usize = 0;
        while i < self.sections.len()
            invariant
                0 <= i <= self.sections@.len(),
                secs == sections_view(self.sections@),
                (output@, last_was_conflict) == compact_fold(secs.take(i as int), *settings),
            decreases self.sections@.len() - i,
        {
            assert(secs.take(i + 1).drop_last() =~= secs.take(i as int));
            assert(secs.take(i + 1).last() == secs[i as int]);
            match &self.sections[i] {
                MergeSection::Merged(contents) => {
                    let c = to_chars(contents.as_str());
                    let clen = c.len();
                    if last_was_conflict {
                        let mut k: usize = 0;
                        while k < clen && (c[k] == ' ' || c[k] == '\t')
                            invariant
                                0 <= k <= clen,
                                clen == c@.len(),
                                forall|j: int| 0 <= j < k ==> is_space_or_tab(#[trigger] c@[j]),
                            decreases clen - k,
                        {
                            k = k + 1;
                        }
                        proof {
                            lemma_leading_spaces(c@, k as int);
                        }
                        if k < clen && c[k] == '\n' {
                            append_range(&mut output, &c, k + 1, clen);
                            assert(c@.subrange(k + 1, clen as int) =~= c@.skip(k + 1));
                        } else {
                            append_chars(&mut output, &c);
                        }
                    } else {
                        append_chars(&mut output, &c);
                    }
                    last_was_conflict = false;
                },
                MergeSection::Conflict { base, left, right } => {
                    let olen = output.len();
                    let mut cut: usize = olen;
                    while cut > 0 && (output[cut - 1] == ' ' || output[cut - 1] == '\t')
                        invariant
                            0 <= cut <= olen,
                            olen == output@.len(),
                            forall|j: int| cut <= j < olen ==> is_space_or_tab(#[trigger] output@[j]),
                        decreases cut,
                    {
                        cut = cut - 1;
                    }
                    proof {
                        lemma_trailing_spaces(output@, cut as int);
                    }
                    let ws = vec_of_range(&output, cut, olen);
                    assert(output@.subrange(cut as int, olen as int) =~= output@.skip(cut as int));
                    output.truncate(cut);
                    let new_base = prefix_side(&ws, base);
                    let new_left = prefix_side(&ws, left);
                    let new_right = prefix_side(&ws, right);
                    render_conflict(&new_base, &new_left, &new_right, settings, &mut output);
                    last_was_conflict = true;
                },
            }
            i = i + 1;
        }
        assert(secs.take(i as int) =~= secs);
        string_of_range(&output, 0, output.len())
    }

    /// Renders the full file according to the supplied [`DisplaySettings`]
    pub fn render(&self, settings: &DisplaySettings) -> (res: String)
        ensures
            res@ == render_text(sections_view(self.sections@), *settings),
    {
        let ghost secs = sections_view(self.sections@);
        // if all the chunks are `Merged`, just concatenate them all
        let mut output: Vec<char> = Vec::new();
        let mut i: usize = 0;
        while i < self.sections.len()
            invariant
                0 <= i <= self.sections@.len(),
                secs == sections_view(self.sections@),
                all_merged(secs.take(i as int)),
                output@ == merged_concat(secs.take(i as int)),
            decreases self.sections@.len() - i,
        {
            assert(secs.take(i + 1).drop_last() =~= secs.take(i as int));
            assert(secs.take(i + 1).last() == secs[i as int]);
            match &self.sections[i] {
                MergeSection::Merged(contents) => {
                    append_string(&mut output, contents);
                    assert(all_merged(secs.take(i + 1)));
                },
                MergeSection::Conflict { .. } => {
                    assert(!all_merged(secs)) by {
                        assert(!(secs[i as int] is Merged));
                    }
                    if settings.compact_or_default() {
                        return self.render_compact(settings);
                    } else {
                        return self.render_full_lines(settings);
                    }
                },
            }
            i = i + 1;
        }
        assert(secs.take(i as int) =~= secs);
        string_of_range(&output, 0, output.len())
    }
}


/// A line with the indentation put in front, unless it is empty or kept as is
pub open spec fn indent_line(line: Seq<char>, indentation: Seq<char>, keep: bool) -> Seq<char> {
    if line.len() == 0 || keep { line } else { indentation + line }
}

/// The lines of `s` (which starts a line) with the indentation put in front of each non-empty one,
/// except the first one of the text when it is not to be reindented
pub open spec fn reindent_lines(s: Seq<char>, indentation: Seq<char>, first: bool, reindent_first: bool) -> Seq<char>
    decreases s.len(),
{
    let nl = first_index_of(s, '\n');
    if 0 <= nl < s.len() {
        indent_line(s.take(nl), indentation, first && !reindent_first) + seq!['\n']
            + reindent_lines(s.skip(nl + 1), indentation, false, reindent_first)
    } else {
        indent_line(s, indentation, first && !reindent_first)
    }
}

/// The text of a line-based merge reindented: each non-empty line gets the indentation in front
/// (the first one only if `reindent_first`), and if `reindent_last` and the text ends with a line
/// break, the indentation is added at the end too
pub open spec fn reindented(content: Seq<char>, indentation: Seq<char>, reindent_first: bool, reindent_last: bool) -> Seq<char> {
    let r = reindent_lines(content, indentation, true, reindent_first);
    if reindent_last && ends_with_newline(r) { r + indentation } else { r }
}

/// Does the chunk contain a line break, in its contents or one of its sides?
pub open spec fn chunk_has_newline(c: ChunkView) -> bool {
    match c {
        ChunkView::Resolved { contents, .. } => contents.contains('\n'),
        ChunkView::Conflict { left, base, right, .. } => or_empty(left).contains('\n')
            || or_empty(right).contains('\n') || or_empty(base).contains('\n'),
    }
}

/// Does one of the chunks before the `i`-th one contain a line break?
pub open spec fn newline_before(chunks: Seq<ChunkView>, i: int) -> bool {
    exists|j: int| 0 <= j < i && chunk_has_newline(#[trigger] chunks[j])
}

/// The section for a chunk of a line-based merge, reindented
pub open spec fn section_of_chunk(c: ChunkView, indentation: Seq<char>, newline_found: bool) -> SectionView {
    match c {
        ChunkView::Resolved { contents, .. } => SectionView::Merged(reindented(contents, indentation, newline_found, true)),
        ChunkView::Conflict { left, base, right, .. } => SectionView::Conflict {
            base: reindented(or_empty(base), indentation, false, false),
            left: reindented(or_empty(left), indentation, false, false),
            right: reindented(or_empty(right), indentation, false, false),
        },
    }
}

/// The sections for the chunks of a line-based merge: each reindented, resolved chunks from
/// their first line on once a line break was met before them
pub open spec fn sections_of_chunks(chunks: Seq<ChunkView>, indentation: Seq<char>) -> Seq<SectionView> {
    Seq::new(chunks.len(), |i: int| section_of_chunk(chunks[i], indentation, newline_before(chunks, i)))
}

/// Does the vector of characters contain a line break?
fn has_newline(v: &Vec<char>) -> (res: bool)
    ensures
        res == v@.contains('\n'),
{
    let mut i: usize = 0;
    while i < v.len()
        invariant
            0 <= i <= v@.len(),
            forall|j: int| 0 <= j < i ==> v@[j] != '\n',
        decreases v@.len() - i,
    {
        if v[i] == '\n' {
            assert(v@[i as int] == '\n');
            return true;
        }
        i = i + 1;
    }
    false
}

/// The text of an optional string, or nothing
fn chars_or_empty(s: &Option<String>) -> (res: Vec<char>)
    ensures
        res@ == or_empty(crate::settings::opt_view(*s)),
{
    match s {
        Some(s) => to_chars(s.as_str()),
        None => Vec::new(),
    }
}

impl MergedText {
    /// Reindents the contents of a line-based merge
    pub fn reindent_line_based_merge(content: &str, indentation: &str, reindent_first: bool, reindent_last: bool) -> (res: String)
        ensures
            res@ == reindented(content@, indentation@, reindent_first, reindent_last),
    {
        let c = to_chars(content);
        let ind = to_chars(indentation);
        let clen = c.len();
        let mut out: Vec<char> = Vec::new();
        let mut pos: usize = 0;
        let mut first = true;
        let ghost whole = reindent_lines(c@, ind@, true, reindent_first);
        assert(c@.skip(0) =~= c@);
        assert(out@ + whole =~= whole);
        loop
            invariant_except_break
                0 <= pos <= clen,
                clen == c@.len(),
                c@ == content@,
                ind@ == indentation@,
                whole == reindent_lines(c@, ind@, true, reindent_first),
                out@ + reindent_lines(c@.skip(pos as int), ind@, first, reindent_first) == whole,
            ensures
                out@ == whole,
            decreases clen - pos,
        {
            let ghost rest = c@.skip(pos as int);
            let mut j: usize = pos;
            while j < clen && c[j] != '\n'
                invariant
                    pos <= j <= clen,
                    clen == c@.len(),
                    rest == c@.skip(pos as int),
                    forall|k: int| 0 <= k < j - pos ==> rest[k] != '\n',
                decreases clen - j,
            {
                j = j + 1;
            }
            proof {
                lemma_first_index_of(rest, '\n', j - pos);
            }
            let keep = first && !reindent_first;
            let ghost out0 = out@;
            if j - pos > 0 && !keep {
                append_chars(&mut out, &ind);
            }
            append_range(&mut out, &c, pos, j);
            proof {
                assert(c@.subrange(pos as int, j as int) =~= rest.take(j - pos));
                assert(out@ =~= out0 + indent_line(rest.take(j - pos), ind@, keep));
            }
            if j < clen {
                out.push('\n');
                proof {
                    assert(rest.skip(j - pos + 1) =~= c@.skip(j + 1));
                    assert(reindent_lines(rest, ind@, first, reindent_first) == indent_line(rest.take(j - pos), ind@, keep)
                        + seq!['\n'] + reindent_lines(c@.skip(j + 1), ind@, false, reindent_first));
                    assert(out@ + reindent_lines(c@.skip(j + 1), ind@, false, reindent_first) =~= out0 + reindent_lines(rest, ind@, first, reindent_first));
                }
                pos = j + 1;
                first = false;
            } else {
                proof {
                    assert(rest.take(j - pos) =~= rest);
                    assert(reindent_lines(rest, ind@, first, reindent_first) == indent_line(rest, ind@, keep));
                }
                break;
            }
        }
        if reindent_last && out.len() > 0 && out[out.len() - 1] == '\n' {
            append_chars(&mut out, &ind);
        }
        string_of_range(&out, 0, out.len())
    }

    /// Appends some text which might contain line-based conflicts.
    /// If the text contains newlines it also gets re-indented to the indentation level supplied.
    pub fn push_line_based_merge(&mut self, line_based_merge: &str, indentation: &str, settings: &DisplaySettings)
        requires
            parse_spec(line_based_merge@, settings.marker_size() as int, 0) is Some,
        ensures
            sections_view(final(self).sections@) == sections_view(old(self).sections@) + sections_of_chunks(
                parse_spec(line_based_merge@, settings.marker_size() as int, 0)->0,
                indentation@,
            ),
    {
        let parsed = match ParsedMerge::parse(line_based_merge, settings) {
            Ok(p) => p,
            Err(_) => {
                return;
            },
        };
        let ghost chunks = chunks_view(parsed.chunks@);
        let ghost start = sections_view(self.sections@);
        let mut newline_found = false;
        let mut i: usize = 0;
        while i < parsed.chunks.len()
            invariant
                0 <= i <= parsed.chunks@.len(),
                chunks == chunks_view(parsed.chunks@),
                newline_found == newline_before(chunks, i as int),
                sections_view(self.sections@) == start + sections_of_chunks(chunks, indentation@).take(i as int),
            decreases parsed.chunks@.len() - i,
        {
            let ghost before = self.sections@;
            assert(chunks[i as int] == parsed.chunks@[i as int].view_chunk());
            match &parsed.chunks[i] {
                MergedChunk::Resolved { contents, .. } => {
                    let merged = Self::reindent_line_based_merge(contents.as_str(), indentation, newline_found, true);
                    self.sections.push(MergeSection::Merged(merged));
                    let c = to_chars(contents.as_str());
                    newline_found = newline_found || has_newline(&c);
                },
                MergedChunk::Conflict { left, base, right, .. } => {
                    let l = chars_or_empty(left);
                    let b = chars_or_empty(base);
                    let r = chars_or_empty(right);
                    let ls = string_of_range(&l, 0, l.len());
                    let bs = string_of_range(&b, 0, b.len());
                    let rs = string_of_range(&r, 0, r.len());
                    assert(l@.subrange(0, l@.len() as int) =~= l@);
                    assert(b@.subrange(0, b@.len() as int) =~= b@);
                    assert(r@.subrange(0, r@.len() as int) =~= r@);
                    self.sections.push(MergeSection::Conflict {
                        left: Self::reindent_line_based_merge(ls.as_str(), indentation, false, false),
                        base: Self::reindent_line_based_merge(bs.as_str(), indentation, false, false),
                        right: Self::reindent_line_based_merge(rs.as_str(), indentation, false, false),
                    });
                    newline_found = newline_found || has_newline(&l) || has_newline(&r) || has_newline(&b);
                },
            }
            proof {
                assert(sections_view(self.sections@) =~= sections_view(before).push(self.sections@.last().view_section()));
                assert(sections_of_chunks(chunks, indentation@).take(i + 1) =~= sections_of_chunks(chunks, indentation@).take(i as int).push(
                    sections_of_chunks(chunks, indentation@)[i as int]));
                if newline_before(chunks, i + 1) && !newline_before(chunks, i as int) {
                    assert(chunk_has_newline(chunks[i as int]));
                }
                if chunk_has_newline(chunks[i as int]) {
                    assert(newline_before(chunks, i + 1));
                }
                if newline_before(chunks, i as int) {
                    let j = choose|j: int| 0 <= j < i && chunk_has_newline(#[trigger] chunks[j]);
                    assert(newline_before(chunks, i + 1));
                }
            }
            i = i + 1;
        }
        assert(sections_of_chunks(chunks, indentation@).take(i as int) =~= sections_of_chunks(chunks, indentation@));
    }
}

} // verus!
