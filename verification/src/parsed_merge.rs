use vstd::prelude::*;

use crate::conflict_markers::{
    find_conflict, find_diff2_conflict, first_conflict, has_diff2_conflict, is_first_conflict,
    lex_le, marker_line_end, marker_line_end_at, marker_line_name, marker_line_name_at,
    is_line_start, marker_at, marker_char, next_newline, right_kind, valid_conflict, Bounds, MarkerKind,
};
use crate::pcs::Revision;
use crate::settings::{marker_chars, opt_view, DisplaySettings};
use crate::text::{
    byte_len, lemma_byte_len, lemma_byte_len_within, lemma_encode_concat, lemma_encode_split, lemma_encode_subrange,
    range_byte_len, str_byte_len, string_of_range, to_chars, vec_of_range,
};
use vstd::utf8::encode_utf8;

verus! {

/// The message of the error raised on conflicts written in the diff2 style
pub const PARSED_MERGE_DIFF2_DETECTED: &'static str =
    "Mergiraf cannot solve conflicts displayed in the diff2 style";

/// A chunk in a file with merge conflicts: either a readily merged chunk or a conflict.
#[derive(Debug, Clone, PartialEq, Eq)]
pub enum MergedChunk {
    /// A readily-merged chunk
    Resolved {
        /// The position (in bytes) at which this merged chunk can be found
        offset: usize,
        /// Its textual contents (including the last newline before any conflict)
        contents: String,
    },
    /// A diff3-style conflict
    Conflict {
        /// The left part of the conflict, with the final newline preserved (if present)
        left: Option<String>,
        /// The base (or ancestor) part of the conflict, with the final newline preserved (if present)
        base: Option<String>,
        /// The right part of the conflict, with the final newline preserved (if present)
        right: Option<String>,
        /// The name of the left revision (potentially empty)
        left_name: Option<String>,
        /// The name of the base revision (potentially empty)
        base_name: Option<String>,
        /// The name of the right revision (potentially empty)
        right_name: Option<String>,
    },
}

/// The mathematical content of a [`MergedChunk`]
pub enum ChunkView {
    Resolved { offset: int, contents: Seq<char> },
    Conflict {
        left: Option<Seq<char>>,
        base: Option<Seq<char>>,
        right: Option<Seq<char>>,
        left_name: Option<Seq<char>>,
        base_name: Option<Seq<char>>,
        right_name: Option<Seq<char>>,
    },
}

impl MergedChunk {
    pub open spec fn view_chunk(self) -> ChunkView {
        match self {
            MergedChunk::Resolved { offset, contents } => ChunkView::Resolved {
                offset: offset as int,
                contents: contents@,
            },
            MergedChunk::Conflict { left, base, right, left_name, base_name, right_name } =>
                ChunkView::Conflict {
                left: opt_view(left),
                base: opt_view(base),
                right: opt_view(right),
                left_name: opt_view(left_name),
                base_name: opt_view(base_name),
                right_name: opt_view(right_name),
            },
        }
    }
}

/// The views of a list of chunks
pub open spec fn chunks_view(chunks: Seq<MergedChunk>) -> Seq<ChunkView> {
    chunks.map_values(|c: MergedChunk| c.view_chunk())
}

/// A conflict side between two marker lines: absent if empty. In a conflict
/// whose last marker line ends without line break, the line break that precedes
/// each marker line is not part of the side.
pub open spec fn side_text(t: Seq<char>, a: int, b: int, with_newline: bool) -> Option<Seq<char>> {
    if a == b {
        None
    } else if with_newline {
        Some(t.subrange(a, b))
    } else if b - a >= 2 && t[b - 2] == '\r' {
        Some(t.subrange(a, b - 2))
    } else {
        Some(t.subrange(a, b - 1))
    }
}

/// The chunk describing the conflict found at the given marker lines
pub open spec fn conflict_chunk(t: Seq<char>, n: int, with_newline: bool, m: Bounds) -> ChunkView {
    ChunkView::Conflict {
        left: side_text(t, marker_line_end(t, m.0, MarkerKind::Left, n)->0, m.1, with_newline),
        base: side_text(t, marker_line_end(t, m.1, MarkerKind::Base, n)->0, m.2, with_newline),
        right: side_text(t, marker_line_end(t, m.2, MarkerKind::Middle, n)->0, m.3, with_newline),
        left_name: marker_line_name(t, m.0, n),
        base_name: marker_line_name(t, m.1, n),
        right_name: marker_line_name(t, m.3, n),
    }
}

/// The next conflict to consider: the first one whose last marker line ends with a line break,
/// or else the first one whose last marker line ends the line without its line break
pub open spec fn next_conflict(t: Seq<char>, n: int) -> Option<(Bounds, bool)> {
    match first_conflict(t, n, true) {
        Some(m) => Some((m, true)),
        None => match first_conflict(t, n, false) {
            Some(m) => Some((m, false)),
            None => None,
        },
    }
}

/// The chunks of a text (whose first byte is at byte position `offset` of the whole file),
/// or `None` if a diff2-style conflict is met where no diff3-style conflict is found
#[verifier::opaque]
pub open spec fn parse_spec(t: Seq<char>, n: int, offset: int) -> Option<Seq<ChunkView>>
    decreases t.len(),
{
    if t.len() == 0 {
        Some(Seq::empty())
    } else {
        match next_conflict(t, n) {
            Some((m, wn)) => {
                let end = marker_line_end(t, m.3, right_kind(wn), n)->0;
                if end <= 0 || end > t.len() {
                    None
                } else {
                    let prefix = if m.0 > 0 {
                        seq![ChunkView::Resolved { offset, contents: t.take(m.0) }]
                    } else {
                        Seq::empty()
                    };
                    match parse_spec(t.skip(end), n, offset + byte_len(t.take(end))) {
                        Some(rest) => Some(prefix + seq![conflict_chunk(t, n, wn, m)] + rest),
                        None => None,
                    }
                }
            },
            None => if has_diff2_conflict(t, n) {
                None
            } else {
                Some(seq![ChunkView::Resolved { offset, contents: t }])
            },
        }
    }
}

/// The first conflict is the one found by the search
proof fn lemma_first_conflict_is(t: Seq<char>, n: int, wn: bool, m: Bounds)
    requires
        is_first_conflict(t, n, wn, m),
    ensures
        first_conflict(t, n, wn) == Some(m),
{
    let c = choose|c: Bounds| is_first_conflict(t, n, wn, c);
    assert(lex_le(c, m) && lex_le(m, c));
}

/// Without any valid conflict, there is no first conflict
proof fn lemma_no_first_conflict(t: Seq<char>, n: int, wn: bool)
    requires
        forall|m: Bounds| !valid_conflict(t, n, wn, m),
    ensures
        first_conflict(t, n, wn) is None,
{
}


/// A correspondence between a section of a reconstructed revision and the merge output
#[derive(Debug, Clone, Copy, PartialEq, Eq, Structural)]
pub struct OffsetMap {
    /// The start of the section in the reconstructed revision
    pub rev_start: usize,
    /// The start of the section in the original merge output
    pub merged_start: usize,
    /// The common length of the section on both sides
    pub length: usize,
}

/// A file which potentially contains merge conflicts, parsed as such.
#[derive(Debug, Clone, PartialEq, Eq)]
pub struct ParsedMerge {
    /// The actual contents of the parsed merge
    pub chunks: Vec<MergedChunk>,
    /// List of correspondences between sections of the reconstructed left revision and the merge output
    pub left: Vec<OffsetMap>,
    /// List of correspondences between sections of the reconstructed right revision and the merge output
    pub right: Vec<OffsetMap>,
    /// List of correspondences between sections of the reconstructed base revision and the merge output
    pub base: Vec<OffsetMap>,
}

/// The side of a conflict that belongs to a revision (empty if absent)
pub open spec fn side_of(c: ChunkView, rev: Revision) -> Seq<char> {
    match c {
        ChunkView::Resolved { contents, .. } => contents,
        ChunkView::Conflict { left, base, right, .. } => {
            let side = match rev {
                Revision::Base => base,
                Revision::Left => left,
                Revision::Right => right,
            };
            match side {
                Some(s) => s,
                None => Seq::empty(),
            }
        },
    }
}

/// The text of a revision, reconstructed from the chunks: the merged parts together with
/// the sides of the conflicts that belong to the revision
pub open spec fn reconstructed(chunks: Seq<ChunkView>, rev: Revision) -> Seq<char>
    decreases chunks.len(),
{
    if chunks.len() == 0 {
        Seq::empty()
    } else {
        side_of(chunks[0], rev) + reconstructed(chunks.skip(1), rev)
    }
}

/// The correspondences of the merged chunks with a reconstructed revision,
/// whose text so far has length `rev_offset`
pub open spec fn offset_maps(chunks: Seq<ChunkView>, rev: Revision, rev_offset: int) -> Seq<(int, int, int)>
    decreases chunks.len(),
{
    if chunks.len() == 0 {
        Seq::empty()
    } else {
        let len = byte_len(side_of(chunks[0], rev)) as int;
        let rest = offset_maps(chunks.skip(1), rev, rev_offset + len);
        match chunks[0] {
            ChunkView::Resolved { offset, contents } => seq![(rev_offset, offset, len)] + rest,
            ChunkView::Conflict { .. } => rest,
        }
    }
}

/// The view of a list of offset maps
pub open spec fn maps_view(maps: Seq<OffsetMap>) -> Seq<(int, int, int)> {
    maps.map_values(|m: OffsetMap| (m.rev_start as int, m.merged_start as int, m.length as int))
}

/// Offset maps in increasing order, non-empty and not overlapping
pub open spec fn maps_sorted(maps: Seq<(int, int, int)>) -> bool {
    &&& forall|k: int| 0 <= k < maps.len() ==> #[trigger] maps[k].2 > 0
    &&& forall|k: int, l: int|
        0 <= k < l < maps.len() ==> #[trigger] maps[k].0 + maps[k].2 <= #[trigger] maps[l].0
}

impl ParsedMerge {
    /// The chunks, as mathematical values
    pub open spec fn chunk_views(self) -> Seq<ChunkView> {
        chunks_view(self.chunks@)
    }

    /// The offset maps of a revision
    pub open spec fn maps(self, rev: Revision) -> Seq<(int, int, int)> {
        match rev {
            Revision::Base => maps_view(self.base@),
            Revision::Left => maps_view(self.left@),
            Revision::Right => maps_view(self.right@),
        }
    }

    /// The positions in the merged file covered by the offset maps can be represented
    pub open spec fn maps_fit(self) -> bool {
        forall|r: Revision, k: int|
            0 <= k < self.maps(r).len() ==> #[trigger] self.maps(r)[k].1 + self.maps(r)[k].2 <= usize::MAX
    }

    /// The offset maps correspond to the chunks
    pub open spec fn maps_match_chunks(self) -> bool {
        &&& maps_view(self.left@) == offset_maps(self.chunk_views(), Revision::Left, 0)
        &&& maps_view(self.base@) == offset_maps(self.chunk_views(), Revision::Base, 0)
        &&& maps_view(self.right@) == offset_maps(self.chunk_views(), Revision::Right, 0)
    }

    /// Construct a parsed merge by indexing the provided chunks
    pub fn new(chunks: Vec<MergedChunk>) -> (res: Self)
        requires
            forall|r: Revision| #[trigger] byte_len(reconstructed(chunks_view(chunks@), r)) <= usize::MAX,
        ensures
            res.chunks@ == chunks@,
            res.maps_match_chunks(),
            (forall|k: int| 0 <= k < chunks@.len()
                ==> (#[trigger] chunks_view(chunks@)[k] matches ChunkView::Resolved { contents, .. } ==> contents.len() > 0))
                ==> forall|r: Revision| #[trigger] maps_sorted(res.maps(r)),
    {
        let mut left_offset: usize = 0;
        let mut base_offset: usize = 0;
        let mut right_offset: usize = 0;
        let mut left: Vec<OffsetMap> = Vec::new();
        let mut base: Vec<OffsetMap> = Vec::new();
        let mut right: Vec<OffsetMap> = Vec::new();
        let ghost cv = chunks_view(chunks@);
        let mut i: usize = 0;
        assert(cv.take(0) =~= Seq::<ChunkView>::empty());
        assert(cv.skip(0) =~= cv);
        assert(maps_view(left@) =~= Seq::<(int, int, int)>::empty());
        assert(maps_view(base@) =~= Seq::<(int, int, int)>::empty());
        assert(maps_view(right@) =~= Seq::<(int, int, int)>::empty());
        while i < chunks.len()
            invariant
                0 <= i <= chunks@.len(),
                cv == chunks_view(chunks@),
                forall|r: Revision| #[trigger] byte_len(reconstructed(cv, r)) <= usize::MAX,
                left_offset == byte_len(reconstructed(cv.take(i as int), Revision::Left)),
                base_offset == byte_len(reconstructed(cv.take(i as int), Revision::Base)),
                right_offset == byte_len(reconstructed(cv.take(i as int), Revision::Right)),
                maps_view(left@) + offset_maps(cv.skip(i as int), Revision::Left, left_offset as int) == offset_maps(cv, Revision::Left, 0),
                maps_view(base@) + offset_maps(cv.skip(i as int), Revision::Base, base_offset as int) == offset_maps(cv, Revision::Base, 0),
                maps_view(right@) + offset_maps(cv.skip(i as int), Revision::Right, right_offset as int) == offset_maps(cv, Revision::Right, 0),
            decreases chunks@.len() - i,
        {
            proof {
                lemma_reconstructed_take(cv, i as int, Revision::Left);
                lemma_reconstructed_take(cv, i as int, Revision::Base);
                lemma_reconstructed_take(cv, i as int, Revision::Right);
                lemma_reconstructed_prefix_len(cv, i + 1, Revision::Left);
                lemma_reconstructed_prefix_len(cv, i + 1, Revision::Base);
                lemma_reconstructed_prefix_len(cv, i + 1, Revision::Right);
                lemma_byte_len(reconstructed(cv.take(i as int), Revision::Left), side_of(cv[i as int], Revision::Left));
                lemma_byte_len(reconstructed(cv.take(i as int), Revision::Base), side_of(cv[i as int], Revision::Base));
                lemma_byte_len(reconstructed(cv.take(i as int), Revision::Right), side_of(cv[i as int], Revision::Right));
                assert(cv.skip(i as int).skip(1) =~= cv.skip(i + 1));
                assert(cv.skip(i as int)[0] == cv[i as int]);
            }
            match &chunks[i] {
                MergedChunk::Resolved { offset, contents } => {
                    let length = contents_len(contents);
                    let ghost ol = maps_view(left@);
                    let ghost ob = maps_view(base@);
                    let ghost or = maps_view(right@);
                    left.push(OffsetMap { rev_start: left_offset, merged_start: *offset, length });
                    base.push(OffsetMap { rev_start: base_offset, merged_start: *offset, length });
                    right.push(OffsetMap { rev_start: right_offset, merged_start: *offset, length });
                    proof {
                        assert(maps_view(left@) =~= ol.push((left_offset as int, *offset as int, length as int)));
                        assert(maps_view(base@) =~= ob.push((base_offset as int, *offset as int, length as int)));
                        assert(maps_view(right@) =~= or.push((right_offset as int, *offset as int, length as int)));
                    }
                    left_offset = left_offset + length;
                    base_offset = base_offset + length;
                    right_offset = right_offset + length;
                },
                MergedChunk::Conflict { left: l, base: b, right: r, .. } => {
                    left_offset = left_offset + opt_len(l);
                    base_offset = base_offset + opt_len(b);
                    right_offset = right_offset + opt_len(r);
                },
            }
            i = i + 1;
        }
        proof {
            assert(cv.skip(i as int) =~= Seq::<ChunkView>::empty());
            assert(maps_view(left@) + Seq::<(int, int, int)>::empty() =~= maps_view(left@));
            assert(maps_view(base@) + Seq::<(int, int, int)>::empty() =~= maps_view(base@));
            assert(maps_view(right@) + Seq::<(int, int, int)>::empty() =~= maps_view(right@));
            if forall|k: int| 0 <= k < cv.len() ==> (#[trigger] cv[k] matches ChunkView::Resolved { contents, .. } ==> contents.len() > 0) {
                lemma_offset_maps_sorted(cv, Revision::Left, 0);
                lemma_offset_maps_sorted(cv, Revision::Base, 0);
                lemma_offset_maps_sorted(cv, Revision::Right, 0);
            }
        }
        let res = ParsedMerge { chunks, left, right, base };
        proof {
            assert forall|r: Revision| #[trigger] maps_sorted(res.maps(r))
                == maps_sorted(offset_maps(cv, r, 0)) by {
                match r {
                    Revision::Left => {},
                    Revision::Base => {},
                    Revision::Right => {},
                }
            }
        }
        res
    }
}

impl ParsedMerge {
    /// Parse a file into a series of chunks.
    /// Fails if the conflict markers do not appear in a consistent order.
    #[verifier::spinoff_prover]
    #[verifier::rlimit(100)]
    pub fn parse(source: &str, settings: &DisplaySettings) -> (res: Result<Self, String>)
        ensures
            match res {
                Ok(pm) => parse_spec(source@, settings.marker_size() as int, 0) == Some(
                    chunks_view(pm.chunks@),
                ) && pm.maps_match_chunks() && pm.maps_fit() && (forall|r: Revision| #[trigger] maps_sorted(pm.maps(r)))
                    && conflict_mass_spec(chunks_view(pm.chunks@)) <= byte_len(source@),
                Err(e) => parse_spec(source@, settings.marker_size() as int, 0) is None && e@
                    == PARSED_MERGE_DIFF2_DETECTED@,
            },
    {
        let n = settings.conflict_marker_size_or_default();
        let ghost nn = n as int;
        let chars = to_chars(source);
        let len = chars.len();
        let mut pos: usize = 0;
        let total_bytes = str_byte_len(source);
        let mut byte_pos: usize = 0;
        proof {
            assert(source@.take(0) =~= Seq::<char>::empty());
            lemma_byte_len(Seq::<char>::empty(), Seq::<char>::empty());
            assert(Seq::<char>::empty() + Seq::<char>::empty() =~= Seq::<char>::empty());
        }
        let mut chunks: Vec<MergedChunk> = Vec::new();
        assert(source@.skip(0) =~= source@);
        assert(chunks_view(chunks@) + Seq::<ChunkView>::empty() =~= Seq::<ChunkView>::empty());
        while pos < len
            invariant
                chars@ == source@,
                len == chars@.len(),
                pos <= len,
                total_bytes == byte_len(source@),
                byte_pos == byte_len(source@.take(pos as int)),
                nn == n as int,
                nn == settings.marker_size(),
                parse_spec(source@, nn, 0) == match parse_spec(source@.skip(pos as int), nn, byte_pos as int) {
                    Some(rest) => Some(chunks_view(chunks@) + rest),
                    None => None::<Seq<ChunkView>>,
                },
            decreases len - pos,
        {
            let t = vec_of_range(&chars, pos, len);
            let ghost tt = t@;
            assert(tt =~= source@.skip(pos as int));
            let found = match find_conflict(&t, n, true) {
                Some(m) => {
                    proof {
                        lemma_first_conflict_is(tt, nn, true, (m.0 as int, m.1 as int, m.2 as int, m.3 as int));
                    }
                    Some((m, true))
                },
                None => {
                    proof {
                        lemma_no_first_conflict(tt, nn, true);
                    }
                    match find_conflict(&t, n, false) {
                        Some(m) => {
                            proof {
                                lemma_first_conflict_is(tt, nn, false, (m.0 as int, m.1 as int, m.2 as int, m.3 as int));
                            }
                            Some((m, false))
                        },
                        None => {
                            proof {
                                lemma_no_first_conflict(tt, nn, false);
                            }
                            None
                        },
                    }
                },
            };
            match found {
                None => {
                    assert(next_conflict(tt, nn) is None);
                    proof {
                        lemma_parse_step_none(tt, nn, byte_pos as int);
                    }
                    if find_diff2_conflict(&t, n) {
                        return Err(PARSED_MERGE_DIFF2_DETECTED.to_string());
                    }
                    let ghost before = chunks_view(chunks@);
                    let contents = string_of_range(&chars, pos, len);
                    chunks.push(MergedChunk::Resolved { offset: byte_pos, contents });
                    proof {
                        assert(chunks_view(chunks@) =~= before.push(ChunkView::Resolved { offset: byte_pos as int, contents: tt }));
                        assert(source@.skip(len as int) =~= Seq::<char>::empty());
                        assert(source@.take(len as int) =~= source@);
                        lemma_parse_empty(source@.skip(len as int), nn, byte_len(source@) as int);
                        assert(chunks_view(chunks@) + Seq::<ChunkView>::empty() =~= before + seq![ChunkView::Resolved { offset: byte_pos as int, contents: tt }]);
                    }
                    pos = len;
                    byte_pos = total_bytes;
                },
                Some(((p, b1, b2, b3), wn)) => {
                    let ghost m: Bounds = (p as int, b1 as int, b2 as int, b3 as int);
                    assert(next_conflict(tt, nn) == Some((m, wn)));
                    let (conflict, end) = conflict_at(&t, n, wn, p, b1, b2, b3);
                    proof {
                        lemma_parse_step(tt, nn, byte_pos as int, m, wn);
                    }
                    let ghost before = chunks_view(chunks@);
                    let ghost prefix = if p > 0 {
                        seq![ChunkView::Resolved { offset: byte_pos as int, contents: tt.take(p as int) }]
                    } else {
                        Seq::<ChunkView>::empty()
                    };
                    if p > 0 {
                        let contents = string_of_range(&t, 0, p);
                        chunks.push(MergedChunk::Resolved { offset: byte_pos, contents });
                        assert(tt.subrange(0, p as int) =~= tt.take(p as int));
                    }
                    assert(chunks_view(chunks@) =~= before + prefix);
                    let ghost mid = chunks_view(chunks@);
                    chunks.push(conflict);
                    proof {
                        assert(chunks_view(chunks@) =~= mid.push(conflict_chunk(tt, nn, wn, m)));
                        assert(tt.skip(end as int) =~= source@.skip(pos + end));
                    }
                    proof {
                        lemma_byte_step(source@, pos as int, end as int, tt);
                    }
                    let step = range_byte_len(&chars, pos, pos + end);
                    byte_pos = byte_pos + step;
                    pos = pos + end;
                    proof {
                        let rest = parse_spec(source@.skip(pos as int), nn, byte_pos as int);
                        match rest {
                            Some(r) => {
                                assert(before + prefix + seq![conflict_chunk(tt, nn, wn, m)] + r =~= chunks_view(chunks@) + r);
                            },
                            None => {},
                        }
                    }
                },
            }
        }
        proof {
            assert(source@.skip(len as int) =~= Seq::<char>::empty());
            lemma_parse_empty(source@.skip(len as int), nn, byte_pos as int);
            assert(chunks_view(chunks@) + Seq::<ChunkView>::empty() =~= chunks_view(chunks@));
            lemma_parse_spec_facts(source@, nn, 0);
            lemma_parse_spec_mass(source@, nn, 0);
        }
        let pm = ParsedMerge::new(chunks);
        proof {
            let cv = chunks_view(pm.chunks@);
            assert(parse_spec(source@, nn, 0) == Some(cv));
            assert forall|r: Revision| #[trigger] pm.maps(r) == offset_maps(cv, r, 0) by {
                match r {
                    Revision::Base => {},
                    Revision::Left => {},
                    Revision::Right => {},
                }
            }
            assert forall|r: Revision| #[trigger] maps_sorted(pm.maps(r)) by {
                lemma_offset_maps_sorted(cv, r, 0);
                assert(pm.maps(r) == offset_maps(cv, r, 0));
            }
            assert forall|r: Revision, k: int| 0 <= k < pm.maps(r).len() implies #[trigger] pm.maps(r)[k].1 + pm.maps(r)[k].2 <= usize::MAX by {
                lemma_offset_maps_entries(cv, r, 0);
                let om = offset_maps(cv, r, 0);
                assert(pm.maps(r) == om);
                assert(0 <= om[k].0);
                let j = choose|j: int| 0 <= j < cv.len() && #[trigger] map_from_chunk(cv[j], om[k]);
                if let ChunkView::Resolved { offset, contents } = cv[j] {
                    assert(offset + byte_len(contents) <= byte_len(source@));
                }
            }
        }
        Ok(pm)
    }
}

/// The number of conflicts among chunks
pub open spec fn count_conflicts(cs: Seq<ChunkView>) -> nat
    decreases cs.len(),
{
    if cs.len() == 0 {
        0
    } else {
        (if cs[0] is Conflict { 1nat } else { 0nat }) + count_conflicts(cs.skip(1))
    }
}

/// The number of conflicts of a concatenation of chunk lists is the sum of their numbers of
/// conflicts: `conflict_count` counts every conflict, wherever it stands.
pub proof fn law_conflict_count_is_additive(a: Seq<ChunkView>, b: Seq<ChunkView>)
    ensures
        count_conflicts(a + b) == count_conflicts(a) + count_conflicts(b),
    decreases a.len(),
{
    if a.len() == 0 {
        assert(a + b =~= b);
    } else {
        assert((a + b).skip(1) =~= a.skip(1) + b);
        assert((a + b)[0] == a[0]);
        law_conflict_count_is_additive(a.skip(1), b);
    }
}

/// `conflict_count` is the number of chunks that are conflicts.
pub proof fn law_conflict_count_counts_conflict_chunks(cs: Seq<ChunkView>)
    ensures
        count_conflicts(cs) == cs.filter(|c: ChunkView| c is Conflict).len(),
    decreases cs.len(),
{
    reveal_with_fuel(Seq::filter, 1);
    if cs.len() > 0 {
        let last = cs.last();
        law_conflict_count_counts_conflict_chunks(cs.drop_last());
        law_conflict_count_is_additive(cs.drop_last(), seq![last]);
        assert(cs.drop_last() + seq![last] =~= cs);
        assert(seq![last].skip(1) =~= Seq::<ChunkView>::empty());
        assert(count_conflicts(Seq::<ChunkView>::empty()) == 0);
        assert(count_conflicts(seq![last]) == if last is Conflict { 1nat } else { 0nat });
        let pred = |c: ChunkView| c is Conflict;
        assert(cs.filter(pred) == if pred(last) { cs.drop_last().filter(pred).push(last) } else { cs.drop_last().filter(pred) });
    }
}

/// The number of bytes of an optional text (0 if absent)
pub open spec fn opt_len_spec(s: Option<Seq<char>>) -> nat {
    match s {
        Some(s) => byte_len(s),
        None => 0,
    }
}

/// The number of bytes of conflicting content among chunks
pub open spec fn conflict_mass_spec(cs: Seq<ChunkView>) -> nat
    decreases cs.len(),
{
    if cs.len() == 0 {
        0
    } else {
        (match cs[0] {
            ChunkView::Resolved { .. } => 0nat,
            ChunkView::Conflict { left, base, right, .. } => opt_len_spec(base) + opt_len_spec(left)
                + opt_len_spec(right),
        }) + conflict_mass_spec(cs.skip(1))
    }
}

/// An optional text is absent or ends with a line break
pub open spec fn none_or_ends_with_newline(s: Option<Seq<char>>) -> bool {
    match s {
        Some(s) => s.len() > 0 && s.last() == '\n',
        None => true,
    }
}

/// An optional text, or nothing if absent
pub open spec fn or_empty(s: Option<Seq<char>>) -> Seq<char> {
    match s {
        Some(s) => s,
        None => Seq::empty(),
    }
}

/// No conflict of the list lacks all three sides
pub open spec fn conflicts_have_sides(cs: Seq<ChunkView>) -> bool {
    forall|k: int|
        0 <= k < cs.len() ==> (#[trigger] cs[k] matches ChunkView::Conflict { left, base, right, .. }
            ==> !(left is None && base is None && right is None))
}

/// The rendering of one chunk: resolved text as is, and conflicts between marker lines.
/// If one of the sides of the conflict does not end with a line break, a line break is added
/// after each side and none after the last marker line.
pub open spec fn render_chunk(c: ChunkView, settings: DisplaySettings) -> Seq<char> {
    match c {
        ChunkView::Resolved { contents, .. } => contents,
        ChunkView::Conflict { left, base, right, .. } => {
            let after_right = none_or_ends_with_newline(left) && none_or_ends_with_newline(base)
                && none_or_ends_with_newline(right);
            let after_lines: Seq<char> = if after_right { Seq::empty() } else { seq!['\n'] };
            let base_part = if settings.diff3 {
                settings.base_marker() + seq!['\n'] + or_empty(base) + after_lines
            } else {
                Seq::empty()
            };
            settings.left_marker() + seq!['\n'] + or_empty(left) + after_lines + base_part
                + settings.middle_marker() + seq!['\n'] + or_empty(right) + after_lines
                + settings.right_marker() + (if after_right { seq!['\n'] } else { Seq::empty() })
        },
    }
}

/// The rendering of a list of chunks
pub open spec fn rendered(cs: Seq<ChunkView>, settings: DisplaySettings) -> Seq<char>
    decreases cs.len(),
{
    if cs.len() == 0 {
        Seq::empty()
    } else {
        render_chunk(cs[0], settings) + rendered(cs.skip(1), settings)
    }
}

/// The position in the merged file of a range of a reconstructed revision, given the offset
/// maps of the revision: found when the range lies within one of the maps
pub open spec fn range_in_map(maps: Seq<(int, int, int)>, k: int, start: int, length: int) -> bool {
    0 <= k < maps.len() && maps[k].0 <= start && start + length <= maps[k].0 + maps[k].2
}

impl ParsedMerge {
    /// Reconstruct the source of a revision based on the merged output.
    ///
    /// Because some changes from both revisions have likely already been
    /// merged in the non-conflicting sections, this is not the original revision,
    /// but rather a half-merged version of it.
    pub fn reconstruct_revision(&self, revision: Revision) -> (res: String)
        ensures
            res@ == reconstructed(chunks_view(self.chunks@), revision),
    {
        let ghost cv = chunks_view(self.chunks@);
        let mut res = String::new();
        let mut i: usize = 0;
        assert(cv.skip(0) =~= cv);
        assert(res@ + reconstructed(cv, revision) =~= reconstructed(cv, revision));
        while i < self.chunks.len()
            invariant
                0 <= i <= self.chunks@.len(),
                cv == chunks_view(self.chunks@),
                res@ + reconstructed(cv.skip(i as int), revision) == reconstructed(cv, revision),
            decreases self.chunks@.len() - i,
        {
            let ghost before = res@;
            assert(cv.skip(i as int).skip(1) =~= cv.skip(i + 1));
            assert(cv.skip(i as int)[0] == self.chunks@[i as int].view_chunk());
            match &self.chunks[i] {
                MergedChunk::Resolved { contents, .. } => {
                    crate::text::push_str(&mut res, contents.as_str());
                },
                MergedChunk::Conflict { left, base, right, .. } => {
                    let side = match revision {
                        Revision::Base => base,
                        Revision::Left => left,
                        Revision::Right => right,
                    };
                    match side {
                        Some(s) => crate::text::push_str(&mut res, s.as_str()),
                        None => {
                            assert(res@ =~= before + Seq::<char>::empty());
                        },
                    }
                },
            }
            assert(res@ + reconstructed(cv.skip(i + 1), revision) =~= before + reconstructed(cv.skip(i as int), revision));
            i = i + 1;
        }
        assert(cv.skip(i as int) =~= Seq::<ChunkView>::empty());
        assert(res@ + Seq::<char>::empty() =~= res@);
        res
    }

    /// Number of conflicts in this merge
    pub fn conflict_count(&self) -> (res: usize)
        ensures
            res == count_conflicts(chunks_view(self.chunks@)),
    {
        let ghost cv = chunks_view(self.chunks@);
        let mut count: usize = 0;
        let mut i: usize = 0;
        assert(cv.skip(0) =~= cv);
        while i < self.chunks.len()
            invariant
                0 <= i <= self.chunks@.len(),
                cv == chunks_view(self.chunks@),
                count <= i,
                count + count_conflicts(cv.skip(i as int)) == count_conflicts(cv),
            decreases self.chunks@.len() - i,
        {
            assert(cv.skip(i as int).skip(1) =~= cv.skip(i + 1));
            assert(cv.skip(i as int)[0] == self.chunks@[i as int].view_chunk());
            match &self.chunks[i] {
                MergedChunk::Conflict { .. } => {
                    count = count + 1;
                },
                MergedChunk::Resolved { .. } => {},
            }
            i = i + 1;
        }
        assert(cv.skip(i as int) =~= Seq::<ChunkView>::empty());
        count
    }

    /// Number of bytes of conflicting content, which is an attempt
    /// at quantifying the effort it takes to resolve the conflicts.
    pub fn conflict_mass(&self) -> (res: usize)
        requires
            conflict_mass_spec(chunks_view(self.chunks@)) <= usize::MAX,
        ensures
            res == conflict_mass_spec(chunks_view(self.chunks@)),
    {
        let ghost cv = chunks_view(self.chunks@);
        let mut mass: usize = 0;
        let mut i: usize = 0;
        assert(cv.skip(0) =~= cv);
        while i < self.chunks.len()
            invariant
                0 <= i <= self.chunks@.len(),
                cv == chunks_view(self.chunks@),
                conflict_mass_spec(cv) <= usize::MAX,
                mass + conflict_mass_spec(cv.skip(i as int)) == conflict_mass_spec(cv),
            decreases self.chunks@.len() - i,
        {
            assert(cv.skip(i as int).skip(1) =~= cv.skip(i + 1));
            assert(cv.skip(i as int)[0] == self.chunks@[i as int].view_chunk());
            match &self.chunks[i] {
                MergedChunk::Conflict { left, base, right, .. } => {
                    mass = mass + opt_len(base) + opt_len(left) + opt_len(right);
                },
                MergedChunk::Resolved { .. } => {},
            }
            i = i + 1;
        }
        assert(cv.skip(i as int) =~= Seq::<ChunkView>::empty());
        mass
    }

    /// Render the parsed merge back to a string representation
    pub fn render(&self, settings: &DisplaySettings) -> (res: String)
        requires
            conflicts_have_sides(chunks_view(self.chunks@)),
        ensures
            res@ == rendered(chunks_view(self.chunks@), *settings),
    {
        let ghost cv = chunks_view(self.chunks@);
        let mut res = String::new();
        let mut i: usize = 0;
        assert(cv.skip(0) =~= cv);
        assert(res@ + rendered(cv, *settings) =~= rendered(cv, *settings));
        while i < self.chunks.len()
            invariant
                0 <= i <= self.chunks@.len(),
                cv == chunks_view(self.chunks@),
                res@ + rendered(cv.skip(i as int), *settings) == rendered(cv, *settings),
                conflicts_have_sides(cv),
            decreases self.chunks@.len() - i,
        {
            let ghost before = res@;
            assert(cv.skip(i as int).skip(1) =~= cv.skip(i + 1));
            assert(cv.skip(i as int)[0] == self.chunks@[i as int].view_chunk());
            assert(cv[i as int] == self.chunks@[i as int].view_chunk());
            render_chunk_into(&self.chunks[i], settings, &mut res);
            assert(res@ + rendered(cv.skip(i + 1), *settings) =~= before + rendered(cv.skip(i as int), *settings));
            i = i + 1;
        }
        assert(cv.skip(i as int) =~= Seq::<ChunkView>::empty());
        assert(res@ + Seq::<char>::empty() =~= res@);
        res
    }

    /// Find out at which index of the merged file a range in the reconstructed revision can be found.
    ///
    /// The returned index will only be returned if the entire range of the reconstructed
    /// revision lies in a fully merged part of the merged file (without overlapping any conflict).
    pub fn rev_range_to_merged_range(&self, range: &std::ops::Range<usize>, revision: Revision) -> (res: Option<std::ops::Range<usize>>)
        requires
            range.start <= range.end,
            self.maps_fit(),
        ensures
            match res {
                Some(r) => exists|k: int| #[trigger] range_in_map(self.maps(revision), k, range.start as int, range.end - range.start)
                    && r.start == self.maps(revision)[k].1 + range.start - self.maps(revision)[k].0
                    && r.end == r.start + (range.end - range.start),
                None => maps_sorted(self.maps(revision)) ==> forall|k: int| !#[trigger] range_in_map(self.maps(revision), k, range.start as int, range.end - range.start),
            },
    {
        let length = range.end - range.start;
        let start = range.start;
        let slice = match revision {
            Revision::Base => &self.base,
            Revision::Left => &self.left,
            Revision::Right => &self.right,
        };
        assert(maps_view(slice@) == self.maps(revision));
        assert(forall|k: int| 0 <= k < slice@.len() ==> #[trigger] maps_view(slice@)[k].1 + maps_view(slice@)[k].2 <= usize::MAX) by {
            assert forall|k: int| 0 <= k < slice@.len() implies #[trigger] maps_view(slice@)[k].1 + maps_view(slice@)[k].2 <= usize::MAX by {
                assert(self.maps(revision)[k].1 + self.maps(revision)[k].2 <= usize::MAX);
            }
        }
        match Self::binary_search(slice, start, length) {
            Some(s) => Some(std::ops::Range { start: s, end: s + length }),
            None => None,
        }
    }

    /// Looks for an offset map containing the range of given start and length,
    /// and returns where that range starts in the merged file
    pub fn binary_search(slice: &Vec<OffsetMap>, start: usize, length: usize) -> (res: Option<usize>)
        requires
            forall|k: int| 0 <= k < slice@.len() ==> #[trigger] maps_view(slice@)[k].1 + maps_view(slice@)[k].2 <= usize::MAX,
        ensures
            match res {
                Some(s) => s + length <= usize::MAX && exists|k: int| #[trigger] range_in_map(maps_view(slice@), k, start as int, length as int)
                    && s == maps_view(slice@)[k].1 + start - maps_view(slice@)[k].0,
                None => maps_sorted(maps_view(slice@)) ==> forall|k: int| !#[trigger] range_in_map(maps_view(slice@), k, start as int, length as int),
            },
    {
        let ghost mv = maps_view(slice@);
        let mut left: usize = 0;
        let mut right: usize = slice.len();
        while left < right
            invariant
                left <= right <= slice@.len(),
                mv == maps_view(slice@),
                forall|k: int| 0 <= k < slice@.len() ==> #[trigger] mv[k].1 + mv[k].2 <= usize::MAX,
                maps_sorted(mv) ==> forall|k: int| #[trigger] range_in_map(mv, k, start as int, length as int) ==> left <= k < right,
            decreases right - left,
        {
            let guess = left + (right - left) / 2;
            let offset = slice[guess];
            assert(mv[guess as int] == (offset.rev_start as int, offset.merged_start as int, offset.length as int));
            if offset.rev_start <= start && (start as u128) + (length as u128) <= (offset.rev_start as u128) + (offset.length as u128) {
                assert(range_in_map(mv, guess as int, start as int, length as int));
                let delta = start - offset.rev_start;
                assert(mv[guess as int].1 + mv[guess as int].2 <= usize::MAX);
                return Some(offset.merged_start + delta);
            } else if left + 1 == right {
                proof {
                    if maps_sorted(mv) {
                        assert forall|k: int| !#[trigger] range_in_map(mv, k, start as int, length as int) by {
                            if range_in_map(mv, k, start as int, length as int) {
                                assert(k == guess);
                            }
                        }
                    }
                }
                return None;
            }
            let ghost old_left = left;
            let ghost old_right = right;
            if offset.rev_start <= start {
                left = guess;
            }
            if offset.rev_start >= start {
                right = guess;
            }
            proof {
                if maps_sorted(mv) {
                    assert forall|k: int| #[trigger] range_in_map(mv, k, start as int, length as int) implies left <= k < right by {
                        if k < guess {
                            assert(mv[k].0 + mv[k].2 <= mv[guess as int].0);
                            assert(mv[k].2 > 0);
                        }
                        if k > guess {
                            assert(mv[guess as int].0 + mv[guess as int].2 <= mv[k].0);
                            assert(mv[guess as int].2 > 0);
                        }
                    }
                }
            }
        }
        None
    }

    /// Does every conflict have at least one side (so that it can be rendered)?
    pub fn all_conflicts_have_sides(&self) -> (res: bool)
        ensures
            res == conflicts_have_sides(chunks_view(self.chunks@)),
    {
        let ghost cv = chunks_view(self.chunks@);
        let mut i: usize = 0;
        while i < self.chunks.len()
            invariant
                0 <= i <= self.chunks@.len(),
                cv == chunks_view(self.chunks@),
                forall|k: int| 0 <= k < i ==> (#[trigger] cv[k] matches ChunkView::Conflict { left, base, right, .. } ==> !(left is None && base is None && right is None)),
            decreases self.chunks@.len() - i,
        {
            assert(cv[i as int] == self.chunks@[i as int].view_chunk());
            match &self.chunks[i] {
                MergedChunk::Conflict { left: None, base: None, right: None, .. } => {
                    return false;
                },
                _ => {},
            }
            i = i + 1;
        }
        true
    }

    /// The merge result obtained by rendering this parsed merge
    pub fn into_merge_result(self, settings: &DisplaySettings) -> (res: crate::merge_result::MergeResult)
        requires
            conflicts_have_sides(chunks_view(self.chunks@)),
            conflict_mass_spec(chunks_view(self.chunks@)) <= usize::MAX,
        ensures
            res.contents@ == rendered(chunks_view(self.chunks@), *settings),
            res.conflict_count == count_conflicts(chunks_view(self.chunks@)),
            res.conflict_mass == conflict_mass_spec(chunks_view(self.chunks@)),
            res.method@ == crate::line_based::LINE_BASED_METHOD@,
            !res.has_additional_issues,
    {
        crate::merge_result::MergeResult {
            contents: self.render(settings),
            conflict_count: self.conflict_count(),
            conflict_mass: self.conflict_mass(),
            method: crate::line_based::LINE_BASED_METHOD,
            has_additional_issues: false,
        }
    }
}

/// Appends the rendering of a chunk
#[verifier::rlimit(100)]
#[verifier::spinoff_prover]
fn render_chunk_into(chunk: &MergedChunk, settings: &DisplaySettings, res: &mut String)
    requires
        !(chunk.view_chunk() matches ChunkView::Conflict { left, base, right, .. } && left is None && base is None && right is None),
    ensures
        final(res)@ == old(res)@ + render_chunk(chunk.view_chunk(), *settings),
{
    match chunk {
        MergedChunk::Resolved { contents, .. } => {
            crate::text::push_str(res, contents.as_str());
        },
        MergedChunk::Conflict { left, base, right, .. } => {
            let add_after_right_marker = opt_ends_with_newline(left) && opt_ends_with_newline(base)
                && opt_ends_with_newline(right);
            let add_after_lines = !add_after_right_marker;
            let ghost v = chunk.view_chunk();
            let ghost after_lines: Seq<char> = if add_after_right_marker { Seq::empty() } else { seq!['\n'] };
            let ghost start = res@;
            push_conflict_part(res, &settings.left_marker_or_default(), left, add_after_lines);
            let ghost after_left = res@;
            if settings.diff3 {
                push_conflict_part(res, &settings.base_marker_or_default(), base, add_after_lines);
            }
            let ghost base_part = if settings.diff3 {
                settings.base_marker() + seq!['\n'] + or_empty(opt_view(*base)) + after_lines
            } else {
                Seq::<char>::empty()
            };
            assert(res@ =~= after_left + base_part);
            let ghost after_base = res@;
            push_conflict_part(res, &settings.middle_marker_or_default(), right, add_after_lines);
            let ghost after_right = res@;
            crate::text::push_str(res, settings.right_marker_or_default().as_str());
            if add_after_right_marker {
                crate::text::push_char(res, '\n');
            }
            let ghost tail: Seq<char> = if add_after_right_marker { seq!['\n'] } else { Seq::empty() };
            assert(res@ =~= after_right + settings.right_marker() + tail);
            assert(render_chunk(v, *settings) == settings.left_marker() + seq!['\n'] + or_empty(opt_view(*left)) + after_lines + base_part
                + settings.middle_marker() + seq!['\n'] + or_empty(opt_view(*right)) + after_lines
                + settings.right_marker() + tail);
            assert(res@ =~= start + render_chunk(v, *settings));
        },
    }
}

/// Appends a marker line, then a conflict side, then a line break if requested
fn push_conflict_part(res: &mut String, marker: &String, side: &Option<String>, add_newline: bool)
    ensures
        final(res)@ == old(res)@ + marker@ + seq!['\n'] + or_empty(opt_view(*side)) + (if add_newline { seq!['\n'] } else { Seq::<char>::empty() }),
{
    let ghost start = res@;
    crate::text::push_str(res, marker.as_str());
    crate::text::push_char(res, '\n');
    push_opt(res, side);
    if add_newline {
        crate::text::push_char(res, '\n');
    }
    assert(res@ =~= start + marker@ + seq!['\n'] + or_empty(opt_view(*side)) + (if add_newline { seq!['\n'] } else { Seq::<char>::empty() }));
}

/// Appends an optional string (nothing if absent)
fn push_opt(res: &mut String, s: &Option<String>)
    ensures
        final(res)@ == old(res)@ + or_empty(opt_view(*s)),
{
    match s {
        Some(s) => crate::text::push_str(res, s.as_str()),
        None => {
            assert(old(res)@ + Seq::<char>::empty() =~= old(res)@);
        },
    }
}

/// Is an optional string absent or ending with a line break?
fn opt_ends_with_newline(s: &Option<String>) -> (res: bool)
    ensures
        res == none_or_ends_with_newline(opt_view(*s)),
{
    match s {
        Some(s) => crate::text::str_ends_with_char(s.as_str(), '\n'),
        None => true,
    }
}

/// One step of parsing a text that starts with or contains a conflict
proof fn lemma_parse_step(t: Seq<char>, n: int, off: int, m: Bounds, wn: bool)
    requires
        0 <= n,
        t.len() > 0,
        next_conflict(t, n) == Some((m, wn)),
    ensures
        valid_conflict(t, n, wn, m),
        ({
            let end = marker_line_end(t, m.3, right_kind(wn), n)->0;
            let prefix = if m.0 > 0 {
                seq![ChunkView::Resolved { offset: off, contents: t.take(m.0) }]
            } else {
                Seq::<ChunkView>::empty()
            };
            &&& 0 < end <= t.len()
            &&& parse_spec(t, n, off) == match parse_spec(t.skip(end), n, off + byte_len(t.take(end))) {
                Some(rest) => Some(prefix + seq![conflict_chunk(t, n, wn, m)] + rest),
                None => None::<Seq<ChunkView>>,
            }
        }),
{
    reveal(parse_spec);
    assert(is_first_conflict(t, n, wn, m));
    crate::conflict_markers::lemma_line_end_bounds(t, m.0, MarkerKind::Left, n);
    crate::conflict_markers::lemma_line_end_bounds(t, m.3, right_kind(wn), n);
}

/// Parsing a text without any conflict
proof fn lemma_parse_step_none(t: Seq<char>, n: int, off: int)
    requires
        t.len() > 0,
        next_conflict(t, n) is None,
    ensures
        parse_spec(t, n, off) == if has_diff2_conflict(t, n) {
            None
        } else {
            Some(seq![ChunkView::Resolved { offset: off, contents: t }])
        },
{
    reveal(parse_spec);
}

/// Parsing an empty text
proof fn lemma_parse_empty(t: Seq<char>, n: int, off: int)
    requires
        t.len() == 0,
    ensures
        parse_spec(t, n, off) == Some(Seq::<ChunkView>::empty()),
{
    reveal(parse_spec);
}

/// The conflict chunk found at the given marker lines, and the position where it ends
fn conflict_at(t: &Vec<char>, n: usize, wn: bool, p: usize, b1: usize, b2: usize, b3: usize) -> (res: (MergedChunk, usize))
    requires
        valid_conflict(t@, n as int, wn, (p as int, b1 as int, b2 as int, b3 as int)),
    ensures
        res.0.view_chunk() == conflict_chunk(t@, n as int, wn, (p as int, b1 as int, b2 as int, b3 as int)),
        marker_line_end(t@, b3 as int, right_kind(wn), n as int) == Some(res.1 as int),
{
    let ghost tt = t@;
    let ghost nn = n as int;
    let rk = if wn { MarkerKind::Right } else { MarkerKind::RightAtEnd };
    assert(rk == right_kind(wn));
    proof {
        crate::conflict_markers::lemma_line_end_bounds(tt, b3 as int, rk, nn);
        crate::conflict_markers::lemma_line_end_bounds(tt, p as int, MarkerKind::Left, nn);
        crate::conflict_markers::lemma_line_end_bounds(tt, b1 as int, MarkerKind::Base, nn);
        crate::conflict_markers::lemma_line_end_bounds(tt, b2 as int, MarkerKind::Middle, nn);
    }
    let end = match marker_line_end_at(t, b3, rk, n) {
        Some(e) => e,
        None => {
            assert(false);
            0
        },
    };
    let a1 = match marker_line_end_at(t, p, MarkerKind::Left, n) {
        Some(e) => e,
        None => {
            assert(false);
            0
        },
    };
    let a2 = match marker_line_end_at(t, b1, MarkerKind::Base, n) {
        Some(e) => e,
        None => {
            assert(false);
            0
        },
    };
    let a3 = match marker_line_end_at(t, b2, MarkerKind::Middle, n) {
        Some(e) => e,
        None => {
            assert(false);
            0
        },
    };
    let left = side_at(t, a1, b1, wn);
    let base = side_at(t, a2, b2, wn);
    let right = side_at(t, a3, b3, wn);
    let left_name = name_at(t, p, n);
    let base_name = name_at(t, b1, n);
    let right_name = name_at(t, b3, n);
    (MergedChunk::Conflict { left, base, right, left_name, base_name, right_name }, end)
}

/// The side of a conflict between two positions of the text
fn side_at(t: &Vec<char>, a: usize, b: usize, with_newline: bool) -> (res: Option<String>)
    requires
        a <= b <= t@.len(),
    ensures
        opt_view(res) == side_text(t@, a as int, b as int, with_newline),
{
    if a == b {
        None
    } else if with_newline {
        Some(string_of_range(t, a, b))
    } else if b - a >= 2 && t[b - 2] == '\r' {
        Some(string_of_range(t, a, b - 2))
    } else {
        Some(string_of_range(t, a, b - 1))
    }
}

/// The revision name written on a marker line starting at `i`
fn name_at(t: &Vec<char>, i: usize, n: usize) -> (res: Option<String>)
    requires
        i + n <= t@.len(),
    ensures
        opt_view(res) == marker_line_name(t@, i as int, n as int),
{
    match marker_line_name_at(t, i, n) {
        Some((a, b)) => Some(string_of_range(t, a, b)),
        None => None,
    }
}

/// The texts of the revisions reconstructed from concatenated lists of chunks are concatenated
proof fn lemma_reconstructed_concat(a: Seq<ChunkView>, b: Seq<ChunkView>, rev: Revision)
    ensures
        reconstructed(a + b, rev) == reconstructed(a, rev) + reconstructed(b, rev),
    decreases a.len(),
{
    if a.len() == 0 {
        assert(a + b =~= b);
        assert(Seq::<char>::empty() + reconstructed(b, rev) =~= reconstructed(b, rev));
    } else {
        lemma_reconstructed_concat(a.skip(1), b, rev);
        assert((a + b).skip(1) =~= a.skip(1) + b);
        assert((a + b)[0] == a[0]);
        assert(reconstructed(a + b, rev) =~= reconstructed(a, rev) + reconstructed(b, rev));
    }
}

/// A resolved chunk holds the text found at its offset in the whole file
pub open spec fn resolved_chunk_in(c: ChunkView, source: Seq<char>) -> bool {
    c matches ChunkView::Resolved { offset, contents } ==> 0 <= offset && offset + byte_len(contents)
        <= byte_len(source) && encode_utf8(contents) == encode_utf8(source).subrange(offset, offset + byte_len(contents))
}

/// The reconstructed revisions of chunks are no longer than the text they were parsed from
/// (which starts at `off` in the file), and resolved chunks hold the text at their offset
pub open spec fn chunk_facts(cs: Seq<ChunkView>, t: Seq<char>, off: int) -> bool {
    &&& forall|r: Revision| #[trigger] byte_len(reconstructed(cs, r)) <= byte_len(t)
    &&& forall|k: int| 0 <= k < cs.len() ==> (#[trigger] cs[k] matches ChunkView::Resolved { offset, contents } ==> off <= offset
        && offset + byte_len(contents) <= off + byte_len(t)
        && encode_utf8(contents) == encode_utf8(t).subrange(offset - off, offset - off + byte_len(contents)))
}

/// Advancing over part of the text advances the byte position by the bytes of that part
proof fn lemma_byte_step(src: Seq<char>, pos: int, end: int, tt: Seq<char>)
    requires
        0 <= pos,
        0 <= end,
        pos + end <= src.len(),
        tt == src.skip(pos),
    ensures
        byte_len(src.take(pos + end)) == byte_len(src.take(pos)) + byte_len(tt.take(end)),
        byte_len(src.take(pos + end)) <= byte_len(src),
        tt.take(end) == src.subrange(pos, pos + end),
{
    assert(tt.take(end) =~= src.subrange(pos, pos + end));
    lemma_encode_subrange(src, pos, pos + end);
}

/// A side of a conflict takes no more bytes than the text between its marker lines
proof fn lemma_side_text_bytes(t: Seq<char>, a: int, b: int, wn: bool)
    requires
        0 <= a <= b <= t.len(),
    ensures
        opt_len_spec(side_text(t, a, b, wn)) <= byte_len(t.subrange(a, b)),
{
    if a != b && !wn {
        if b - a >= 2 && t[b - 2] == '\r' {
            lemma_byte_len_within(t, a, b - 2, a, b);
        } else {
            lemma_byte_len_within(t, a, b - 1, a, b);
        }
    }
}

/// The bytes of the sides of a conflict, alone or together, are no more than those of the
/// text the conflict spans
proof fn lemma_conflict_bytes(t: Seq<char>, n: int, wn: bool, m: Bounds, end: int)
    requires
        0 <= n,
        is_first_conflict(t, n, wn, m),
        end == marker_line_end(t, m.3, right_kind(wn), n)->0,
        0 < end <= t.len(),
    ensures
        ({
            let cc = conflict_chunk(t, n, wn, m);
            &&& 0 <= m.0 <= end
            &&& forall|r: Revision| #[trigger] byte_len(side_of(cc, r)) <= byte_len(t.subrange(m.0, end))
            &&& cc matches ChunkView::Conflict { left, base, right, .. } && opt_len_spec(base) + opt_len_spec(left)
                + opt_len_spec(right) <= byte_len(t.subrange(m.0, end))
        }),
{
    crate::conflict_markers::lemma_line_end_bounds(t, m.0, MarkerKind::Left, n);
    crate::conflict_markers::lemma_line_end_bounds(t, m.1, MarkerKind::Base, n);
    crate::conflict_markers::lemma_line_end_bounds(t, m.2, MarkerKind::Middle, n);
    crate::conflict_markers::lemma_line_end_bounds(t, m.3, right_kind(wn), n);
    let e0 = marker_line_end(t, m.0, MarkerKind::Left, n)->0;
    let e1 = marker_line_end(t, m.1, MarkerKind::Base, n)->0;
    let e2 = marker_line_end(t, m.2, MarkerKind::Middle, n)->0;
    assert(0 <= m.0 <= e0 <= m.1 <= e1 <= m.2 <= e2 <= m.3 <= end <= t.len());
    lemma_side_text_bytes(t, e0, m.1, wn);
    lemma_side_text_bytes(t, e1, m.2, wn);
    lemma_side_text_bytes(t, e2, m.3, wn);
    lemma_byte_len_within(t, e0, m.1, m.0, end);
    lemma_byte_len_within(t, e1, m.2, m.0, end);
    lemma_byte_len_within(t, e2, m.3, m.0, end);
    lemma_encode_split(t, e0, m.1, m.3);
    lemma_encode_split(t, m.1, e1, m.3);
    lemma_encode_split(t, e1, m.2, m.3);
    lemma_encode_split(t, m.2, e2, m.3);
    lemma_byte_len_within(t, e0, m.3, m.0, end);
    let cc = conflict_chunk(t, n, wn, m);
    assert forall|r: Revision| #[trigger] byte_len(side_of(cc, r)) <= byte_len(t.subrange(m.0, end)) by {
        lemma_byte_len(Seq::<char>::empty(), Seq::<char>::empty());
        assert(Seq::<char>::empty() + Seq::<char>::empty() =~= Seq::<char>::empty());
    }
}

/// The facts of `lemma_parse_spec_facts` for a text starting with a conflict, from those of the rest
#[verifier::spinoff_prover]
#[verifier::rlimit(60)]
proof fn lemma_parse_spec_facts_conflict(t: Seq<char>, n: int, off: int, m: Bounds, wn: bool, end: int, rest: Seq<ChunkView>)
    requires
        0 <= n,
        0 <= off,
        t.len() > 0,
        is_first_conflict(t, n, wn, m),
        end == marker_line_end(t, m.3, right_kind(wn), n)->0,
        0 < end <= t.len(),
        chunk_facts(rest, t.skip(end), off + byte_len(t.take(end))),
    ensures
        chunk_facts(
            (if m.0 > 0 {
                seq![ChunkView::Resolved { offset: off, contents: t.take(m.0) }]
            } else {
                Seq::<ChunkView>::empty()
            }) + seq![conflict_chunk(t, n, wn, m)] + rest,
            t,
            off,
        ),
{
    lemma_conflict_bytes(t, n, wn, m, end);
    let prefix = if m.0 > 0 {
        seq![ChunkView::Resolved { offset: off, contents: t.take(m.0) }]
    } else {
        Seq::<ChunkView>::empty()
    };
    let cc = conflict_chunk(t, n, wn, m);
    let cs = prefix + seq![cc] + rest;
    let big_b = byte_len(t.take(end));
    // the text splits into what comes before the conflict, the conflict and the rest
    assert(t.take(m.0) =~= t.subrange(0, m.0));
    assert(t.take(end) =~= t.subrange(0, end));
    assert(t.skip(end) =~= t.subrange(end, t.len() as int));
    assert(t =~= t.subrange(0, t.len() as int));
    lemma_encode_split(t, 0, m.0, end);
    lemma_encode_split(t, 0, end, t.len() as int);
    assert forall|r: Revision| #[trigger] byte_len(reconstructed(cs, r)) <= byte_len(t) by {
        lemma_reconstructed_concat(prefix + seq![cc], rest, r);
        lemma_reconstructed_concat(prefix, seq![cc], r);
        assert(reconstructed(seq![cc], r) =~= side_of(cc, r) + reconstructed(seq![cc].skip(1), r));
        assert(seq![cc].skip(1) =~= Seq::<ChunkView>::empty());
        let rp = reconstructed(prefix, r);
        if m.0 > 0 {
            assert(reconstructed(prefix, r) =~= t.take(m.0) + reconstructed(prefix.skip(1), r));
            assert(prefix.skip(1) =~= Seq::<ChunkView>::empty());
            assert(rp =~= t.take(m.0));
        } else {
            assert(rp =~= Seq::<char>::empty());
            assert(t.take(m.0) =~= Seq::<char>::empty());
        }
        assert(side_of(cc, r) + Seq::<char>::empty() =~= side_of(cc, r));
        lemma_byte_len(rp, side_of(cc, r));
        lemma_byte_len(rp + side_of(cc, r), reconstructed(rest, r));
        assert(byte_len(side_of(cc, r)) <= byte_len(t.subrange(m.0, end)));
        assert(byte_len(reconstructed(rest, r)) <= byte_len(t.skip(end)));
    }
    assert forall|k: int| 0 <= k < cs.len() implies (#[trigger] cs[k] matches ChunkView::Resolved { offset, contents } ==> off <= offset
        && offset + byte_len(contents) <= off + byte_len(t)
        && encode_utf8(contents) == encode_utf8(t).subrange(offset - off, offset - off + byte_len(contents))) by {
        if k < prefix.len() {
            assert(cs[k] == prefix[k]);
            lemma_encode_subrange(t, 0, m.0);
            assert(t.take(0) =~= Seq::<char>::empty());
            lemma_byte_len(Seq::<char>::empty(), Seq::<char>::empty());
            assert(Seq::<char>::empty() + Seq::<char>::empty() =~= Seq::<char>::empty());
            assert(t.subrange(0, m.0) =~= t.take(m.0));
        } else if k == prefix.len() {
            assert(cs[k] == cc);
        } else {
            let j = k - prefix.len() - 1;
            assert(cs[k] == rest[j]);
            if let ChunkView::Resolved { offset, contents } = rest[j] {
                let et = encode_utf8(t);
                assert(et == encode_utf8(t.take(end)) + encode_utf8(t.skip(end)));
                assert(encode_utf8(t.skip(end)).subrange(offset - off - big_b, offset - off - big_b + byte_len(contents))
                    =~= et.subrange(offset - off, offset - off + byte_len(contents)));
            }
        }
    }
}

/// Facts on the chunks of a text starting at position `off` of a file
#[verifier::rlimit(60)]
pub proof fn lemma_parse_spec_facts(t: Seq<char>, n: int, off: int)
    requires
        0 <= n,
        0 <= off,
    ensures
        parse_spec(t, n, off) matches Some(cs) ==> chunk_facts(cs, t, off),
    decreases t.len(),
{
    reveal(parse_spec);
    if t.len() == 0 {
        return;
    }
    match next_conflict(t, n) {
        Some((m, wn)) => {
            let end = marker_line_end(t, m.3, right_kind(wn), n)->0;
            if end <= 0 || end > t.len() {
                return;
            }
            assert(is_first_conflict(t, n, wn, m));
            crate::conflict_markers::lemma_line_end_bounds(t, m.0, MarkerKind::Left, n);
            crate::conflict_markers::lemma_line_end_bounds(t, m.1, MarkerKind::Base, n);
            crate::conflict_markers::lemma_line_end_bounds(t, m.2, MarkerKind::Middle, n);
            crate::conflict_markers::lemma_line_end_bounds(t, m.3, right_kind(wn), n);
            lemma_parse_spec_facts(t.skip(end), n, off + byte_len(t.take(end)));
            match parse_spec(t.skip(end), n, off + byte_len(t.take(end))) {
                Some(rest) => {
                    lemma_parse_spec_facts_conflict(t, n, off, m, wn, end, rest);
                    let prefix = if m.0 > 0 {
                        seq![ChunkView::Resolved { offset: off, contents: t.take(m.0) }]
                    } else {
                        Seq::<ChunkView>::empty()
                    };
                    assert(parse_spec(t, n, off) == Some(prefix + seq![conflict_chunk(t, n, wn, m)] + rest));
                },
                None => {},
            }
        },
        None => {
            if !has_diff2_conflict(t, n) {
                let cs = seq![ChunkView::Resolved { offset: off, contents: t }];
                assert forall|r: Revision| #[trigger] byte_len(reconstructed(cs, r)) <= byte_len(t) by {
                    assert(reconstructed(cs, r) =~= t + reconstructed(cs.skip(1), r));
                    assert(cs.skip(1) =~= Seq::<ChunkView>::empty());
                    assert(t + Seq::<char>::empty() =~= t);
                }
                assert(encode_utf8(t).subrange(0, byte_len(t) as int) =~= encode_utf8(t));
            }
        },
    }
}

proof fn lemma_mass_concat(a: Seq<ChunkView>, b: Seq<ChunkView>)
    ensures
        conflict_mass_spec(a + b) == conflict_mass_spec(a) + conflict_mass_spec(b),
    decreases a.len(),
{
    if a.len() == 0 {
        assert(a + b =~= b);
    } else {
        lemma_mass_concat(a.skip(1), b);
        assert((a + b).skip(1) =~= a.skip(1) + b);
        assert((a + b)[0] == a[0]);
    }
}

proof fn lemma_mass_single(c: ChunkView)
    ensures
        conflict_mass_spec(seq![c]) == match c {
            ChunkView::Resolved { .. } => 0nat,
            ChunkView::Conflict { left, base, right, .. } => opt_len_spec(base) + opt_len_spec(left)
                + opt_len_spec(right),
        },
{
    reveal_with_fuel(conflict_mass_spec, 2);
    assert(seq![c].skip(1) =~= Seq::<ChunkView>::empty());
    assert(seq![c][0] == c);
}

/// The conflicting content of the chunks of a text is no longer than the text, and its
/// merged chunks are not empty
#[verifier::spinoff_prover]
#[verifier::rlimit(60)]
pub proof fn lemma_parse_spec_mass(t: Seq<char>, n: int, off: int)
    requires
        0 <= n,
    ensures
        parse_spec(t, n, off) matches Some(cs) ==> {
            &&& conflict_mass_spec(cs) <= byte_len(t)
            &&& forall|k: int| 0 <= k < cs.len() ==> (#[trigger] cs[k] matches ChunkView::Resolved { contents, .. } ==> contents.len() > 0)
        },
    decreases t.len(),
{
    reveal(parse_spec);
    if t.len() == 0 {
        return;
    }
    match next_conflict(t, n) {
        Some((m, wn)) => {
            let end = marker_line_end(t, m.3, right_kind(wn), n)->0;
            if end <= 0 || end > t.len() {
                return;
            }
            assert(is_first_conflict(t, n, wn, m));
            crate::conflict_markers::lemma_line_end_bounds(t, m.0, MarkerKind::Left, n);
            crate::conflict_markers::lemma_line_end_bounds(t, m.1, MarkerKind::Base, n);
            crate::conflict_markers::lemma_line_end_bounds(t, m.2, MarkerKind::Middle, n);
            crate::conflict_markers::lemma_line_end_bounds(t, m.3, right_kind(wn), n);
            lemma_parse_spec_mass(t.skip(end), n, off + byte_len(t.take(end)));
            let prefix = if m.0 > 0 {
                seq![ChunkView::Resolved { offset: off, contents: t.take(m.0) }]
            } else {
                Seq::<ChunkView>::empty()
            };
            let cc = conflict_chunk(t, n, wn, m);
            match parse_spec(t.skip(end), n, off + byte_len(t.take(end))) {
                Some(rest) => {
                    let cs = prefix + seq![cc] + rest;
                    lemma_conflict_bytes(t, n, wn, m, end);
                    assert(t.skip(end) =~= t.subrange(end, t.len() as int));
                    assert(t =~= t.subrange(0, t.len() as int));
                    lemma_byte_len_within(t, m.0, end, 0, end);
                    lemma_encode_split(t, 0, end, t.len() as int);
                    lemma_mass_concat(prefix + seq![cc], rest);
                    lemma_mass_concat(prefix, seq![cc]);
                    lemma_mass_single(cc);
                    if m.0 > 0 {
                        lemma_mass_single(prefix[0]);
                        assert(prefix =~= seq![prefix[0]]);
                    } else {
                        assert(conflict_mass_spec(prefix) == 0);
                    }
                    assert forall|k: int| 0 <= k < cs.len() implies (#[trigger] cs[k] matches ChunkView::Resolved { contents, .. } ==> contents.len() > 0) by {
                        if k < prefix.len() {
                            assert(cs[k] == prefix[k]);
                        } else if k == prefix.len() {
                            assert(cs[k] == cc);
                        } else {
                            assert(cs[k] == rest[k - prefix.len() - 1]);
                        }
                    }
                },
                None => {},
            }
        },
        None => {
            if !has_diff2_conflict(t, n) {
                lemma_mass_single(ChunkView::Resolved { offset: off, contents: t });
            }
        },
    }
}

/// The offset map `e` comes from the merged chunk `c`
pub open spec fn map_from_chunk(c: ChunkView, e: (int, int, int)) -> bool {
    match c {
        ChunkView::Resolved { offset, contents } => offset == e.1 && byte_len(contents) == e.2,
        ChunkView::Conflict { .. } => false,
    }
}

/// Each offset map comes from a merged chunk, and starts no earlier than the given offset
proof fn lemma_offset_maps_entries(cs: Seq<ChunkView>, rev: Revision, off: int)
    ensures
        forall|i: int| 0 <= i < offset_maps(cs, rev, off).len() ==> off <= #[trigger] offset_maps(cs, rev, off)[i].0 && exists|k: int| 0 <= k < cs.len() && #[trigger] map_from_chunk(cs[k], offset_maps(cs, rev, off)[i]),
    decreases cs.len(),
{
    if cs.len() > 0 {
        let len = byte_len(side_of(cs[0], rev)) as int;
        lemma_offset_maps_entries(cs.skip(1), rev, off + len);
        let om = offset_maps(cs, rev, off);
        let rest = offset_maps(cs.skip(1), rev, off + len);
        assert forall|i: int| 0 <= i < om.len() implies off <= #[trigger] om[i].0 && exists|k: int| 0 <= k < cs.len() && #[trigger] map_from_chunk(cs[k], om[i]) by {
            if cs[0] is Resolved {
                assert(om == seq![(off, cs[0]->offset, len)] + rest);
                if i == 0 {
                    assert(map_from_chunk(cs[0], om[i]));
                } else {
                    assert(om[i] == rest[i - 1]);
                    assert(off + len <= rest[i - 1].0);
                    let k = choose|k: int| 0 <= k < cs.skip(1).len() && #[trigger] map_from_chunk(cs.skip(1)[k], rest[i - 1]);
                    assert(cs[k + 1] == cs.skip(1)[k]);
                    assert(map_from_chunk(cs[k + 1], om[i]));
                }
            } else {
                assert(om == rest);
                assert(off + len <= rest[i].0);
                let k = choose|k: int| 0 <= k < cs.skip(1).len() && #[trigger] map_from_chunk(cs.skip(1)[k], rest[i]);
                assert(cs[k + 1] == cs.skip(1)[k]);
                assert(map_from_chunk(cs[k + 1], om[i]));
            }
        }
    }
}

/// With non-empty merged chunks, the offset maps are sorted
proof fn lemma_offset_maps_sorted(cs: Seq<ChunkView>, rev: Revision, off: int)
    requires
        forall|k: int| 0 <= k < cs.len() ==> (#[trigger] cs[k] matches ChunkView::Resolved { contents, .. } ==> contents.len() > 0),
    ensures
        maps_sorted(offset_maps(cs, rev, off)),
    decreases cs.len(),
{
    if cs.len() > 0 {
        let len = byte_len(side_of(cs[0], rev)) as int;
        assert forall|k: int| 0 <= k < cs.skip(1).len() implies (#[trigger] cs.skip(1)[k] matches ChunkView::Resolved { contents, .. } ==> contents.len() > 0) by {
            assert(cs.skip(1)[k] == cs[k + 1]);
        }
        lemma_offset_maps_sorted(cs.skip(1), rev, off + len);
        lemma_offset_maps_entries(cs.skip(1), rev, off + len);
        let om = offset_maps(cs, rev, off);
        let rest = offset_maps(cs.skip(1), rev, off + len);
        if cs[0] is Resolved {
            assert(om == seq![(off, cs[0]->offset, len)] + rest);
            assert forall|k: int| 0 <= k < om.len() implies #[trigger] om[k].2 > 0 by {
                if k > 0 {
                    assert(om[k] == rest[k - 1]);
                }
            }
            assert forall|k: int, l: int| 0 <= k < l < om.len() implies #[trigger] om[k].0 + om[k].2 <= #[trigger] om[l].0 by {
                assert(om[l] == rest[l - 1]);
                if k > 0 {
                    assert(om[k] == rest[k - 1]);
                }
            }
        } else {
            assert(om == rest);
        }
    }
}

/// The bytes of a reconstructed revision covered by an offset map are the bytes of the
/// merged file at the corresponding position
proof fn lemma_offset_map_text(cs: Seq<ChunkView>, rev: Revision, off: int, src: Seq<char>, i: int)
    requires
        forall|k: int| 0 <= k < cs.len() ==> resolved_chunk_in(#[trigger] cs[k], src),
        0 <= i < offset_maps(cs, rev, off).len(),
    ensures
        ({
            let e = offset_maps(cs, rev, off)[i];
            let rr = encode_utf8(reconstructed(cs, rev));
            let es = encode_utf8(src);
            &&& off <= e.0
            &&& 0 <= e.2
            &&& e.0 - off + e.2 <= rr.len()
            &&& 0 <= e.1 && e.1 + e.2 <= es.len()
            &&& rr.subrange(e.0 - off, e.0 - off + e.2) == es.subrange(e.1, e.1 + e.2)
        }),
    decreases cs.len(),
{
    let side = side_of(cs[0], rev);
    let len = byte_len(side) as int;
    let om = offset_maps(cs, rev, off);
    let rest = offset_maps(cs.skip(1), rev, off + len);
    let r = reconstructed(cs.skip(1), rev);
    assert(reconstructed(cs, rev) == side + r);
    lemma_encode_concat(side, r);
    let rr = encode_utf8(reconstructed(cs, rev));
    assert(rr == encode_utf8(side) + encode_utf8(r));
    assert forall|k: int| 0 <= k < cs.skip(1).len() implies resolved_chunk_in(#[trigger] cs.skip(1)[k], src) by {
        assert(cs.skip(1)[k] == cs[k + 1]);
    }
    assert(resolved_chunk_in(cs[0], src));
    if cs[0] is Resolved {
        assert(om == seq![(off, cs[0]->offset, len)] + rest);
        if i == 0 {
            assert(rr.subrange(0, len) =~= encode_utf8(side));
        } else {
            assert(om[i] == rest[i - 1]);
            lemma_offset_map_text(cs.skip(1), rev, off + len, src, i - 1);
            let e = rest[i - 1];
            assert(rr.subrange(e.0 - off, e.0 - off + e.2) =~= encode_utf8(r).subrange(e.0 - off - len, e.0 - off - len + e.2));
        }
    } else {
        assert(om == rest);
        lemma_offset_map_text(cs.skip(1), rev, off + len, src, i);
        let e = rest[i];
        assert(rr.subrange(e.0 - off, e.0 - off + e.2) =~= encode_utf8(r).subrange(e.0 - off - len, e.0 - off - len + e.2));
    }
}

/// When a byte range of a revision reconstructed from a parsed file lies within one of the
/// offset maps, that range holds the same bytes as the range of the file it is mapped to.
pub proof fn law_merged_range_text(
    src: Seq<char>,
    n: int,
    cs: Seq<ChunkView>,
    rev: Revision,
    k: int,
    start: int,
    length: int,
)
    requires
        0 <= n,
        0 <= length,
        parse_spec(src, n, 0) == Some(cs),
        range_in_map(offset_maps(cs, rev, 0), k, start, length),
    ensures
        ({
            let e = offset_maps(cs, rev, 0)[k];
            let merged_start = e.1 + start - e.0;
            encode_utf8(reconstructed(cs, rev)).subrange(start, start + length) == encode_utf8(src).subrange(
                merged_start,
                merged_start + length,
            )
        }),
{
    lemma_parse_spec_facts(src, n, 0);
    assert forall|j: int| 0 <= j < cs.len() implies resolved_chunk_in(#[trigger] cs[j], src) by {
        if let ChunkView::Resolved { offset, contents } = cs[j] {
            assert(encode_utf8(contents) == encode_utf8(src).subrange(offset, offset + byte_len(contents)));
        }
    }
    lemma_offset_map_text(cs, rev, 0, src, k);
    let e = offset_maps(cs, rev, 0)[k];
    let rr = encode_utf8(reconstructed(cs, rev));
    let es = encode_utf8(src);
    assert(rr.subrange(start, start + length) =~= rr.subrange(e.0, e.0 + e.2).subrange(start - e.0, start - e.0 + length));
    assert(es.subrange(e.1 + start - e.0, e.1 + start - e.0 + length) =~= es.subrange(e.1, e.1 + e.2).subrange(start - e.0, start - e.0 + length));
}

/// A text without any conflict markers is parsed into a single merged chunk, so that each
/// reconstructed revision is the text itself.
pub proof fn law_no_conflict_reconstructs_text(src: Seq<char>, n: int, rev: Revision)
    requires
        0 <= n,
        src.len() > 0,
        forall|m: Bounds| !valid_conflict(src, n, true, m),
        forall|m: Bounds| !valid_conflict(src, n, false, m),
        !has_diff2_conflict(src, n),
    ensures
        parse_spec(src, n, 0) == Some(seq![ChunkView::Resolved { offset: 0, contents: src }]),
        reconstructed(seq![ChunkView::Resolved { offset: 0, contents: src }], rev) == src,
{
    lemma_no_first_conflict(src, n, true);
    lemma_no_first_conflict(src, n, false);
    lemma_parse_step_none(src, n, 0);
    let cs = seq![ChunkView::Resolved { offset: 0, contents: src }];
    reveal_with_fuel(reconstructed, 2);
    assert(cs.skip(1) =~= Seq::<ChunkView>::empty());
    assert(cs[0] == ChunkView::Resolved { offset: 0, contents: src });
    assert(reconstructed(cs, rev) =~= src + Seq::<char>::empty());
}

/// The number of bytes of a string
pub fn contents_len(s: &String) -> (res: usize)
    ensures
        res == byte_len(s@),
{
    str_byte_len(s.as_str())
}

/// The number of bytes of an optional string (0 if absent)
pub fn opt_len(s: &Option<String>) -> (res: usize)
    ensures
        res == match opt_view(*s) {
            Some(v) => byte_len(v),
            None => 0,
        },
{
    match s {
        Some(s) => contents_len(s),
        None => 0,
    }
}

proof fn lemma_reconstructed_take(cv: Seq<ChunkView>, i: int, rev: Revision)
    requires
        0 <= i < cv.len(),
    ensures
        reconstructed(cv.take(i + 1), rev) == reconstructed(cv.take(i), rev) + side_of(cv[i], rev),
    decreases i,
{
    if i == 0 {
        assert(cv.take(1).skip(1) =~= Seq::<ChunkView>::empty());
        assert(cv.take(0) =~= Seq::<ChunkView>::empty());
        assert(side_of(cv[0], rev) + Seq::<char>::empty() =~= side_of(cv[0], rev));
        assert(Seq::<char>::empty() + side_of(cv[0], rev) =~= side_of(cv[0], rev));
    } else {
        lemma_reconstructed_take(cv.skip(1), i - 1, rev);
        assert(cv.take(i + 1).skip(1) =~= cv.skip(1).take(i));
        assert(cv.take(i).skip(1) =~= cv.skip(1).take(i - 1));
        assert(cv.skip(1)[i - 1] == cv[i]);
        assert(cv.take(i + 1)[0] == cv[0]);
        assert(cv.take(i)[0] == cv[0]);
        assert(reconstructed(cv.take(i + 1), rev) =~= reconstructed(cv.take(i), rev) + side_of(cv[i], rev));
    }
}

proof fn lemma_reconstructed_prefix_len(cv: Seq<ChunkView>, i: int, rev: Revision)
    requires
        0 <= i <= cv.len(),
    ensures
        byte_len(reconstructed(cv.take(i), rev)) <= byte_len(reconstructed(cv, rev)),
    decreases cv.len() - i,
{
    if i < cv.len() {
        lemma_reconstructed_take(cv, i, rev);
        lemma_byte_len(reconstructed(cv.take(i), rev), side_of(cv[i], rev));
        lemma_reconstructed_prefix_len(cv, i + 1, rev);
    } else {
        assert(cv.take(i) =~= cv);
    }
}


/// The marker lines of the conflict at `m` are written as the default settings render them:
/// `<<<<<<< LEFT`, `||||||| BASE`, `=======` and `>>>>>>> RIGHT`, each with its line break
pub open spec fn default_lines_at(t: Seq<char>, m: Bounds) -> bool {
    &&& 0 <= m.0 && m.0 + 13 <= t.len() && t.subrange(m.0, m.0 + 13) == "<<<<<<< LEFT\n"@
    &&& 0 <= m.1 && m.1 + 13 <= t.len() && t.subrange(m.1, m.1 + 13) == "||||||| BASE\n"@
    &&& 0 <= m.2 && m.2 + 8 <= t.len() && t.subrange(m.2, m.2 + 8) == "=======\n"@
    &&& 0 <= m.3 && m.3 + 14 <= t.len() && t.subrange(m.3, m.3 + 14) == ">>>>>>> RIGHT\n"@
}

/// Are the marker lines of each conflict that parsing finds in the text (with markers of
/// seven characters) written as the default settings render them?
pub open spec fn default_conflicts(t: Seq<char>) -> bool
    decreases t.len(),
{
    if t.len() == 0 {
        true
    } else {
        match next_conflict(t, 7) {
            Some((m, wn)) => if default_lines_at(t, m) {
                default_conflicts(t.skip(m.3 + 14))
            } else {
                false
            },
            None => true,
        }
    }
}

/// The next line break from a position is the first one met
proof fn lemma_next_newline_at(t: Seq<char>, from: int, k: int)
    requires
        0 <= from <= k < t.len(),
        t[k] == '\n',
        forall|x: int| from <= x < k ==> t[x] != '\n',
    ensures
        next_newline(t, from) == k,
    decreases k - from,
{
    if from < k {
        lemma_next_newline_at(t, from + 1, k);
    }
}

/// Where a marker line written as the default settings render it ends
proof fn lemma_default_line_end(t: Seq<char>, i: int, kind: MarkerKind)
    requires
        0 <= i,
        is_line_start(t, i),
        kind != MarkerKind::RightAtEnd,
        marker_at(t, i, marker_char(kind), 7),
        i + match kind {
            MarkerKind::Middle => 8int,
            MarkerKind::Right => 14int,
            _ => 13int,
        } <= t.len(),
        t.subrange(i, i + match kind {
            MarkerKind::Middle => 8int,
            MarkerKind::Right => 14int,
            _ => 13int,
        }) == match kind {
            MarkerKind::Left => "<<<<<<< LEFT\n"@,
            MarkerKind::Base => "||||||| BASE\n"@,
            MarkerKind::Middle => "=======\n"@,
            _ => ">>>>>>> RIGHT\n"@,
        },
    ensures
        marker_line_end(t, i, kind, 7) == Some(i + match kind {
            MarkerKind::Middle => 8int,
            MarkerKind::Right => 14int,
            _ => 13int,
        }),
{
    reveal_strlit("<<<<<<< LEFT\n");
    reveal_strlit("||||||| BASE\n");
    reveal_strlit("=======\n");
    reveal_strlit(">>>>>>> RIGHT\n");
    assert(is_line_start(t, i));
    match kind {
        MarkerKind::Left => {
            let l = t.subrange(i, i + 13);
            assert(l == "<<<<<<< LEFT\n"@);
            assert(t[i + 7] == l[7] && t[i + 12] == l[12]);
            assert forall|x: int| i + 8 <= x < i + 12 implies t[x] != '\n' by {
                assert(t[x] == l[x - i]);
            }
            lemma_next_newline_at(t, i + 8, i + 12);
        },
        MarkerKind::Base => {
            let l = t.subrange(i, i + 13);
            assert(l == "||||||| BASE\n"@);
            assert(t[i + 7] == l[7] && t[i + 12] == l[12]);
            assert forall|x: int| i + 8 <= x < i + 12 implies t[x] != '\n' by {
                assert(t[x] == l[x - i]);
            }
            lemma_next_newline_at(t, i + 8, i + 12);
        },
        MarkerKind::Middle => {
            let l = t.subrange(i, i + 8);
            assert(l == "=======\n"@);
            assert(t[i + 7] == l[7]);
        },
        _ => {
            let l = t.subrange(i, i + 14);
            assert(l == ">>>>>>> RIGHT\n"@);
            assert(t[i + 7] == l[7] && t[i + 13] == l[13]);
            assert forall|x: int| i + 8 <= x < i + 13 implies t[x] != '\n' by {
                assert(t[x] == l[x - i]);
            }
            lemma_next_newline_at(t, i + 8, i + 13);
        },
    }
}

proof fn lemma_rendered_concat(a: Seq<ChunkView>, b: Seq<ChunkView>, settings: DisplaySettings)
    ensures
        rendered(a + b, settings) == rendered(a, settings) + rendered(b, settings),
    decreases a.len(),
{
    if a.len() == 0 {
        assert(a + b =~= b);
        assert(Seq::<char>::empty() + rendered(b, settings) =~= rendered(b, settings));
    } else {
        lemma_rendered_concat(a.skip(1), b, settings);
        assert((a + b).skip(1) =~= a.skip(1) + b);
        assert((a + b)[0] == a[0]);
        assert(rendered(a + b, settings) =~= rendered(a, settings) + rendered(b, settings));
    }
}

proof fn lemma_rendered_single(c: ChunkView, settings: DisplaySettings)
    ensures
        rendered(seq![c], settings) == render_chunk(c, settings),
{
    reveal_with_fuel(rendered, 2);
    assert(seq![c].skip(1) =~= Seq::<ChunkView>::empty());
    assert(render_chunk(c, settings) + Seq::<char>::empty() =~= render_chunk(c, settings));
}

/// A property that some natural number has holds of a least one
proof fn lemma_least_nat(p: spec_fn(int) -> bool, x: int)
    requires
        0 <= x,
        p(x),
    ensures
        exists|y: int| 0 <= y && #[trigger] p(y) && forall|z: int| 0 <= z < y ==> !#[trigger] p(z),
    decreases x,
{
    if exists|z: int| 0 <= z < x && #[trigger] p(z) {
        let z = choose|z: int| 0 <= z < x && #[trigger] p(z);
        lemma_least_nat(p, z);
    } else {
        assert(0 <= x && p(x) && forall|z: int| 0 <= z < x ==> !#[trigger] p(z));
    }
}

/// The marker lines of a conflict start at positions of the text
proof fn lemma_conflict_nonneg(t: Seq<char>, n: int, wn: bool, c: Bounds)
    requires
        valid_conflict(t, n, wn, c),
    ensures
        0 <= c.0 && 0 <= c.1 && 0 <= c.2 && 0 <= c.3,
{
}

/// Among boundaries of non-negative positions with some property, one comes first
proof fn lemma_least_bounds(v: spec_fn(Bounds) -> bool, m: Bounds)
    requires
        v(m),
        forall|c: Bounds| #[trigger] v(c) ==> 0 <= c.0 && 0 <= c.1 && 0 <= c.2 && 0 <= c.3,
    ensures
        exists|best: Bounds| #[trigger] v(best) && forall|c: Bounds| #[trigger] v(c) ==> lex_le(best, c),
{
    let p0 = |a: int| exists|c: Bounds| #[trigger] v(c) && c.0 == a;
    assert(p0(m.0));
    lemma_least_nat(p0, m.0);
    let a0 = choose|y: int| 0 <= y && #[trigger] p0(y) && forall|z: int| 0 <= z < y ==> !#[trigger] p0(z);
    let c0 = choose|c: Bounds| #[trigger] v(c) && c.0 == a0;
    let p1 = |b: int| exists|c: Bounds| #[trigger] v(c) && c.0 == a0 && c.1 == b;
    assert(p1(c0.1));
    lemma_least_nat(p1, c0.1);
    let a1 = choose|y: int| 0 <= y && #[trigger] p1(y) && forall|z: int| 0 <= z < y ==> !#[trigger] p1(z);
    let c1 = choose|c: Bounds| #[trigger] v(c) && c.0 == a0 && c.1 == a1;
    let p2 = |b: int| exists|c: Bounds| #[trigger] v(c) && c.0 == a0 && c.1 == a1 && c.2 == b;
    assert(p2(c1.2));
    lemma_least_nat(p2, c1.2);
    let a2 = choose|y: int| 0 <= y && #[trigger] p2(y) && forall|z: int| 0 <= z < y ==> !#[trigger] p2(z);
    let c2 = choose|c: Bounds| #[trigger] v(c) && c.0 == a0 && c.1 == a1 && c.2 == a2;
    let p3 = |b: int| exists|c: Bounds| #[trigger] v(c) && c.0 == a0 && c.1 == a1 && c.2 == a2 && c.3 == b;
    assert(p3(c2.3));
    lemma_least_nat(p3, c2.3);
    let a3 = choose|y: int| 0 <= y && #[trigger] p3(y) && forall|z: int| 0 <= z < y ==> !#[trigger] p3(z);
    let best = choose|c: Bounds| #[trigger] v(c) && c.0 == a0 && c.1 == a1 && c.2 == a2 && c.3 == a3;
    assert forall|c: Bounds| #[trigger] v(c) implies lex_le(best, c) by {
        assert(p0(c.0));
        if c.0 == a0 {
            assert(p1(c.1));
            if c.1 == a1 {
                assert(p2(c.2));
                if c.2 == a2 {
                    assert(p3(c.3));
                }
            }
        }
    }
}

/// Where there is a conflict, there is a first one
proof fn lemma_exists_first(t: Seq<char>, n: int, wn: bool, m: Bounds)
    requires
        valid_conflict(t, n, wn, m),
    ensures
        exists|c: Bounds| is_first_conflict(t, n, wn, c),
{
    let v = |c: Bounds| valid_conflict(t, n, wn, c);
    assert forall|c: Bounds| #[trigger] v(c) implies 0 <= c.0 && 0 <= c.1 && 0 <= c.2 && 0 <= c.3 by {
        lemma_conflict_nonneg(t, n, wn, c);
    }
    lemma_least_bounds(v, m);
    let best = choose|best: Bounds| #[trigger] v(best) && forall|c: Bounds| #[trigger] v(c) ==> lex_le(best, c);
    assert(valid_conflict(t, n, wn, best));
    assert forall|c: Bounds| valid_conflict(t, n, wn, c) implies lex_le(best, c) by {
        assert(v(c));
    }
    assert(is_first_conflict(t, n, wn, best));
}

/// The rendering of a conflict whose marker lines are written as the default settings render
/// them is the text of the conflict
#[verifier::spinoff_prover]
#[verifier::rlimit(60)]
proof fn lemma_render_conflict(t: Seq<char>, m: Bounds, wn: bool, end: int, settings: DisplaySettings)
    requires
        default_lines_at(t, m),
        next_conflict(t, 7) == Some((m, wn)),
        is_first_conflict(t, 7, wn, m),
        end == marker_line_end(t, m.3, right_kind(wn), 7)->0,
        settings.diff3,
        settings.marker_size() == 7,
        settings.left_revision_name is None,
        settings.base_revision_name is None,
        settings.right_revision_name is None,
    ensures
        0 <= m.0 < end <= t.len(),
        end == m.3 + 14,
        t[end - 1] == '\n',
        render_chunk(conflict_chunk(t, 7, wn, m), settings) == t.subrange(m.0, end),
{
    crate::conflict_markers::lemma_line_end_bounds(t, m.0, MarkerKind::Left, 7);
    crate::conflict_markers::lemma_line_end_bounds(t, m.1, MarkerKind::Base, 7);
    crate::conflict_markers::lemma_line_end_bounds(t, m.2, MarkerKind::Middle, 7);
    crate::conflict_markers::lemma_line_end_bounds(t, m.3, right_kind(wn), 7);
    lemma_default_line_end(t, m.0, MarkerKind::Left);
    lemma_default_line_end(t, m.1, MarkerKind::Base);
    lemma_default_line_end(t, m.2, MarkerKind::Middle);
    lemma_default_line_end(t, m.3, MarkerKind::Right);
    let e0 = m.0 + 13;
    let e1 = m.1 + 13;
    let e2 = m.2 + 8;
    let e3 = m.3 + 14;
    // the text of a side ends with a line break, as it ends where a marker line starts
    assert forall|a: int, b: int| 0 <= a <= b <= t.len() && is_line_start(t, b) && a != b
        implies none_or_ends_with_newline(side_text(t, a, b, true)) by {
        assert(t.subrange(a, b).last() == t[b - 1]);
    }
    assert(is_line_start(t, m.1) && is_line_start(t, m.2) && is_line_start(t, m.3));
    if !wn {
        // the right marker line ends with a line break, so there is a conflict with line breaks,
        // which comes first
        assert(valid_conflict(t, 7, true, m));
        lemma_exists_first(t, 7, true, m);
        let c = choose|c: Bounds| is_first_conflict(t, 7, true, c);
        lemma_first_conflict_is(t, 7, true, c);
        assert(false);
    }
    assert(wn);
    assert(end == e3);
    reveal_strlit("<<<<<<< LEFT\n");
    reveal_strlit("||||||| BASE\n");
    reveal_strlit("=======\n");
    reveal_strlit(">>>>>>> RIGHT\n");
    reveal_strlit("LEFT");
    reveal_strlit("BASE");
    reveal_strlit("RIGHT");
    assert(settings.left_marker() + seq!['\n'] =~= t.subrange(m.0, e0));
    assert(settings.base_marker() + seq!['\n'] =~= t.subrange(m.1, e1));
    assert(settings.middle_marker() + seq!['\n'] =~= t.subrange(m.2, e2));
    assert(settings.right_marker() + seq!['\n'] =~= t.subrange(m.3, e3));
    let cc = conflict_chunk(t, 7, wn, m);
    assert(or_empty(side_text(t, e0, m.1, true)) =~= t.subrange(e0, m.1));
    assert(or_empty(side_text(t, e1, m.2, true)) =~= t.subrange(e1, m.2));
    assert(or_empty(side_text(t, e2, m.3, true)) =~= t.subrange(e2, m.3));
    assert(t.subrange(m.0, end) =~= t.subrange(m.0, e0) + t.subrange(e0, m.1) + t.subrange(m.1, e1) + t.subrange(e1, m.2)
        + t.subrange(m.2, e2) + t.subrange(e2, m.3) + t.subrange(m.3, e3));
    assert(render_chunk(cc, settings) =~= t.subrange(m.0, end));
    assert(t[end - 1] == t.subrange(m.3, e3)[13]);
}

/// Rendering the chunks parsed from a text, with the default settings, gives back the text,
/// wherever the marker lines of the conflicts found in it are written as those settings render
/// them (`<<<<<<< LEFT`, `||||||| BASE`, `=======`, `>>>>>>> RIGHT`, each with its line break).
/// Other lines that start with marker characters may stand anywhere in the text.
#[verifier::spinoff_prover]
#[verifier::rlimit(60)]
pub proof fn law_render_undoes_parse(t: Seq<char>, off: int, settings: DisplaySettings)
    requires
        default_conflicts(t),
        parse_spec(t, 7, off) is Some,
        settings.diff3,
        settings.marker_size() == 7,
        settings.left_revision_name is None,
        settings.base_revision_name is None,
        settings.right_revision_name is None,
    ensures
        rendered(parse_spec(t, 7, off)->0, settings) == t,
    decreases t.len(),
{
    reveal(parse_spec);
    if t.len() == 0 {
        return;
    }
    match next_conflict(t, 7) {
        Some((m, wn)) => {
            let end = marker_line_end(t, m.3, right_kind(wn), 7)->0;
            assert(is_first_conflict(t, 7, wn, m));
            lemma_render_conflict(t, m, wn, end, settings);
            let prefix = if m.0 > 0 {
                seq![ChunkView::Resolved { offset: off, contents: t.take(m.0) }]
            } else {
                Seq::<ChunkView>::empty()
            };
            let cc = conflict_chunk(t, 7, wn, m);
            let next = off + byte_len(t.take(end));
            law_render_undoes_parse(t.skip(end), next, settings);
            let rest = parse_spec(t.skip(end), 7, next)->0;
            assert(parse_spec(t, 7, off) == Some(prefix + seq![cc] + rest));
            lemma_rendered_concat(prefix + seq![cc], rest, settings);
            lemma_rendered_concat(prefix, seq![cc], settings);
            lemma_rendered_single(cc, settings);
            if m.0 > 0 {
                lemma_rendered_single(prefix[0], settings);
                assert(prefix =~= seq![prefix[0]]);
            } else {
                assert(rendered(prefix, settings) =~= Seq::<char>::empty());
            }
            assert(t =~= t.take(m.0) + t.subrange(m.0, end) + t.skip(end));
        },
        None => {
            let c = ChunkView::Resolved { offset: off, contents: t };
            lemma_rendered_single(c, settings);
        },
    }
}
} // verus!
