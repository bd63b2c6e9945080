use vstd::prelude::*;

use crate::text::{push_char, to_chars};

verus! {

/// Type of newlines present in a file
#[derive(Debug, Clone, Copy, PartialEq, Eq, Structural)]
pub enum NewlineStyle {
    /// Only a line-feed character: `\n`
    Lf,
    /// Carriage return followed by line-feed: `\r\n`
    CrLf,
    /// Only carriage return: `\r`
    Cr,
}

/// Number of occurrences of a character in a text
pub open spec fn count_char(s: Seq<char>, c: char) -> nat
    decreases s.len(),
{
    if s.len() == 0 {
        0
    } else {
        (if s[0] == c { 1nat } else { 0nat }) + count_char(s.skip(1), c)
    }
}

/// Number of occurrences of the two-character sequence `\r\n` in a text
pub open spec fn count_crlf(s: Seq<char>) -> nat
    decreases s.len(),
{
    if s.len() < 2 {
        0
    } else {
        (if s[0] == '\r' && s[1] == '\n' { 1nat } else { 0nat }) + count_crlf(s.skip(1))
    }
}

/// The style guessed from a text: `\r\n` if it separates more than half of the `\n`-separated
/// parts, otherwise `\r` if there are more `\r`-separated than `\n`-separated parts, otherwise `\n`.
/// (Splitting a text on a separator yields one more part than there are separators.)
pub open spec fn inferred_style(s: Seq<char>) -> NewlineStyle {
    let lf_parts = count_char(s, '\n') + 1;
    let crlf_parts = count_crlf(s) + 1;
    let cr_parts = count_char(s, '\r') + 1;
    if crlf_parts > lf_parts / 2 {
        NewlineStyle::CrLf
    } else if cr_parts > lf_parts {
        NewlineStyle::Cr
    } else {
        NewlineStyle::Lf
    }
}

/// The text where each `\r\n` and each remaining `\r` is replaced by `\n`
pub open spec fn lf_normalized(s: Seq<char>) -> Seq<char>
    decreases s.len(),
{
    if s.len() == 0 {
        Seq::empty()
    } else if s[0] == '\r' && s.len() >= 2 && s[1] == '\n' {
        seq!['\n'] + lf_normalized(s.skip(2))
    } else if s[0] == '\r' {
        seq!['\n'] + lf_normalized(s.skip(1))
    } else {
        seq![s[0]] + lf_normalized(s.skip(1))
    }
}

/// The text where each `\n` is replaced by `\r\n`
pub open spec fn lf_to_crlf(s: Seq<char>) -> Seq<char>
    decreases s.len(),
{
    if s.len() == 0 {
        Seq::empty()
    } else if s[0] == '\n' {
        seq!['\r', '\n'] + lf_to_crlf(s.skip(1))
    } else {
        seq![s[0]] + lf_to_crlf(s.skip(1))
    }
}

/// The text where each `\n` is replaced by `\r`
pub open spec fn lf_to_cr(s: Seq<char>) -> Seq<char> {
    s.map_values(|c: char| if c == '\n' { '\r' } else { c })
}

/// The text rewritten to use a given newline style
pub open spec fn imitated(s: Seq<char>, style: NewlineStyle) -> Seq<char> {
    match style {
        NewlineStyle::Lf => lf_normalized(s),
        NewlineStyle::CrLf => lf_to_crlf(lf_normalized(s)),
        NewlineStyle::Cr => lf_to_cr(lf_normalized(s)),
    }
}

proof fn lemma_count_char_step(s: Seq<char>, i: int, c: char)
    requires
        0 <= i < s.len(),
    ensures
        count_char(s.skip(i), c) == (if s[i] == c { 1nat } else { 0nat }) + count_char(
            s.skip(i + 1),
            c,
        ),
{
    assert(s.skip(i).skip(1) =~= s.skip(i + 1));
}

proof fn lemma_count_crlf_step(s: Seq<char>, i: int)
    requires
        0 <= i < s.len(),
    ensures
        count_crlf(s.skip(i)) == (if i + 1 < s.len() && s[i] == '\r' && s[i + 1] == '\n' {
            1nat
        } else {
            0nat
        }) + count_crlf(s.skip(i + 1)),
{
    assert(s.skip(i).skip(1) =~= s.skip(i + 1));
}

/// Guess if we should use CRLF or just LF from an example string
pub fn infer_newline_style(contents: &str) -> (res: NewlineStyle)
    ensures
        res == inferred_style(contents@),
{
    let chars = to_chars(contents);
    let n = chars.len();
    let mut lf: usize = 0;
    let mut cr: usize = 0;
    let mut crlf: usize = 0;
    let mut i: usize = 0;
    assert(chars@.skip(0) =~= chars@);
    while i < n
        invariant
            n == chars@.len(),
            chars@ == contents@,
            0 <= i <= n,
            lf + count_char(chars@.skip(i as int), '\n') == count_char(chars@, '\n'),
            cr + count_char(chars@.skip(i as int), '\r') == count_char(chars@, '\r'),
            crlf + count_crlf(chars@.skip(i as int)) == count_crlf(chars@),
            lf <= i,
            cr <= i,
            crlf <= i,
        decreases n - i,
    {
        proof {
            lemma_count_char_step(chars@, i as int, '\n');
            lemma_count_char_step(chars@, i as int, '\r');
            lemma_count_crlf_step(chars@, i as int);
        }
        let c = chars[i];
        if c == '\n' {
            lf = lf + 1;
        }
        if c == '\r' {
            cr = cr + 1;
            if i + 1 < n && chars[i + 1] == '\n' {
                crlf = crlf + 1;
            }
        }
        i = i + 1;
    }
    assert(chars@.skip(0) =~= chars@);
    let lf_parts: u128 = lf as u128 + 1;
    let crlf_parts: u128 = crlf as u128 + 1;
    let cr_parts: u128 = cr as u128 + 1;
    if crlf_parts > lf_parts / 2 {
        NewlineStyle::CrLf
    } else if cr_parts > lf_parts {
        NewlineStyle::Cr
    } else {
        NewlineStyle::Lf
    }
}

proof fn lemma_lf_normalized_skip(s: Seq<char>, i: int)
    requires
        0 <= i < s.len(),
    ensures
        lf_normalized(s.skip(i)) == (if s[i] == '\r' && i + 1 < s.len() && s[i + 1] == '\n' {
            seq!['\n'] + lf_normalized(s.skip(i + 2))
        } else if s[i] == '\r' {
            seq!['\n'] + lf_normalized(s.skip(i + 1))
        } else {
            seq![s[i]] + lf_normalized(s.skip(i + 1))
        }),
{
    assert(s.skip(i).skip(1) =~= s.skip(i + 1));
    if i + 1 < s.len() {
        assert(s.skip(i).skip(2) =~= s.skip(i + 2));
    }
}

/// The characters of a text with each `\r\n` and each other `\r` turned into `\n`
fn normalized_chars(chars: &Vec<char>) -> (out: Vec<char>)
    ensures
        out@ == lf_normalized(chars@),
{
    let n = chars.len();
    let mut out: Vec<char> = Vec::new();
    let mut i: usize = 0;
    assert(chars@.skip(0) =~= chars@);
    assert(out@ + lf_normalized(chars@) =~= lf_normalized(chars@));
    while i < n
        invariant
            n == chars@.len(),
            0 <= i <= n,
            out@ + lf_normalized(chars@.skip(i as int)) == lf_normalized(chars@),
        decreases n - i,
    {
        proof {
            lemma_lf_normalized_skip(chars@, i as int);
        }
        let c = chars[i];
        if c == '\r' && i + 1 < n && chars[i + 1] == '\n' {
            out.push('\n');
            proof {
                assert(out@ + lf_normalized(chars@.skip(i + 2)) =~= out@.drop_last() + (seq!['\n']
                    + lf_normalized(chars@.skip(i + 2))));
            }
            i = i + 2;
        } else if c == '\r' {
            out.push('\n');
            proof {
                assert(out@ + lf_normalized(chars@.skip(i + 1)) =~= out@.drop_last() + (seq!['\n']
                    + lf_normalized(chars@.skip(i + 1))));
            }
            i = i + 1;
        } else {
            out.push(c);
            proof {
                assert(out@ + lf_normalized(chars@.skip(i + 1)) =~= out@.drop_last() + (seq![c]
                    + lf_normalized(chars@.skip(i + 1))));
            }
            i = i + 1;
        }
    }
    assert(chars@.skip(n as int) =~= Seq::<char>::empty());
    assert(out@ + Seq::<char>::empty() =~= out@);
    out
}

proof fn lemma_lf_to_crlf_skip(s: Seq<char>, i: int)
    requires
        0 <= i < s.len(),
    ensures
        lf_to_crlf(s.skip(i)) == (if s[i] == '\n' {
            seq!['\r', '\n'] + lf_to_crlf(s.skip(i + 1))
        } else {
            seq![s[i]] + lf_to_crlf(s.skip(i + 1))
        }),
{
    assert(s.skip(i).skip(1) =~= s.skip(i + 1));
}

/// Renormalize a string to contain CRLF or just LF
pub fn imitate_newline_style(contents: &str, style: NewlineStyle) -> (res: String)
    ensures
        res@ == imitated(contents@, style),
{
    let chars = to_chars(contents);
    let normalized = normalized_chars(&chars);
    let n = normalized.len();
    let mut res = String::new();
    let mut i: usize = 0;
    assert(normalized@.skip(0) =~= normalized@);
    assert(res@ + lf_to_crlf(normalized@) =~= lf_to_crlf(normalized@));
    assert(normalized@.take(0) =~= Seq::<char>::empty());
    assert(lf_to_cr(Seq::<char>::empty()) =~= Seq::<char>::empty());
    while i < n
        invariant
            n == normalized@.len(),
            normalized@ == lf_normalized(contents@),
            0 <= i <= n,
            style == NewlineStyle::Lf ==> res@ == normalized@.take(i as int),
            style == NewlineStyle::Cr ==> res@ == lf_to_cr(normalized@.take(i as int)),
            style == NewlineStyle::CrLf ==> res@ + lf_to_crlf(normalized@.skip(i as int))
                == lf_to_crlf(normalized@),
        decreases n - i,
    {
        let c = normalized[i];
        proof {
            lemma_lf_to_crlf_skip(normalized@, i as int);
            assert(normalized@.take(i + 1) =~= normalized@.take(i as int).push(c));
            assert(lf_to_cr(normalized@.take(i + 1)) =~= lf_to_cr(normalized@.take(i as int)).push(
                if c == '\n' { '\r' } else { c },
            ));
        }
        match style {
            NewlineStyle::Lf => {
                push_char(&mut res, c);
            },
            NewlineStyle::Cr => {
                push_char(&mut res, if c == '\n' { '\r' } else { c });
            },
            NewlineStyle::CrLf => {
                let ghost before = res@;
                if c == '\n' {
                    push_char(&mut res, '\r');
                    push_char(&mut res, '\n');
                    assert(res@ =~= before + seq!['\r', '\n']);
                } else {
                    push_char(&mut res, c);
                    assert(res@ =~= before + seq![c]);
                }
                assert(res@ + lf_to_crlf(normalized@.skip(i + 1)) =~= before + lf_to_crlf(
                    normalized@.skip(i as int),
                ));
            },
        }
        i = i + 1;
    }
    proof {
        assert(normalized@.take(n as int) =~= normalized@);
        assert(normalized@.skip(n as int) =~= Seq::<char>::empty());
        assert(res@ + Seq::<char>::empty() =~= res@);
    }
    res
}

/// Normalize a string to only contain newline characters `\n`, no carriage return `\r`
pub fn normalize_to_lf(contents: &str) -> (res: String)
    ensures
        res@ == lf_normalized(contents@),
{
    imitate_newline_style(contents, NewlineStyle::Lf)
}

/// Normalizing to `\n` is the same as imitating the `\n` style.
pub proof fn law_normalize_is_imitating_lf(s: Seq<char>)
    ensures
        lf_normalized(s) == imitated(s, NewlineStyle::Lf),
{
}

/// A text normalized to `\n` contains no carriage return.
pub proof fn law_normalized_has_no_cr(s: Seq<char>)
    ensures
        !lf_normalized(s).contains('\r'),
    decreases s.len(),
{
    if s.len() > 0 {
        if s[0] == '\r' && s.len() >= 2 && s[1] == '\n' {
            law_normalized_has_no_cr(s.skip(2));
        } else {
            law_normalized_has_no_cr(s.skip(1));
        }
        let rest = if s[0] == '\r' && s.len() >= 2 && s[1] == '\n' {
            lf_normalized(s.skip(2))
        } else {
            lf_normalized(s.skip(1))
        };
        let head = if s[0] == '\r' { '\n' } else { s[0] };
        assert(lf_normalized(s) =~= seq![head] + rest);
        assert forall|i: int| 0 <= i < lf_normalized(s).len() implies lf_normalized(s)[i] != '\r' by {
            if i > 0 {
                assert(lf_normalized(s)[i] == rest[i - 1]);
            }
        }
    }
}

proof fn lemma_normalized_fixpoint(t: Seq<char>)
    requires
        !t.contains('\r'),
    ensures
        lf_normalized(t) == t,
    decreases t.len(),
{
    if t.len() > 0 {
        assert(t[0] != '\r');
        assert(!t.skip(1).contains('\r')) by {
            if t.skip(1).contains('\r') {
                let j = choose|j: int| 0 <= j < t.skip(1).len() && t.skip(1)[j] == '\r';
                assert(t[j + 1] == '\r');
            }
        }
        lemma_normalized_fixpoint(t.skip(1));
        assert(t =~= seq![t[0]] + t.skip(1));
    }
}

proof fn lemma_crlf_normalizes_back(t: Seq<char>)
    requires
        !t.contains('\r'),
    ensures
        lf_normalized(lf_to_crlf(t)) == t,
    decreases t.len(),
{
    if t.len() > 0 {
        assert(!t.skip(1).contains('\r')) by {
            if t.skip(1).contains('\r') {
                let j = choose|j: int| 0 <= j < t.skip(1).len() && t.skip(1)[j] == '\r';
                assert(t[j + 1] == '\r');
            }
        }
        lemma_crlf_normalizes_back(t.skip(1));
        let rest = lf_to_crlf(t.skip(1));
        if t[0] == '\n' {
            let e = seq!['\r', '\n'] + rest;
            assert(e.skip(2) =~= rest);
            assert(lf_normalized(e) =~= seq!['\n'] + lf_normalized(rest));
        } else {
            let e = seq![t[0]] + rest;
            assert(e.skip(1) =~= rest);
            assert(lf_normalized(e) =~= seq![t[0]] + lf_normalized(rest));
        }
        assert(t =~= seq![t[0]] + t.skip(1));
    }
}

proof fn lemma_cr_normalizes_back(t: Seq<char>)
    requires
        !t.contains('\r'),
    ensures
        lf_normalized(lf_to_cr(t)) == t,
    decreases t.len(),
{
    if t.len() > 0 {
        assert(!t.skip(1).contains('\r')) by {
            if t.skip(1).contains('\r') {
                let j = choose|j: int| 0 <= j < t.skip(1).len() && t.skip(1)[j] == '\r';
                assert(t[j + 1] == '\r');
            }
        }
        lemma_cr_normalizes_back(t.skip(1));
        let e = lf_to_cr(t);
        assert(e.skip(1) =~= lf_to_cr(t.skip(1)));
        assert(e[0] == (if t[0] == '\n' { '\r' } else { t[0] }));
        if e[0] == '\r' && e.len() >= 2 {
            assert(e[1] != '\n');
        }
        assert(lf_normalized(e) =~= seq![t[0]] + lf_normalized(e.skip(1)));
        assert(t =~= seq![t[0]] + t.skip(1));
    }
}

/// Imitating a newline style a second time changes nothing.
pub proof fn law_imitate_idempotent(s: Seq<char>, style: NewlineStyle)
    ensures
        imitated(imitated(s, style), style) == imitated(s, style),
{
    let t = lf_normalized(s);
    law_normalized_has_no_cr(s);
    match style {
        NewlineStyle::Lf => {
            lemma_normalized_fixpoint(t);
        },
        NewlineStyle::CrLf => {
            lemma_crlf_normalizes_back(t);
        },
        NewlineStyle::Cr => {
            lemma_cr_normalizes_back(t);
        },
    }
}

/// Imitating one newline style and then another gives what imitating the second one gives.
pub proof fn law_imitate_composes(s: Seq<char>, first: NewlineStyle, second: NewlineStyle)
    ensures
        imitated(imitated(s, first), second) == imitated(s, second),
{
    let t = lf_normalized(s);
    law_normalized_has_no_cr(s);
    match first {
        NewlineStyle::Lf => {
            lemma_normalized_fixpoint(t);
        },
        NewlineStyle::CrLf => {
            lemma_crlf_normalizes_back(t);
        },
        NewlineStyle::Cr => {
            lemma_cr_normalizes_back(t);
        },
    }
    assert(lf_normalized(imitated(s, first)) == t);
}

/// The line breaks of an imitated text are those of the style: no `\r` for `\n`, no `\n`
/// for `\r`, and only `\r\n` pairs for `\r\n`.
pub proof fn law_imitated_line_breaks(s: Seq<char>, style: NewlineStyle)
    ensures
        style == NewlineStyle::Lf ==> !imitated(s, style).contains('\r'),
        style == NewlineStyle::Cr ==> !imitated(s, style).contains('\n'),
        style == NewlineStyle::CrLf ==> crlf_only(imitated(s, style)),
{
    let t = lf_normalized(s);
    law_normalized_has_no_cr(s);
    match style {
        NewlineStyle::Lf => {},
        NewlineStyle::Cr => {
            let r = lf_to_cr(t);
            assert forall|i: int| 0 <= i < r.len() implies r[i] != '\n' by {}
        },
        NewlineStyle::CrLf => {
            lemma_crlf_of_no_cr(t);
        },
    }
}

proof fn lemma_crlf_of_no_cr(t: Seq<char>)
    requires
        !t.contains('\r'),
    ensures
        crlf_only(lf_to_crlf(t)),
        lf_to_crlf(t).len() > 0 ==> lf_to_crlf(t)[0] != '\n',
    decreases t.len(),
{
    if t.len() > 0 {
        assert(!t.skip(1).contains('\r')) by {
            if t.skip(1).contains('\r') {
                let j = choose|j: int| 0 <= j < t.skip(1).len() && t.skip(1)[j] == '\r';
                assert(t[j + 1] == '\r');
            }
        }
        lemma_crlf_of_no_cr(t.skip(1));
        let rest = lf_to_crlf(t.skip(1));
        let r = lf_to_crlf(t);
        if t[0] == '\n' {
            assert(r =~= seq!['\r', '\n'] + rest);
            assert forall|i: int| 0 <= i < r.len() && #[trigger] r[i] == '\r' implies i + 1 < r.len() && r[i + 1] == '\n' by {
                if i >= 2 {
                    assert(rest[i - 2] == '\r');
                }
            }
            assert forall|i: int| 0 <= i < r.len() && #[trigger] r[i] == '\n' implies i > 0 && r[i - 1] == '\r' by {
                if i >= 2 {
                    assert(rest[i - 2] == '\n');
                    if i == 2 {
                        assert(rest[0] == '\n');
                    }
                }
            }
        } else {
            assert(t[0] != '\r');
            assert(r =~= seq![t[0]] + rest);
            assert forall|i: int| 0 <= i < r.len() && #[trigger] r[i] == '\r' implies i + 1 < r.len() && r[i + 1] == '\n' by {
                if i >= 1 {
                    assert(rest[i - 1] == '\r');
                }
            }
            assert forall|i: int| 0 <= i < r.len() && #[trigger] r[i] == '\n' implies i > 0 && r[i - 1] == '\r' by {
                if i >= 1 {
                    assert(rest[i - 1] == '\n');
                    if i == 1 {
                        assert(rest[0] == '\n');
                    }
                }
            }
        }
    }
}

/// Every line break of the text is `\r\n`: each `\r` is followed by `\n`, and each `\n`
/// follows `\r`
pub open spec fn crlf_only(s: Seq<char>) -> bool {
    &&& forall|i: int| 0 <= i < s.len() && #[trigger] s[i] == '\r' ==> i + 1 < s.len() && s[i + 1] == '\n'
    &&& forall|i: int| 0 <= i < s.len() && #[trigger] s[i] == '\n' ==> i > 0 && s[i - 1] == '\r'
}

proof fn lemma_crlf_only_skip(s: Seq<char>, k: int)
    requires
        crlf_only(s),
        0 <= k <= s.len(),
        k == s.len() || s[k] != '\n',
    ensures
        crlf_only(s.skip(k)),
{
    let t = s.skip(k);
    assert forall|i: int| 0 <= i < t.len() && #[trigger] t[i] == '\r' implies i + 1 < t.len() && t[i + 1] == '\n' by {
        assert(s[k + i] == '\r');
    }
    assert forall|i: int| 0 <= i < t.len() && #[trigger] t[i] == '\n' implies i > 0 && t[i - 1] == '\r' by {
        assert(s[k + i] == '\n');
    }
}

proof fn lemma_crlf_only_round_trip(s: Seq<char>)
    requires
        crlf_only(s),
    ensures
        lf_to_crlf(lf_normalized(s)) == s,
        count_crlf(s) == count_char(s, '\n'),
    decreases s.len(),
{
    if s.len() > 0 {
        if s[0] == '\r' {
            assert(s[1] == '\n');
            if s.len() > 2 {
                assert(s[2] != '\n') by {
                    if s[2] == '\n' {
                        assert(s[1] == '\r');
                    }
                }
            }
            lemma_crlf_only_skip(s, 2);
            lemma_crlf_only_round_trip(s.skip(2));
            let rest = lf_normalized(s.skip(2));
            let e = seq!['\n'] + rest;
            assert(e.skip(1) =~= rest);
            assert(lf_to_crlf(e) =~= seq!['\r', '\n'] + lf_to_crlf(rest));
            assert(s =~= seq!['\r', '\n'] + s.skip(2));
            assert(s.skip(1).skip(1) =~= s.skip(2));
            assert(count_crlf(s.skip(1)) == count_crlf(s.skip(2)));
            assert(count_char(s.skip(1), '\n') == 1 + count_char(s.skip(2), '\n'));
        } else {
            assert(s[0] != '\n');
            if s.len() > 1 {
                assert(s[1] != '\n') by {
                    if s[1] == '\n' {
                        assert(s[0] == '\r');
                    }
                }
            }
            lemma_crlf_only_skip(s, 1);
            lemma_crlf_only_round_trip(s.skip(1));
            let rest = lf_normalized(s.skip(1));
            let e = seq![s[0]] + rest;
            assert(e.skip(1) =~= rest);
            assert(lf_to_crlf(e) =~= seq![s[0]] + lf_to_crlf(rest));
            assert(s =~= seq![s[0]] + s.skip(1));
        }
    }
}

proof fn lemma_no_cr_counts(s: Seq<char>)
    requires
        !s.contains('\r'),
    ensures
        count_crlf(s) == 0,
        count_char(s, '\r') == 0,
        count_char(s, '\n') == 0 ==> lf_to_crlf(s) == s,
    decreases s.len(),
{
    if s.len() > 0 {
        assert(s[0] != '\r');
        assert(!s.skip(1).contains('\r')) by {
            if s.skip(1).contains('\r') {
                let j = choose|j: int| 0 <= j < s.skip(1).len() && s.skip(1)[j] == '\r';
                assert(s[j + 1] == '\r');
            }
        }
        lemma_no_cr_counts(s.skip(1));
        assert(s =~= seq![s[0]] + s.skip(1));
    }
}

/// A file whose line breaks are all `\n`, or all `\r\n`, gets its own text back when it is
/// normalized to `\n` and then written in the style inferred from it.
pub proof fn law_newline_style_round_trip(s: Seq<char>)
    requires
        !s.contains('\r') || crlf_only(s),
    ensures
        imitated(lf_normalized(s), inferred_style(s)) == s,
{
    law_normalized_has_no_cr(s);
    lemma_normalized_fixpoint(lf_normalized(s));
    if !s.contains('\r') {
        lemma_normalized_fixpoint(s);
        lemma_no_cr_counts(s);
    } else {
        lemma_crlf_only_round_trip(s);
        assert(inferred_style(s) == NewlineStyle::CrLf);
    }
}

} // verus!
