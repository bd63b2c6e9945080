use vstd::prelude::*;

verus! {

/// Appends one character at the end of a string (`String::push`).
#[verifier::external_body]
pub fn push_char(s: &mut String, c: char)
    ensures
        final(s)@ == old(s)@.push(c),
{
    s.push(c);
}

/// The characters of a string slice, in order.
pub fn to_chars(s: &str) -> (v: Vec<char>)
    ensures
        v@ == s@,
{
    let mut v: Vec<char> = Vec::new();
    for c in it: s.chars()
        invariant
            v@ == it.seq().take(it.index() as int),
    {
        v.push(c);
    }
    v
}

/// A string made of the characters `v[from..to]`
pub fn string_of_range(v: &Vec<char>, from: usize, to: usize) -> (s: String)
    requires
        from <= to <= v@.len(),
    ensures
        s@ == v@.subrange(from as int, to as int),
{
    let mut s = String::new();
    let mut i = from;
    while i < to
        invariant
            from <= i <= to <= v@.len(),
            s@ == v@.subrange(from as int, i as int),
        decreases to - i,
    {
        push_char(&mut s, v[i]);
        assert(v@.subrange(from as int, i + 1) =~= v@.subrange(from as int, i as int).push(v@[i as int]));
        i = i + 1;
    }
    s
}

/// A vector holding the characters `v[from..to]`
pub fn vec_of_range(v: &Vec<char>, from: usize, to: usize) -> (res: Vec<char>)
    requires
        from <= to <= v@.len(),
    ensures
        res@ == v@.subrange(from as int, to as int),
{
    let mut res: Vec<char> = Vec::new();
    let mut i = from;
    while i < to
        invariant
            from <= i <= to <= v@.len(),
            res@ == v@.subrange(from as int, i as int),
        decreases to - i,
    {
        res.push(v[i]);
        assert(v@.subrange(from as int, i + 1) =~= v@.subrange(from as int, i as int).push(v@[i as int]));
        i = i + 1;
    }
    res
}

/// Appends a string slice at the end of a string
pub fn push_str(s: &mut String, other: &str)
    ensures
        final(s)@ == old(s)@ + other@,
{
    s.append(other);
}

/// Are two string slices made of the same characters?
pub fn str_eq(a: &str, b: &str) -> (res: bool)
    ensures
        res == (a@ == b@),
{
    let va = to_chars(a);
    let vb = to_chars(b);
    if va.len() != vb.len() {
        return false;
    }
    let mut i: usize = 0;
    while i < va.len()
        invariant
            va@ == a@,
            vb@ == b@,
            va@.len() == vb@.len(),
            0 <= i <= va@.len(),
            forall|j: int| 0 <= j < i ==> va@[j] == vb@[j],
        decreases va@.len() - i,
    {
        if va[i] != vb[i] {
            return false;
        }
        i = i + 1;
    }
    assert(va@ =~= vb@);
    true
}

/// A string of `n` copies of a character
pub fn repeat_char(c: char, n: usize) -> (s: String)
    ensures
        s@ == Seq::new(n as nat, |i: int| c),
{
    let mut s = String::new();
    let mut i: usize = 0;
    while i < n
        invariant
            0 <= i <= n,
            s@ == Seq::new(i as nat, |j: int| c),
        decreases n - i,
    {
        push_char(&mut s, c);
        assert(s@ =~= Seq::new((i + 1) as nat, |j: int| c));
        i = i + 1;
    }
    s
}

/// Is the character a space, tab or line break (the ASCII whitespace removed by `str::trim`,
/// together with the other Unicode whitespace characters)?
pub open spec fn is_whitespace(c: char) -> bool {
    c == ' ' || c == '\t' || c == '\n' || c == '\r' || c == '\x0B' || c == '\x0C'
        || c == '\u{85}' || c == '\u{A0}' || c == '\u{1680}' || ('\u{2000}' <= c
        && c <= '\u{200A}') || c == '\u{2028}' || c == '\u{2029}' || c == '\u{202F}'
        || c == '\u{205F}' || c == '\u{3000}'
}

/// Executable check of [`is_whitespace`]
pub fn char_is_whitespace(c: char) -> (res: bool)
    ensures
        res == is_whitespace(c),
{
    c == ' ' || c == '\t' || c == '\n' || c == '\r' || c == '\x0B' || c == '\x0C'
        || c == '\u{85}' || c == '\u{A0}' || c == '\u{1680}' || ('\u{2000}' <= c
        && c <= '\u{200A}') || c == '\u{2028}' || c == '\u{2029}' || c == '\u{202F}'
        || c == '\u{205F}' || c == '\u{3000}'
}

/// Does the text consist only of whitespace (so that trimming it leaves nothing)?
pub open spec fn is_blank(s: Seq<char>) -> bool {
    forall|i: int| 0 <= i < s.len() ==> is_whitespace(#[trigger] s[i])
}

/// Executable check of [`is_blank`]
pub fn str_is_blank(s: &str) -> (res: bool)
    ensures
        res == is_blank(s@),
{
    let v = to_chars(s);
    let mut i: usize = 0;
    while i < v.len()
        invariant
            v@ == s@,
            0 <= i <= v@.len(),
            forall|j: int| 0 <= j < i ==> is_whitespace(#[trigger] v@[j]),
        decreases v@.len() - i,
    {
        if !char_is_whitespace(v[i]) {
            return false;
        }
        i = i + 1;
    }
    true
}

/// Does the text end with the given character?
pub fn str_ends_with_char(s: &str, c: char) -> (res: bool)
    ensures
        res == (s@.len() > 0 && s@.last() == c),
{
    let v = to_chars(s);
    v.len() > 0 && v[v.len() - 1] == c
}

/// Does the text contain the given character?
pub fn str_contains_char(s: &str, c: char) -> (res: bool)
    ensures
        res == s@.contains(c),
{
    let v = to_chars(s);
    let mut i: usize = 0;
    while i < v.len()
        invariant
            v@ == s@,
            0 <= i <= v@.len(),
            forall|j: int| 0 <= j < i ==> v@[j] != c,
        decreases v@.len() - i,
    {
        if v[i] == c {
            return true;
        }
        i = i + 1;
    }
    false
}

/// The number of whitespace characters at the start of a text
pub open spec fn leading_ws(s: Seq<char>) -> nat
    decreases s.len(),
{
    if s.len() == 0 {
        0
    } else if is_whitespace(s[0]) {
        1 + leading_ws(s.skip(1))
    } else {
        0
    }
}

/// The number of whitespace characters at the end of a text
pub open spec fn trailing_ws(s: Seq<char>) -> nat
    decreases s.len(),
{
    if s.len() == 0 {
        0
    } else if is_whitespace(s.last()) {
        1 + trailing_ws(s.drop_last())
    } else {
        0
    }
}

/// The text without its leading and trailing whitespace (as `str::trim` returns it)
pub open spec fn trimmed(s: Seq<char>) -> Seq<char> {
    if leading_ws(s) >= s.len() {
        Seq::empty()
    } else {
        s.subrange(leading_ws(s) as int, s.len() - trailing_ws(s))
    }
}

proof fn lemma_leading_ws_step(s: Seq<char>, i: int)
    requires
        0 <= i < s.len(),
        forall|j: int| 0 <= j < i ==> is_whitespace(#[trigger] s[j]),
    ensures
        leading_ws(s) == i + leading_ws(s.skip(i)),
    decreases i,
{
    if i > 0 {
        assert(is_whitespace(s[0]));
        assert forall|j: int| 0 <= j < i - 1 implies is_whitespace(#[trigger] s.skip(1)[j]) by {
            assert(s.skip(1)[j] == s[j + 1]);
        }
        lemma_leading_ws_step(s.skip(1), i - 1);
        assert(s.skip(1).skip(i - 1) =~= s.skip(i));
    } else {
        assert(s.skip(0) =~= s);
    }
}

proof fn lemma_trailing_ws_step(s: Seq<char>, i: int)
    requires
        0 <= i < s.len(),
        forall|j: int| s.len() - i <= j < s.len() ==> is_whitespace(#[trigger] s[j]),
    ensures
        trailing_ws(s) == i + trailing_ws(s.take(s.len() - i)),
    decreases i,
{
    if i > 0 {
        assert(is_whitespace(s[s.len() - 1]));
        assert forall|j: int| s.drop_last().len() - (i - 1) <= j < s.drop_last().len() implies is_whitespace(#[trigger] s.drop_last()[j]) by {
            assert(s.drop_last()[j] == s[j]);
        }
        lemma_trailing_ws_step(s.drop_last(), i - 1);
        assert(s.drop_last().take(s.drop_last().len() - (i - 1)) =~= s.take(s.len() - i));
    } else {
        assert(s.take(s.len() as int) =~= s);
    }
}

/// The positions delimiting the trimmed part of a text
pub fn trim_bounds(v: &Vec<char>) -> (res: (usize, usize))
    ensures
        res.0 <= res.1 <= v@.len(),
        v@.subrange(res.0 as int, res.1 as int) == trimmed(v@),
{
    let n = v.len();
    let mut a: usize = 0;
    while a < n && char_is_whitespace(v[a])
        invariant
            0 <= a <= n,
            n == v@.len(),
            forall|j: int| 0 <= j < a ==> is_whitespace(#[trigger] v@[j]),
        decreases n - a,
    {
        a = a + 1;
    }
    if a == n {
        proof {
            lemma_all_ws_leading(v@);
        }
        return (0, 0);
    }
    proof {
        lemma_leading_ws_step(v@, a as int);
        reveal_with_fuel(leading_ws, 2);
        assert(v@.skip(a as int)[0] == v@[a as int]);
    }
    let mut b: usize = n;
    while b > a && char_is_whitespace(v[b - 1])
        invariant
            a < n,
            a <= b <= n,
            n == v@.len(),
            !is_whitespace(v@[a as int]),
            forall|j: int| b <= j < n ==> is_whitespace(#[trigger] v@[j]),
        decreases b,
    {
        b = b - 1;
    }
    proof {
        let i = (n - b) as int;
        if i < n {
            lemma_trailing_ws_step(v@, i);
            let t = v@.take(b as int);
            assert(t.len() > 0);
            assert(t.last() == v@[b - 1]);
            reveal_with_fuel(trailing_ws, 2);
        }
    }
    (a, b)
}

proof fn lemma_all_ws_leading(s: Seq<char>)
    requires
        forall|j: int| 0 <= j < s.len() ==> is_whitespace(#[trigger] s[j]),
    ensures
        leading_ws(s) == s.len(),
    decreases s.len(),
{
    if s.len() > 0 {
        assert forall|j: int| 0 <= j < s.skip(1).len() implies is_whitespace(#[trigger] s.skip(1)[j]) by {
            assert(s.skip(1)[j] == s[j + 1]);
        }
        lemma_all_ws_leading(s.skip(1));
    }
}

/// The text without its leading and trailing whitespace
pub fn trim(s: &str) -> (res: String)
    ensures
        res@ == trimmed(s@),
{
    let v = to_chars(s);
    let (a, b) = trim_bounds(&v);
    string_of_range(&v, a, b)
}


/// The code of a character, with ASCII upper-case letters mapped to lower case
pub open spec fn ascii_lower_code(c: char) -> u32 {
    if 'A' <= c && c <= 'Z' {
        (c as u32 + 32) as u32
    } else {
        c as u32
    }
}

/// Are two texts equal once ASCII letters are folded to lower case?
pub open spec fn eq_ignore_ascii_case_spec(a: Seq<char>, b: Seq<char>) -> bool {
    &&& a.len() == b.len()
    &&& forall|i: int| 0 <= i < a.len() ==> ascii_lower_code(#[trigger] a[i]) == ascii_lower_code(b[i])
}

/// The code of a character with ASCII upper-case letters mapped to lower case
fn lower_code(c: char) -> (res: u32)
    ensures
        res == ascii_lower_code(c),
{
    if 'A' <= c && c <= 'Z' {
        c as u32 + 32
    } else {
        c as u32
    }
}

/// Are two string slices equal, ignoring the case of ASCII letters (`str::eq_ignore_ascii_case`)?
pub fn eq_ignore_ascii_case(a: &str, b: &str) -> (res: bool)
    ensures
        res == eq_ignore_ascii_case_spec(a@, b@),
{
    let va = to_chars(a);
    let vb = to_chars(b);
    if va.len() != vb.len() {
        return false;
    }
    let mut i: usize = 0;
    while i < va.len()
        invariant
            va@ == a@,
            vb@ == b@,
            va@.len() == vb@.len(),
            0 <= i <= va@.len(),
            forall|j: int| 0 <= j < i ==> ascii_lower_code(#[trigger] va@[j]) == ascii_lower_code(vb@[j]),
        decreases va@.len() - i,
    {
        if lower_code(va[i]) != lower_code(vb[i]) {
            return false;
        }
        i = i + 1;
    }
    true
}

/// Does the text start with the given character?
pub fn str_starts_with_char(s: &str, c: char) -> (res: bool)
    ensures
        res == (s@.len() > 0 && s@[0] == c),
{
    let v = to_chars(s);
    v.len() > 0 && v[0] == c
}


/// The decimal digit of a number below ten
pub open spec fn digit_char(d: nat) -> char {
    if d == 0 { '0' } else if d == 1 { '1' } else if d == 2 { '2' } else if d == 3 { '3' } else if d == 4 { '4' }
    else if d == 5 { '5' } else if d == 6 { '6' } else if d == 7 { '7' } else if d == 8 { '8' } else { '9' }
}

/// The decimal representation of a number (as `Display` writes it)
pub open spec fn decimal(n: nat) -> Seq<char>
    decreases n,
{
    if n < 10 {
        seq![digit_char(n)]
    } else {
        decimal(n / 10) + seq![digit_char(n % 10)]
    }
}

fn digit_of(d: usize) -> (res: char)
    requires
        d < 10,
    ensures
        res == digit_char(d as nat),
{
    if d == 0 { '0' } else if d == 1 { '1' } else if d == 2 { '2' } else if d == 3 { '3' } else if d == 4 { '4' }
    else if d == 5 { '5' } else if d == 6 { '6' } else if d == 7 { '7' } else if d == 8 { '8' } else { '9' }
}

/// The decimal representation of a number
pub fn decimal_string(n: usize) -> (res: String)
    ensures
        res@ == decimal(n as nat),
    decreases n,
{
    let mut s = if n < 10 {
        String::new()
    } else {
        decimal_string(n / 10)
    };
    push_char(&mut s, digit_of(n % 10));
    s
}

/// Does the buffer look like the contents of a binary file, holding a NUL byte?
pub fn buffer_is_binary(buf: &[u8]) -> (res: bool)
    ensures
        res == buf@.contains(0u8),
{
    let mut i: usize = 0;
    while i < buf.len()
        invariant
            0 <= i <= buf@.len(),
            forall|j: int| 0 <= j < i ==> buf@[j] != 0u8,
        decreases buf@.len() - i,
    {
        if buf[i] == 0 {
            assert(buf@[i as int] == 0u8);
            return true;
        }
        i = i + 1;
    }
    false
}

/// The number of whitespace characters at the start of the characters `from..to`
pub fn leading_ws_count(v: &Vec<char>, from: usize, to: usize) -> (res: usize)
    requires
        from <= to <= v@.len(),
    ensures
        res == leading_ws(v@.subrange(from as int, to as int)),
        res <= to - from,
{
    let ghost s = v@.subrange(from as int, to as int);
    let mut a: usize = from;
    while a < to && char_is_whitespace(v[a])
        invariant
            from <= a <= to <= v@.len(),
            s == v@.subrange(from as int, to as int),
            forall|j: int| 0 <= j < a - from ==> is_whitespace(#[trigger] s[j]),
        decreases to - a,
    {
        a = a + 1;
    }
    proof {
        if a == to {
            lemma_all_ws_leading(s);
        } else {
            lemma_leading_ws_step(s, a - from);
            assert(s.skip(a - from)[0] == v@[a as int]);
            reveal_with_fuel(leading_ws, 2);
        }
    }
    a - from
}


/// Does `a` come strictly before `b` in the lexicographic order of their characters? This is
/// the order of `str`: UTF-8 encoding keeps the order of code points.
pub open spec fn lex_less(a: Seq<char>, b: Seq<char>) -> bool
    decreases a.len(),
{
    if b.len() == 0 {
        false
    } else if a.len() == 0 {
        true
    } else if a[0] != b[0] {
        (a[0] as u32) < (b[0] as u32)
    } else {
        lex_less(a.skip(1), b.skip(1))
    }
}

/// No text comes strictly before itself, and of two texts at most one comes before the other
pub proof fn lemma_lex_less_asymmetric(a: Seq<char>, b: Seq<char>)
    ensures
        lex_less(a, b) ==> !lex_less(b, a),
        !lex_less(a, a),
    decreases a.len(),
{
    if a.len() > 0 && b.len() > 0 && a[0] == b[0] {
        lemma_lex_less_asymmetric(a.skip(1), b.skip(1));
    }
    if a.len() > 0 {
        lemma_lex_less_asymmetric(a.skip(1), a.skip(1));
    }
}

/// Does the first string slice come strictly before the second one, as `<` orders them?
pub fn str_less(a: &str, b: &str) -> (res: bool)
    ensures
        res == lex_less(a@, b@),
{
    let va = to_chars(a);
    let vb = to_chars(b);
    let mut i: usize = 0;
    assert(va@.skip(0) =~= va@);
    assert(vb@.skip(0) =~= vb@);
    while i < va.len() && i < vb.len()
        invariant
            va@ == a@,
            vb@ == b@,
            0 <= i <= va@.len(),
            i <= vb@.len(),
            lex_less(a@, b@) == lex_less(va@.skip(i as int), vb@.skip(i as int)),
        decreases va@.len() - i,
    {
        let x = va[i];
        let y = vb[i];
        if x != y {
            return (x as u32) < (y as u32);
        }
        assert(va@.skip(i as int).skip(1) =~= va@.skip(i + 1));
        assert(vb@.skip(i as int).skip(1) =~= vb@.skip(i + 1));
        i = i + 1;
    }
    va.len() < vb.len()
}


/// The number of bytes of the UTF-8 encoding of a text
pub open spec fn byte_len(s: Seq<char>) -> nat {
    vstd::utf8::encode_utf8(s).len()
}

/// The encoding of two texts one after the other is the encodings one after the other
pub proof fn lemma_encode_concat(a: Seq<char>, b: Seq<char>)
    ensures
        vstd::utf8::encode_utf8(a + b) == vstd::utf8::encode_utf8(a) + vstd::utf8::encode_utf8(b),
    decreases a.len(),
{
    if a.len() > 0 {
        assert((a + b).drop_first() =~= a.drop_first() + b);
        lemma_encode_concat(a.drop_first(), b);
        assert((a + b)[0] == a[0]);
        assert(vstd::utf8::encode_utf8(a + b) =~= vstd::utf8::encode_utf8(a) + vstd::utf8::encode_utf8(b));
    } else {
        assert(a + b =~= b);
        assert(vstd::utf8::encode_utf8(a) =~= Seq::<u8>::empty());
        assert(vstd::utf8::encode_utf8(a) + vstd::utf8::encode_utf8(b) =~= vstd::utf8::encode_utf8(b));
    }
}

/// The number of bytes of each character: between one and four
pub proof fn lemma_char_bytes(c: char)
    ensures
        1 <= vstd::utf8::encode_scalar(c as u32).len() <= 4,
{
}

/// Byte lengths add up, each character counting at least one byte
pub proof fn lemma_byte_len(a: Seq<char>, b: Seq<char>)
    ensures
        byte_len(a + b) == byte_len(a) + byte_len(b),
        a.len() <= byte_len(a),
        a.len() > 0 <==> byte_len(a) > 0,
    decreases a.len(),
{
    lemma_encode_concat(a, b);
    if a.len() > 0 {
        lemma_char_bytes(a[0]);
        lemma_byte_len(a.drop_first(), b);
    }
}

/// A single character takes the bytes of its encoding
pub proof fn lemma_byte_len_single(c: char)
    ensures
        byte_len(seq![c]) == vstd::utf8::encode_scalar(c as u32).len(),
{
    reveal_with_fuel(vstd::utf8::encode_utf8, 2);
    assert(seq![c].drop_first() =~= Seq::<char>::empty());
}

/// The number of bytes of the UTF-8 encoding of a character
pub fn char_byte_len(c: char) -> (res: usize)
    ensures
        res == vstd::utf8::encode_scalar(c as u32).len(),
        1 <= res <= 4,
{
    let v = c as u32;
    if v <= 0x7F {
        1
    } else if v <= 0x7FF {
        2
    } else if v <= 0xFFFF {
        proof {
            vstd::utf8::char_is_scalar(c);
        }
        3
    } else {
        proof {
            vstd::utf8::char_is_scalar(c);
        }
        4
    }
}

/// The number of bytes of a string slice
pub fn str_byte_len(s: &str) -> (res: usize)
    ensures
        res == byte_len(s@),
{
    s.as_bytes().len()
}

/// The number of bytes of the characters `v[from..to]`, when that of all characters fits
pub fn range_byte_len(v: &Vec<char>, from: usize, to: usize) -> (res: usize)
    requires
        from <= to <= v@.len(),
        byte_len(v@) <= usize::MAX,
    ensures
        res == byte_len(v@.subrange(from as int, to as int)),
{
    let mut res: usize = 0;
    let mut i = from;
    proof {
        assert(v@.subrange(from as int, from as int) =~= Seq::<char>::empty());
        lemma_byte_len(Seq::<char>::empty(), Seq::<char>::empty());
    }
    while i < to
        invariant
            from <= i <= to <= v@.len(),
            byte_len(v@) <= usize::MAX,
            res == byte_len(v@.subrange(from as int, i as int)),
        decreases to - i,
    {
        proof {
            let a = v@.subrange(from as int, i + 1);
            assert(a =~= v@.subrange(from as int, i as int) + seq![v@[i as int]]);
            lemma_byte_len(v@.subrange(from as int, i as int), seq![v@[i as int]]);
            lemma_byte_len_single(v@[i as int]);
            assert(v@ =~= v@.subrange(0, from as int) + (a + v@.subrange(i + 1, v@.len() as int)));
            lemma_byte_len(v@.subrange(0, from as int), a + v@.subrange(i + 1, v@.len() as int));
            lemma_byte_len(a, v@.subrange(i + 1, v@.len() as int));
        }
        let n = char_byte_len(v[i]);
        res = res + n;
        i = i + 1;
    }
    res
}

/// The encoding of a text splits at any position into the encodings of both parts
pub proof fn lemma_encode_split(t: Seq<char>, a: int, b: int, c: int)
    requires
        0 <= a <= b <= c <= t.len(),
    ensures
        vstd::utf8::encode_utf8(t.subrange(a, c)) == vstd::utf8::encode_utf8(t.subrange(a, b)) + vstd::utf8::encode_utf8(t.subrange(b, c)),
        byte_len(t.subrange(a, c)) == byte_len(t.subrange(a, b)) + byte_len(t.subrange(b, c)),
{
    assert(t.subrange(a, c) =~= t.subrange(a, b) + t.subrange(b, c));
    lemma_encode_concat(t.subrange(a, b), t.subrange(b, c));
}

/// The encoding of a part of a text is the part of the encoding of the text between the byte
/// positions of its ends
pub proof fn lemma_encode_subrange(t: Seq<char>, a: int, b: int)
    requires
        0 <= a <= b <= t.len(),
    ensures
        byte_len(t.take(a)) <= byte_len(t.take(b)) <= byte_len(t),
        byte_len(t.take(b)) == byte_len(t.take(a)) + byte_len(t.subrange(a, b)),
        vstd::utf8::encode_utf8(t.subrange(a, b)) == vstd::utf8::encode_utf8(t).subrange(byte_len(t.take(a)) as int, byte_len(t.take(b)) as int),
{
    assert(t.take(a) =~= t.subrange(0, a));
    assert(t.take(b) =~= t.subrange(0, b));
    assert(t =~= t.subrange(0, t.len() as int));
    lemma_encode_split(t, 0, a, b);
    lemma_encode_split(t, 0, b, t.len() as int);
    let e = vstd::utf8::encode_utf8(t);
    assert(e == vstd::utf8::encode_utf8(t.subrange(0, a)) + vstd::utf8::encode_utf8(t.subrange(a, b)) + vstd::utf8::encode_utf8(t.subrange(b, t.len() as int)));
    assert(vstd::utf8::encode_utf8(t.subrange(a, b)) =~= e.subrange(byte_len(t.take(a)) as int, byte_len(t.take(b)) as int));
}

/// A part of a text takes no more bytes than a larger part
pub proof fn lemma_byte_len_within(t: Seq<char>, a: int, b: int, c: int, d: int)
    requires
        0 <= c <= a <= b <= d <= t.len(),
    ensures
        byte_len(t.subrange(a, b)) <= byte_len(t.subrange(c, d)),
{
    lemma_encode_split(t, c, a, d);
    lemma_encode_split(t, a, b, d);
}
} // verus!
