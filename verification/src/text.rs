//! Characters and strings: classification, conversion between `str` and
//! character sequences, and the text transformations built on them.

use vstd::prelude::*;

verus! {

/// Collects the characters of a string slice.
pub fn str_chars(s: &str) -> (v: Vec<char>)
    ensures
        v@ == s@,
{
    let mut v: Vec<char> = Vec::new();
    for c in it: s.chars()
        invariant
            v@ == it.seq().take(it.index() as int),
            it.seq() == s@,
    {
        v.push(c);
    }
    v
}

/// `String::push`: appends one character.
#[verifier::external_body]
pub(crate) fn string_push(s: &mut String, c: char)
    ensures
        final(s)@ == old(s)@.push(c),
{
    s.push(c);
}

/// Builds a string from a sequence of characters.
pub fn chars_to_string(v: &Vec<char>) -> (s: String)
    ensures
        s@ == v@,
{
    let mut s = String::new();
    for i in 0..v.len()
        invariant
            s@ == v@.take(i as int),
    {
        string_push(&mut s, v[i]);
        assert(v@.take(i + 1) =~= v@.take(i as int).push(v@[i as int]));
    }
    assert(v@.take(v.len() as int) =~= v@);
    s
}

// ─── Character classes ───────────────────────────────────────────────────────

/// Unicode `White_Space`: the characters for which `char::is_whitespace` holds.
pub open spec fn is_ws(c: char) -> bool {
    let u = c as u32;
    (0x9 <= u <= 0xD) || u == 0x20 || u == 0x85 || u == 0xA0 || u == 0x1680 || (0x2000 <= u
        <= 0x200A) || u == 0x2028 || u == 0x2029 || u == 0x202F || u == 0x205F || u == 0x3000
}

/// Whether `c` is Unicode whitespace (same as `char::is_whitespace`).
pub fn is_whitespace(c: char) -> (b: bool)
    ensures
        b == is_ws(c),
{
    let u = c as u32;
    (0x9 <= u && u <= 0xD) || u == 0x20 || u == 0x85 || u == 0xA0 || u == 0x1680 || (0x2000 <= u
        && u <= 0x200A) || u == 0x2028 || u == 0x2029 || u == 0x202F || u == 0x205F || u == 0x3000
}

/// Unicode general category `Cc`: the characters for which `char::is_control` holds.
pub open spec fn is_cc(c: char) -> bool {
    let u = c as u32;
    u <= 0x1F || (0x7F <= u <= 0x9F)
}

/// Whether `c` is a control character (same as `char::is_control`).
pub fn is_control(c: char) -> (b: bool)
    ensures
        b == is_cc(c),
{
    let u = c as u32;
    u <= 0x1F || (0x7F <= u && u <= 0x9F)
}

/// The Unicode `Alphabetic` property of a character, as `char::is_alphabetic`
/// reports it.
pub uninterp spec fn alphabetic(c: char) -> bool;

/// Whether `c` is an ASCII letter.
pub open spec fn is_ascii_letter(c: char) -> bool {
    ('a' <= c <= 'z') || ('A' <= c <= 'Z')
}

/// `char::is_alphabetic`: the result is named `alphabetic(c)`. Among ASCII
/// characters exactly the letters are alphabetic; the Unicode tables it
/// consults for other characters are not written out here.
#[verifier::external_body]
pub(crate) fn char_is_alphabetic(c: char) -> (b: bool)
    ensures
        b == alphabetic(c),
        (c as u32) < 128 ==> (b <==> is_ascii_letter(c)),
{
    c.is_alphabetic()
}

/// The Unicode lowercase mapping of a string, as `str::to_lowercase` computes it.
pub uninterp spec fn lowercase(s: Seq<char>) -> Seq<char>;

/// The ASCII lowercase of a character: `A`..`Z` moved to `a`..`z`, every
/// other character kept.
pub open spec fn ascii_lower(c: char) -> char {
    if 'A' <= c <= 'Z' {
        ((c as u32) + 32) as char
    } else {
        c
    }
}

/// Whether every character of `s` is ASCII.
pub open spec fn all_ascii(s: Seq<char>) -> bool {
    forall|i: int| 0 <= i < s.len() ==> (s[i] as u32) < 128
}

/// `str::to_lowercase`: the result is named `lowercase(s)`. On ASCII text it
/// lowercases the letters one for one; the Unicode case tables (and the
/// context rule for final sigma) used for other text are not written out here.
#[verifier::external_body]
pub(crate) fn str_to_lowercase(s: &str) -> (r: String)
    ensures
        r@ == lowercase(s@),
        all_ascii(s@) ==> r@ == s@.map_values(|c: char| ascii_lower(c)),
{
    s.to_lowercase()
}

/// Number of bytes in the UTF-8 encoding of a character sequence.
pub open spec fn utf8_len(t: Seq<char>) -> nat {
    vstd::utf8::encode_utf8(t).len()
}

proof fn lemma_utf8_len_ge(t: Seq<char>)
    ensures
        utf8_len(t) >= t.len(),
    decreases t.len(),
{
    if t.len() > 0 {
        lemma_utf8_len_ge(t.drop_first());
    }
}

/// Whether the UTF-8 encoding of `t` is longer than one byte.
pub fn longer_than_one_byte(t: &Vec<char>) -> (b: bool)
    ensures
        b == (utf8_len(t@) > 1),
{
    if t.len() >= 2 {
        proof {
            lemma_utf8_len_ge(t@);
        }
        true
    } else if t.len() == 1 {
        let u = t[0] as u32;
        proof {
            assert(t@.drop_first() =~= seq![]);
            assert(vstd::utf8::encode_utf8(t@) =~= vstd::utf8::encode_scalar(u) + vstd::utf8::encode_utf8(seq![]));
        }
        u >= 0x80
    } else {
        false
    }
}

// ─── Trimming ────────────────────────────────────────────────────────────────

/// `s` without its leading whitespace.
pub open spec fn trim_start(s: Seq<char>) -> Seq<char>
    decreases s.len(),
{
    if s.len() > 0 && is_ws(s[0]) {
        trim_start(s.drop_first())
    } else {
        s
    }
}

/// `s` without its trailing whitespace.
pub open spec fn trim_end(s: Seq<char>) -> Seq<char>
    decreases s.len(),
{
    if s.len() > 0 && is_ws(s.last()) {
        trim_end(s.drop_last())
    } else {
        s
    }
}

/// `s` without leading and trailing whitespace (as `str::trim`).
pub open spec fn trim(s: Seq<char>) -> Seq<char> {
    trim_end(trim_start(s))
}

/// The characters `v[from..to]` as a string.
pub fn slice_to_string(v: &Vec<char>, from: usize, to: usize) -> (s: String)
    requires
        from <= to <= v@.len(),
    ensures
        s@ == v@.subrange(from as int, to as int),
{
    let mut s = String::new();
    let mut i = from;
    while i < to
        invariant
            from <= i <= to <= v@.len(),
            s@ == v@.subrange(from as int, i as int),
        decreases to - i,
    {
        string_push(&mut s, v[i]);
        assert(v@.subrange(from as int, i + 1) =~= v@.subrange(from as int, i as int).push(v@[i as int]));
        i = i + 1;
    }
    s
}

/// The characters of `v` without leading and trailing whitespace.
pub fn trim_chars(v: &Vec<char>) -> (s: String)
    ensures
        s@ == trim(v@),
{
    let n = v.len();
    let mut i: usize = 0;
    assert(v@.subrange(0, n as int) =~= v@);
    while i < n && is_whitespace(v[i])
        invariant
            i <= n == v@.len(),
            trim_start(v@) == trim_start(v@.subrange(i as int, n as int)),
        decreases n - i,
    {
        assert(v@.subrange(i as int, n as int).drop_first() =~= v@.subrange(i + 1, n as int));
        i = i + 1;
    }
    assert(trim_start(v@) == v@.subrange(i as int, n as int)) by {
        if i < n {
            assert(v@.subrange(i as int, n as int)[0] == v@[i as int]);
        }
    }
    let mut j: usize = n;
    while j > i && is_whitespace(v[j - 1])
        invariant
            i <= j <= n == v@.len(),
            trim(v@) == trim_end(v@.subrange(i as int, j as int)),
        decreases j,
    {
        assert(v@.subrange(i as int, j as int).drop_last() =~= v@.subrange(i as int, j - 1));
        j = j - 1;
    }
    assert(trim(v@) == v@.subrange(i as int, j as int)) by {
        if j > i {
            assert(v@.subrange(i as int, j as int).last() == v@[j - 1]);
        }
    }
    slice_to_string(v, i, j)
}

// ─── Tokenizing ──────────────────────────────────────────────────────────────

/// Whether a piece between separators is kept as a token: more than one byte long.
pub open spec fn keep_token(t: Seq<char>) -> bool {
    utf8_len(t) > 1
}

/// Tokens emitted so far and the piece being read, after scanning `s`, where
/// every non-alphabetic character ends a piece.
pub open spec fn token_scan(s: Seq<char>) -> (Seq<Seq<char>>, Seq<char>)
    decreases s.len(),
{
    if s.len() == 0 {
        (seq![], seq![])
    } else {
        let (toks, cur) = token_scan(s.drop_last());
        let c = s.last();
        if alphabetic(c) {
            (toks, cur.push(c))
        } else if keep_token(cur) {
            (toks.push(cur), seq![])
        } else {
            (toks, seq![])
        }
    }
}

/// The maximal runs of alphabetic characters of `s` that are longer than one byte.
pub open spec fn alpha_tokens(s: Seq<char>) -> Seq<Seq<char>> {
    let (toks, cur) = token_scan(s);
    if keep_token(cur) {
        toks.push(cur)
    } else {
        toks
    }
}

/// The tokens of a text: its lowercase form split at every non-alphabetic
/// character, keeping the pieces longer than one byte.
pub open spec fn tokenize_spec(text: Seq<char>) -> Seq<Seq<char>> {
    alpha_tokens(lowercase(text))
}

/// The views of a list of strings.
pub open spec fn strings_view(v: Seq<String>) -> Seq<Seq<char>> {
    v.map_values(|s: String| s@)
}

/// Splits lowercased text into alphabetic tokens of more than one byte.
pub fn tokenize(text: &str) -> (toks: Vec<String>)
    ensures
        strings_view(toks@) == tokenize_spec(text@),
{
    let lower = str_to_lowercase(text);
    let chars = str_chars(lower.as_str());
    let mut toks: Vec<String> = Vec::new();
    let mut cur: Vec<char> = Vec::new();
    for i in 0..chars.len()
        invariant
            chars@ == lowercase(text@),
            strings_view(toks@) == token_scan(chars@.take(i as int)).0,
            cur@ == token_scan(chars@.take(i as int)).1,
    {
        let c = chars[i];
        let ghost pre = chars@.take(i as int);
        assert(chars@.take(i + 1).drop_last() =~= pre);
        assert(chars@.take(i + 1).last() == c);
        if char_is_alphabetic(c) {
            cur.push(c);
        } else {
            let t = chars_to_string(&cur);
            if longer_than_one_byte(&cur) {
                toks.push(t);
                assert(strings_view(toks@) =~= token_scan(pre).0.push(t@));
            }
            cur = Vec::new();
            assert(cur@ =~= seq![]);
        }
    }
    assert(chars@.take(chars.len() as int) =~= chars@);
    let t = chars_to_string(&cur);
    if longer_than_one_byte(&cur) {
        toks.push(t);
        assert(strings_view(toks@) =~= token_scan(chars@).0.push(t@));
    }
    assert(alpha_tokens(chars@) == strings_view(toks@));
    toks
}

// ─── Decimal numbers ─────────────────────────────────────────────────────────

/// The decimal digit character of `d < 10`.
pub open spec fn digit_char(d: int) -> char {
    (48 + d) as char
}

/// The decimal representation of `n`, without leading zeros.
pub open spec fn decimal(n: nat) -> Seq<char>
    decreases n,
{
    if n < 10 {
        seq![digit_char(n as int)]
    } else {
        decimal(n / 10).push(digit_char((n % 10) as int))
    }
}

/// Appends the decimal representation of `n` to `s`.
pub fn push_decimal(s: &mut String, n: u64)
    ensures
        final(s)@ == old(s)@ + decimal(n as nat),
    decreases n,
{
    if n >= 10 {
        push_decimal(s, n / 10);
    }
    let d = (n % 10) as u8;
    string_push(s, (48u8 + d) as char);
    assert(final(s)@ =~= old(s)@ + decimal(n as nat));
}

/// `prefix`, the decimal form of `n`, an underscore, then `text`: the seed
/// string of one Monte Carlo iteration.
pub open spec fn seed_text(prefix: Seq<char>, n: nat, text: Seq<char>) -> Seq<char> {
    prefix + decimal(n) + seq!['_'] + text
}

/// Builds `seed_text(prefix, n, text)`.
pub fn seed_string(prefix: &str, n: u64, text: &str) -> (s: String)
    ensures
        s@ == seed_text(prefix@, n as nat, text@),
{
    let mut s = String::from_str(prefix);
    push_decimal(&mut s, n);
    string_push(&mut s, '_');
    s.append(text);
    assert(s@ =~= seed_text(prefix@, n as nat, text@));
    s
}

// ─── Cleaning and tag stripping ──────────────────────────────────────────────

/// The text produced so far, and whether the last character kept was
/// whitespace (true at the start), after cleaning `s`: control characters other
/// than newline are dropped, each run of whitespace becomes one space.
pub open spec fn clean_scan(s: Seq<char>) -> (Seq<char>, bool)
    decreases s.len(),
{
    if s.len() == 0 {
        (seq![], true)
    } else {
        let (out, last_space) = clean_scan(s.drop_last());
        let c = s.last();
        if is_cc(c) && c != '\n' {
            (out, last_space)
        } else if is_ws(c) {
            (if !last_space { out.push(' ') } else { out }, true)
        } else {
            (out.push(c), false)
        }
    }
}

/// `s` with control characters (other than newline) removed, whitespace runs
/// collapsed to single spaces, and the ends trimmed.
pub open spec fn clean_spec(s: Seq<char>) -> Seq<char> {
    trim(clean_scan(s).0)
}

/// Removes control characters (other than newline), collapses each run of
/// whitespace (newlines included) into one space, and trims the ends.
pub fn clean_text(s: &str) -> (r: String)
    ensures
        r@ == clean_spec(s@),
{
    let cs = str_chars(s);
    let mut out: Vec<char> = Vec::new();
    let mut last_space = true;
    for i in 0..cs.len()
        invariant
            cs@ == s@,
            (out@, last_space) == clean_scan(cs@.take(i as int)),
    {
        let c = cs[i];
        assert(cs@.take(i + 1).drop_last() =~= cs@.take(i as int));
        if is_control(c) && c != '\n' {
        } else if is_whitespace(c) {
            if !last_space {
                out.push(' ');
            }
            last_space = true;
        } else {
            out.push(c);
            last_space = false;
        }
    }
    assert(cs@.take(cs.len() as int) =~= cs@);
    trim_chars(&out)
}

/// `s` with every `<` and `>` replaced by a space and the characters between a
/// `<` and the next `>` removed; the flag tells whether the scan ends inside a tag.
pub open spec fn strip_scan(s: Seq<char>) -> (Seq<char>, bool)
    decreases s.len(),
{
    if s.len() == 0 {
        (seq![], false)
    } else {
        let (out, in_tag) = strip_scan(s.drop_last());
        let c = s.last();
        if c == '<' {
            (out.push(' '), true)
        } else if c == '>' {
            (out.push(' '), false)
        } else if !in_tag {
            (out.push(c), in_tag)
        } else {
            (out, in_tag)
        }
    }
}

/// Replaces every `<` and `>` with a space and drops the characters inside tags.
pub fn strip_tags(s: &str) -> (r: String)
    ensures
        r@ == strip_scan(s@).0,
{
    let cs = str_chars(s);
    let mut out: Vec<char> = Vec::new();
    let mut in_tag = false;
    for i in 0..cs.len()
        invariant
            cs@ == s@,
            (out@, in_tag) == strip_scan(cs@.take(i as int)),
    {
        let c = cs[i];
        assert(cs@.take(i + 1).drop_last() =~= cs@.take(i as int));
        if c == '<' {
            in_tag = true;
            out.push(' ');
        } else if c == '>' {
            in_tag = false;
            out.push(' ');
        } else if !in_tag {
            out.push(c);
        }
    }
    assert(cs@.take(cs.len() as int) =~= cs@);
    chars_to_string(&out)
}

// ─── Words and chunks ────────────────────────────────────────────────────────

/// Words completed so far and the word being read, after scanning `s`, where
/// whitespace separates words (as `str::split_whitespace`).
pub open spec fn word_scan(s: Seq<char>) -> (Seq<Seq<char>>, Seq<char>)
    decreases s.len(),
{
    if s.len() == 0 {
        (seq![], seq![])
    } else {
        let (ws, cur) = word_scan(s.drop_last());
        let c = s.last();
        if !is_ws(c) {
            (ws, cur.push(c))
        } else if cur.len() > 0 {
            (ws.push(cur), seq![])
        } else {
            (ws, seq![])
        }
    }
}

/// The maximal runs of non-whitespace characters of `s`.
pub open spec fn words_spec(s: Seq<char>) -> Seq<Seq<char>> {
    let (ws, cur) = word_scan(s);
    if cur.len() > 0 {
        ws.push(cur)
    } else {
        ws
    }
}

/// The views of a list of character vectors.
pub open spec fn char_vecs_view(v: Seq<Vec<char>>) -> Seq<Seq<char>> {
    v.map_values(|w: Vec<char>| w@)
}

/// The whitespace-separated words of `s`.
pub fn split_words(s: &str) -> (ws: Vec<Vec<char>>)
    ensures
        char_vecs_view(ws@) == words_spec(s@),
{
    let cs = str_chars(s);
    let mut ws: Vec<Vec<char>> = Vec::new();
    let mut cur: Vec<char> = Vec::new();
    for i in 0..cs.len()
        invariant
            cs@ == s@,
            char_vecs_view(ws@) == word_scan(cs@.take(i as int)).0,
            cur@ == word_scan(cs@.take(i as int)).1,
    {
        let c = cs[i];
        let ghost pre = cs@.take(i as int);
        assert(cs@.take(i + 1).drop_last() =~= pre);
        assert(cs@.take(i + 1).last() == c);
        if !is_whitespace(c) {
            cur.push(c);
        } else {
            if cur.len() > 0 {
                let ghost cv = cur@;
                ws.push(cur);
                assert(char_vecs_view(ws@) =~= word_scan(pre).0.push(cv));
            }
            cur = Vec::new();
            assert(cur@ =~= seq![]);
        }
    }
    assert(cs@.take(cs.len() as int) =~= cs@);
    if cur.len() > 0 {
        let ghost cv = cur@;
        ws.push(cur);
        assert(char_vecs_view(ws@) =~= word_scan(cs@).0.push(cv));
    }
    ws
}

/// The words joined with single spaces.
pub open spec fn join_words(ws: Seq<Seq<char>>) -> Seq<char>
    decreases ws.len(),
{
    if ws.len() == 0 {
        seq![]
    } else if ws.len() == 1 {
        ws[0]
    } else {
        join_words(ws.drop_last()) + seq![' '] + ws.last()
    }
}

/// Joins `ws[from..to]` with single spaces.
pub fn join_range(ws: &Vec<Vec<char>>, from: usize, to: usize) -> (s: String)
    requires
        from <= to <= ws@.len(),
    ensures
        s@ == join_words(char_vecs_view(ws@).subrange(from as int, to as int)),
{
    let ghost all = char_vecs_view(ws@);
    let mut out: Vec<char> = Vec::new();
    let mut i = from;
    while i < to
        invariant
            from <= i <= to <= ws@.len(),
            all == char_vecs_view(ws@),
            out@ == join_words(all.subrange(from as int, i as int)),
        decreases to - i,
    {
        let ghost before = out@;
        if i > from {
            out.push(' ');
        }
        let w = &ws[i];
        for k in 0..w.len()
            invariant
                out@ == (if i > from { before + seq![' '] } else { before }) + w@.take(k as int),
        {
            out.push(w[k]);
            assert(w@.take(k + 1) =~= w@.take(k as int).push(w@[k as int]));
        }
        proof {
            assert(w@.take(w@.len() as int) =~= w@);
            let sub = all.subrange(from as int, i + 1);
            assert(sub.drop_last() =~= all.subrange(from as int, i as int));
            assert(sub.last() == w@);
            if i == from {
                assert(before =~= seq![]);
                assert(out@ =~= join_words(sub));
            } else {
                assert(out@ =~= join_words(sub));
            }
        }
        i = i + 1;
    }
    chars_to_string(&out)
}

/// The chunks starting at word `i`: words `i..min(i + max, n)` joined, then the
/// chunks starting `step` words later, until a chunk reaches the last word.
pub open spec fn chunks_from(ws: Seq<Seq<char>>, i: int, max: int, step: int) -> Seq<Seq<char>>
    decreases ws.len() - i,
{
    if i < 0 || i >= ws.len() || step <= 0 || max <= 0 || step > max {
        seq![]
    } else {
        let end = if i + max < ws.len() { i + max } else { ws.len() as int };
        let rest = if end == ws.len() { seq![] } else { chunks_from(ws, i + step, max, step) };
        seq![join_words(ws.subrange(i, end))] + rest
    }
}

/// Overlapping chunks of at most `max` words: no chunk for a text without
/// words; the trimmed text itself when it has at most `max` words; otherwise
/// chunks of `max` words starting every `max - max / 5` words (an overlap of
/// one fifth), the last one ending at the last word.
pub open spec fn chunk_spec(text: Seq<char>, max: nat) -> Seq<Seq<char>> {
    let ws = words_spec(text);
    if ws.len() == 0 {
        seq![]
    } else if ws.len() <= max {
        seq![trim(text)]
    } else {
        chunks_from(ws, 0, max as int, max - max / 5)
    }
}

/// Splits text into overlapping chunks of about `max_words` words, with an
/// overlap of one fifth between neighbouring chunks.
pub fn chunk_text(text: &str, max_words: usize) -> (chunks: Vec<String>)
    requires
        max_words > 0 || words_spec(text@).len() == 0,
    ensures
        strings_view(chunks@) == chunk_spec(text@, max_words as nat),
{
    let words = split_words(text);
    let ghost ws = char_vecs_view(words@);
    if words.len() == 0 {
        let v: Vec<String> = Vec::new();
        assert(strings_view(v@) =~= seq![]);
        return v;
    }
    assert(words@.len() == ws.len());
    if words.len() <= max_words {
        let cs = str_chars(text);
        let t = trim_chars(&cs);
        let mut v: Vec<String> = Vec::new();
        v.push(t);
        assert(strings_view(v@) =~= seq![trim(text@)]);
        return v;
    }
    let overlap = max_words / 5;
    let step = max_words - overlap;
    let n = words.len();
    let mut chunks: Vec<String> = Vec::new();
    let mut i: usize = 0;
    loop
        invariant_except_break
            i < n,
            strings_view(chunks@) + chunks_from(ws, i as int, max_words as int, step as int)
                == chunks_from(ws, 0, max_words as int, step as int),
        invariant
            n == words@.len(),
            ws == char_vecs_view(words@),
            n > max_words > 0,
            step == max_words - max_words / 5,
            step > 0,
        ensures
            strings_view(chunks@) == chunks_from(ws, 0, max_words as int, step as int),
        decreases n - i,
    {
        let end = if max_words < n - i { i + max_words } else { n };
        let c = join_range(&words, i, end);
        let ghost before = strings_view(chunks@);
        chunks.push(c);
        proof {
            assert(strings_view(chunks@) =~= before.push(c@));
            let rest = if end == n { seq![] } else { chunks_from(ws, i + step, max_words as int, step as int) };
            assert(chunks_from(ws, i as int, max_words as int, step as int) =~= seq![c@] + rest);
            assert(before + (seq![c@] + rest) =~= before.push(c@) + rest);
        }
        if end == n {
            assert(strings_view(chunks@) =~= chunks_from(ws, 0, max_words as int, step as int));
            break;
        }
        i = i + step;
    }
    chunks
}

/// The pieces joined with the separator character.
pub open spec fn join_sep(ws: Seq<Seq<char>>, sep: char) -> Seq<char>
    decreases ws.len(),
{
    if ws.len() == 0 {
        seq![]
    } else if ws.len() == 1 {
        ws[0]
    } else {
        join_sep(ws.drop_last(), sep) + seq![sep] + ws.last()
    }
}

/// Appends the strings joined with `sep` to `out`.
pub fn push_joined(out: &mut String, fields: &Vec<String>, sep: char)
    ensures
        final(out)@ == old(out)@ + join_sep(strings_view(fields@), sep),
{
    let ghost start = out@;
    let ghost fs = strings_view(fields@);
    for i in 0..fields.len()
        invariant
            fs == strings_view(fields@),
            out@ == start + join_sep(fs.take(i as int), sep),
    {
        let ghost before = out@;
        if i > 0 {
            string_push(out, sep);
        }
        out.append(fields[i].as_str());
        proof {
            let t = fs.take(i + 1);
            assert(t.drop_last() =~= fs.take(i as int));
            assert(t.last() == fields@[i as int]@);
            if i == 0 {
                assert(fs.take(i as int) =~= seq![]);
                assert(out@ =~= start + join_sep(t, sep));
            } else {
                assert(out@ =~= start + join_sep(t, sep));
            }
        }
    }
    assert(fs.take(fields.len() as int) =~= fs);
}

// ─── Laws ────────────────────────────────────────────────────────────────────

/// Cleaned text: its only whitespace is the plain space, it holds no control
/// character, no two spaces in a row, and no space at either end.
pub open spec fn is_clean(r: Seq<char>) -> bool {
    &&& forall|i: int| 0 <= i < r.len() ==> !is_cc(#[trigger] r[i]) && (is_ws(r[i]) ==> r[i] == ' ')
    &&& forall|i: int, j: int| 0 <= i && j == i + 1 && j < r.len() ==> !(#[trigger] r[i] == ' ' && #[trigger] r[j] == ' ')
    &&& r.len() > 0 ==> r[0] != ' ' && r.last() != ' '
}

proof fn lemma_clean_scan_form(s: Seq<char>)
    ensures
        ({
            let (out, last_space) = clean_scan(s);
            &&& forall|i: int| 0 <= i < out.len() ==> !is_cc(#[trigger] out[i]) && (is_ws(out[i]) ==> out[i] == ' ')
            &&& forall|i: int, j: int|
                0 <= i && j == i + 1 && j < out.len() ==> !(#[trigger] out[i] == ' ' && #[trigger] out[j] == ' ')
            &&& out.len() > 0 ==> out[0] != ' '
            &&& last_space ==> out.len() == 0 || out.last() == ' '
            &&& !last_space ==> out.len() > 0 && out.last() != ' '
        }),
    decreases s.len(),
{
    if s.len() > 0 {
        lemma_clean_scan_form(s.drop_last());
        let (out, ls) = clean_scan(s.drop_last());
        let c = s.last();
        if is_cc(c) && c != '\n' {
        } else if is_ws(c) {
            if !ls {
                let o2 = out.push(' ');
                assert forall|i: int, j: int| 0 <= i && j == i + 1 && j < o2.len() implies !(#[trigger] o2[i] == ' '
                    && #[trigger] o2[j] == ' ') by {
                    if j == o2.len() - 1 {
                        assert(o2[i] == out.last());
                    } else {
                        assert(o2[i] == out[i] && o2[j] == out[j]);
                    }
                }
                assert forall|i: int| 0 <= i < o2.len() implies !is_cc(#[trigger] o2[i]) && (is_ws(o2[i]) ==> o2[i] == ' ') by {
                    if i < out.len() {
                        assert(o2[i] == out[i]);
                    }
                }
            }
        } else {
            let o2 = out.push(c);
            assert(c != '\n');
            assert forall|i: int, j: int| 0 <= i && j == i + 1 && j < o2.len() implies !(#[trigger] o2[i] == ' '
                && #[trigger] o2[j] == ' ') by {
                if j < o2.len() - 1 {
                    assert(o2[i] == out[i] && o2[j] == out[j]);
                }
            }
            assert forall|i: int| 0 <= i < o2.len() implies !is_cc(#[trigger] o2[i]) && (is_ws(o2[i]) ==> o2[i] == ' ') by {
                if i < out.len() {
                    assert(o2[i] == out[i]);
                }
            }
        }
    }
}

/// Cleaned text is in clean form.
pub proof fn law_clean_text_normal_form(s: Seq<char>)
    ensures
        is_clean(clean_spec(s)),
{
    lemma_clean_scan_form(s);
    let out = clean_scan(s).0;
    if out.len() > 0 {
        assert(!is_ws(out[0]));
        assert(trim_start(out) == out);
        if out.last() == ' ' {
            assert(out.len() >= 2);
            let d = out.drop_last();
            assert(out[out.len() - 2] != ' ');
            assert(d.last() == out[out.len() - 2]);
            assert(!is_ws(d.last()));
            assert(trim_end(d) == d);
            assert(trim_end(out) == d);
            assert(d[0] == out[0]);
            assert forall|i: int, j: int| 0 <= i && j == i + 1 && j < d.len() implies !(#[trigger] d[i] == ' '
                && #[trigger] d[j] == ' ') by {
                assert(d[i] == out[i] && d[j] == out[j]);
            }
            assert forall|i: int| 0 <= i < d.len() implies !is_cc(#[trigger] d[i]) && (is_ws(d[i]) ==> d[i] == ' ') by {
                assert(d[i] == out[i]);
            }
        } else {
            assert(!is_ws(out.last()));
            assert(trim_end(out) == out);
        }
    } else {
        assert(trim_start(out) == out);
        assert(trim_end(out) == out);
    }
}

proof fn lemma_clean_scan_of_clean(r: Seq<char>, k: int)
    requires
        is_clean(r),
        0 <= k <= r.len(),
    ensures
        clean_scan(r.take(k)) == (r.take(k), k == 0 || r[k - 1] == ' '),
    decreases k,
{
    if k > 0 {
        lemma_clean_scan_of_clean(r, k - 1);
        assert(r.take(k).drop_last() =~= r.take(k - 1));
        assert(r.take(k).last() == r[k - 1]);
        let c = r[k - 1];
        assert(!is_cc(c));
        if is_ws(c) {
            assert(c == ' ');
            assert(k >= 2);
            assert(!(r[k - 2] == ' ' && r[k - 1] == ' '));
            assert(r.take(k - 1).push(' ') =~= r.take(k));
        } else {
            assert(r.take(k - 1).push(c) =~= r.take(k));
        }
    }
}

/// Cleaning cleaned text changes nothing.
pub proof fn law_clean_text_idempotent(s: Seq<char>)
    ensures
        clean_spec(clean_spec(s)) == clean_spec(s),
{
    let r = clean_spec(s);
    law_clean_text_normal_form(s);
    lemma_clean_scan_of_clean(r, r.len() as int);
    assert(r.take(r.len() as int) =~= r);
    if r.len() > 0 {
        assert(!is_ws(r[0]));
        assert(!is_ws(r.last()));
    }
    assert(trim_start(r) == r);
    assert(trim_end(r) == r);
}

/// The visible characters of `s` (neither whitespace nor control), in order.
pub open spec fn visible(s: Seq<char>) -> Seq<char>
    decreases s.len(),
{
    if s.len() == 0 {
        seq![]
    } else {
        visible(s.drop_last()) + if !is_ws(s.last()) && !is_cc(s.last()) {
            seq![s.last()]
        } else {
            seq![]
        }
    }
}

proof fn lemma_visible_add(a: Seq<char>, b: Seq<char>)
    ensures
        visible(a + b) == visible(a) + visible(b),
    decreases b.len(),
{
    if b.len() == 0 {
        assert(a + b =~= a);
        assert(visible(a) + visible(b) =~= visible(a));
    } else {
        lemma_visible_add(a, b.drop_last());
        assert((a + b).drop_last() =~= a + b.drop_last());
        assert((a + b).last() == b.last());
        assert(visible(a + b) =~= visible(a) + visible(b));
    }
}

proof fn lemma_visible_trim(x: Seq<char>)
    ensures
        visible(trim_start(x)) == visible(x),
        visible(trim_end(x)) == visible(x),
    decreases x.len(),
{
    if x.len() > 0 {
        if is_ws(x[0]) {
            let rest = x.drop_first();
            lemma_visible_trim(rest);
            lemma_visible_add(seq![x[0]], rest);
            assert(seq![x[0]] + rest =~= x);
            assert(seq![x[0]].drop_last() =~= Seq::<char>::empty());
            assert(seq![x[0]].last() == x[0]);
            assert(visible(seq![x[0]].drop_last()) == visible(Seq::<char>::empty()));
            assert(visible(seq![x[0]]) =~= Seq::<char>::empty());
            assert(visible(x) =~= visible(rest));
        }
        if is_ws(x.last()) {
            lemma_visible_trim(x.drop_last());
            assert(visible(x) =~= visible(x.drop_last()));
        }
    }
}

proof fn lemma_visible_clean_scan(s: Seq<char>)
    ensures
        visible(clean_scan(s).0) == visible(s),
    decreases s.len(),
{
    if s.len() > 0 {
        lemma_visible_clean_scan(s.drop_last());
        let (out, ls) = clean_scan(s.drop_last());
        let c = s.last();
        if is_cc(c) && c != '\n' {
            assert(visible(s) =~= visible(s.drop_last()));
        } else if is_ws(c) {
            assert(visible(s) =~= visible(s.drop_last()));
            if !ls {
                assert(out.push(' ').drop_last() =~= out);
                assert(visible(out.push(' ')) =~= visible(out));
            }
        } else {
            assert(out.push(c).drop_last() =~= out);
            assert(visible(out.push(c)) =~= visible(out) + seq![c]);
        }
    }
}

/// Cleaning keeps the visible text: the characters that are neither
/// whitespace nor control characters come out unchanged and in order.
pub proof fn law_clean_text_keeps_visible(s: Seq<char>)
    ensures
        visible(clean_spec(s)) == visible(s),
{
    lemma_visible_clean_scan(s);
    let out = clean_scan(s).0;
    lemma_visible_trim(out);
    lemma_visible_trim(trim_start(out));
}

/// `s` holds no angle bracket.
pub open spec fn no_brackets(s: Seq<char>) -> bool {
    !s.contains('<') && !s.contains('>')
}

proof fn lemma_strip_plain_suffix(a: Seq<char>, b: Seq<char>)
    requires
        no_brackets(b),
    ensures
        strip_scan(a + b) == (strip_scan(a).0 + if strip_scan(a).1 { Seq::<char>::empty() } else { b }, strip_scan(a).1),
    decreases b.len(),
{
    if b.len() == 0 {
        assert(a + b =~= a);
        assert(strip_scan(a).0 + Seq::<char>::empty() =~= strip_scan(a).0);
        assert(strip_scan(a).0 + b =~= strip_scan(a).0);
    } else {
        let c = b.last();
        assert(b[b.len() - 1] == c);
        assert(c != '<' && c != '>');
        assert(no_brackets(b.drop_last())) by {
            if b.drop_last().contains('<') || b.drop_last().contains('>') {
                let k = choose|k: int| 0 <= k < b.drop_last().len() && (b.drop_last()[k] == '<' || b.drop_last()[k] == '>');
                assert(b[k] == b.drop_last()[k]);
            }
        }
        lemma_strip_plain_suffix(a, b.drop_last());
        assert((a + b).drop_last() =~= a + b.drop_last());
        assert((a + b).last() == c);
        if !strip_scan(a).1 {
            assert((strip_scan(a).0 + b.drop_last()).push(c) =~= strip_scan(a).0 + b);
        }
    }
}

/// Tag stripping keeps text without angle brackets as it is, and turns a tag
/// amid such text into two spaces: its brackets become spaces and what it
/// holds is dropped.
pub proof fn law_strip_tags(p: Seq<char>, x: Seq<char>, q: Seq<char>)
    requires
        no_brackets(p),
        no_brackets(x),
        no_brackets(q),
    ensures
        strip_scan(p).0 == p,
        strip_scan(p + seq!['<'] + x + seq!['>'] + q).0 == p + seq![' ', ' '] + q,
{
    lemma_strip_plain_suffix(Seq::<char>::empty(), p);
    assert(Seq::<char>::empty() + p =~= p);
    assert(strip_scan(Seq::<char>::empty()).0 + p =~= p);
    let a1 = p + seq!['<'];
    assert(a1.drop_last() =~= p);
    assert(strip_scan(a1) == (p.push(' '), true));
    lemma_strip_plain_suffix(a1, x);
    let a2 = a1 + x;
    assert(strip_scan(a1).0 + Seq::<char>::empty() =~= p.push(' '));
    let a3 = a2 + seq!['>'];
    assert(a3.drop_last() =~= a2);
    assert(strip_scan(a3) == (p.push(' ').push(' '), false));
    lemma_strip_plain_suffix(a3, q);
    assert(a3 + q =~= p + seq!['<'] + x + seq!['>'] + q);
    assert(p.push(' ').push(' ') + q =~= p + seq![' ', ' '] + q);
}

/// A token: more than one byte long, and made only of alphabetic characters.
pub open spec fn is_token(t: Seq<char>) -> bool {
    &&& keep_token(t)
    &&& forall|i: int| 0 <= i < t.len() ==> alphabetic(#[trigger] t[i])
}

proof fn lemma_token_scan_form(s: Seq<char>)
    ensures
        forall|a: int| 0 <= a < token_scan(s).0.len() ==> is_token(#[trigger] token_scan(s).0[a]),
        forall|i: int| 0 <= i < token_scan(s).1.len() ==> alphabetic(#[trigger] token_scan(s).1[i]),
    decreases s.len(),
{
    if s.len() > 0 {
        lemma_token_scan_form(s.drop_last());
        let (toks, cur) = token_scan(s.drop_last());
        let c = s.last();
        if alphabetic(c) {
            assert forall|i: int| 0 <= i < cur.push(c).len() implies alphabetic(#[trigger] cur.push(c)[i]) by {
                if i < cur.len() {
                    assert(cur.push(c)[i] == cur[i]);
                }
            }
        } else if keep_token(cur) {
            assert forall|a: int| 0 <= a < toks.push(cur).len() implies is_token(#[trigger] toks.push(cur)[a]) by {
                if a < toks.len() {
                    assert(toks.push(cur)[a] == toks[a]);
                }
            }
        }
    }
}

/// Every token of a text is more than one byte long and alphabetic.
pub proof fn law_tokens_are_alphabetic(text: Seq<char>)
    ensures
        forall|a: int| 0 <= a < tokenize_spec(text).len() ==> is_token(#[trigger] tokenize_spec(text)[a]),
{
    let l = lowercase(text);
    lemma_token_scan_form(l);
    let (toks, cur) = token_scan(l);
    if keep_token(cur) {
        assert forall|a: int| 0 <= a < toks.push(cur).len() implies is_token(#[trigger] toks.push(cur)[a]) by {
            if a < toks.len() {
                assert(toks.push(cur)[a] == toks[a]);
            }
        }
    }
}

proof fn lemma_token_scan_run(t: Seq<char>)
    requires
        forall|i: int| 0 <= i < t.len() ==> alphabetic(#[trigger] t[i]),
    ensures
        token_scan(t) == (Seq::<Seq<char>>::empty(), t),
    decreases t.len(),
{
    if t.len() > 0 {
        lemma_token_scan_run(t.drop_last());
        assert(t.drop_last().push(t.last()) =~= t);
    }
}

proof fn lemma_token_scan_add(x: Seq<char>, b: Seq<char>)
    requires
        token_scan(x).1.len() == 0,
    ensures
        token_scan(x + b) == (token_scan(x).0 + token_scan(b).0, token_scan(b).1),
    decreases b.len(),
{
    if b.len() == 0 {
        assert(x + b =~= x);
        assert(token_scan(x).0 + token_scan(b).0 =~= token_scan(x).0);
        assert(token_scan(x).1 =~= token_scan(b).1);
    } else {
        lemma_token_scan_add(x, b.drop_last());
        assert((x + b).drop_last() =~= x + b.drop_last());
        assert((x + b).last() == b.last());
        let (tb, cb) = token_scan(b.drop_last());
        let c = b.last();
        if !alphabetic(c) && keep_token(cb) {
            assert((token_scan(x).0 + tb).push(cb) =~= token_scan(x).0 + tb.push(cb));
        }
    }
}

/// Tokens split at every non-alphabetic character: the tokens of two texts
/// joined by one such character are those of the first followed by those of
/// the second; and a run of alphabetic characters is one token when it is
/// longer than one byte, none otherwise.
pub proof fn law_tokens_split_at_separators(a: Seq<char>, sep: char, b: Seq<char>, t: Seq<char>)
    requires
        !alphabetic(sep),
    ensures
        alpha_tokens(a + seq![sep] + b) == alpha_tokens(a) + alpha_tokens(b),
        (forall|i: int| 0 <= i < t.len() ==> alphabetic(#[trigger] t[i])) ==> alpha_tokens(t) == if keep_token(t) {
            seq![t]
        } else {
            Seq::<Seq<char>>::empty()
        },
{
    let x = a + seq![sep];
    assert(x.drop_last() =~= a);
    assert(x.last() == sep);
    assert(token_scan(x).0 == alpha_tokens(a));
    lemma_token_scan_add(x, b);
    assert(x + b =~= a + seq![sep] + b);
    let (tb, cb) = token_scan(b);
    if keep_token(cb) {
        assert((alpha_tokens(a) + tb).push(cb) =~= alpha_tokens(a) + tb.push(cb));
    }
    if forall|i: int| 0 <= i < t.len() ==> alphabetic(#[trigger] t[i]) {
        lemma_token_scan_run(t);
        assert(Seq::<Seq<char>>::empty().push(t) =~= seq![t]);
    }
}

/// The first word of chunk `k` when chunks start every `step` words.
pub open spec fn chunk_start(k: int, step: int) -> int {
    k * step
}

/// The last word (exclusive) of the chunk starting at word `start`.
pub open spec fn chunk_end(start: int, max: int, n: int) -> int {
    if start + max < n {
        start + max
    } else {
        n
    }
}

proof fn lemma_chunks_from_layout(ws: Seq<Seq<char>>, i: int, max: int, step: int)
    requires
        0 <= i < ws.len(),
        0 < step <= max,
    ensures
        ({
            let c = chunks_from(ws, i, max, step);
            let n = ws.len() as int;
            &&& c.len() >= 1
            &&& forall|t: int|
                0 <= t < c.len() ==> i + chunk_start(t, step) < n && #[trigger] c[t] == join_words(
                    ws.subrange(i + chunk_start(t, step), chunk_end(i + chunk_start(t, step), max, n)),
                )
            &&& forall|t: int| 0 <= t < c.len() - 1 ==> i + #[trigger] chunk_start(t, step) + max < n
            &&& i + chunk_start(c.len() - 1, step) + max >= n
        }),
    decreases ws.len() - i,
{
    let n = ws.len() as int;
    let c = chunks_from(ws, i, max, step);
    assert(chunk_start(0, step) == 0);
    if i + max >= n {
        assert(c =~= seq![join_words(ws.subrange(i, n))]);
        assert forall|t: int|
            0 <= t < c.len() implies i + chunk_start(t, step) < n && #[trigger] c[t] == join_words(
                ws.subrange(i + chunk_start(t, step), chunk_end(i + chunk_start(t, step), max, n)),
            ) by {
            assert(t == 0);
        }
    } else {
        let rest = chunks_from(ws, i + step, max, step);
        lemma_chunks_from_layout(ws, i + step, max, step);
        assert(c =~= seq![join_words(ws.subrange(i, i + max))] + rest);
        assert forall|t: int| 1 <= t implies #[trigger] chunk_start(t, step) == chunk_start(t - 1, step) + step by {
            assert(t * step == (t - 1) * step + step) by (nonlinear_arith);
        }
        assert forall|t: int|
            0 <= t < c.len() implies i + chunk_start(t, step) < n && #[trigger] c[t] == join_words(
                ws.subrange(i + chunk_start(t, step), chunk_end(i + chunk_start(t, step), max, n)),
            ) by {
            if t > 0 {
                assert(c[t] == rest[t - 1]);
                assert(chunk_start(t, step) == chunk_start(t - 1, step) + step);
            } else {
                assert(t == 0);
            }
        }
        assert forall|t: int| 0 <= t < c.len() - 1 implies i + #[trigger] chunk_start(t, step) + max < n by {
            if t > 0 {
                assert(chunk_start(t, step) == chunk_start(t - 1, step) + step);
            } else {
                assert(t == 0);
            }
        }
        assert(chunk_start(c.len() - 1, step) == chunk_start(rest.len() - 1, step) + step);
    }
}

/// How a text of more than `max` words is chunked: chunk `k` holds the words
/// from `k * step` up to `max` words on (`step = max - max / 5`, so
/// neighbouring chunks share `max / 5` words); every chunk but the last has
/// exactly `max` words, and the last one ends at the last word.
pub proof fn law_chunk_layout(text: Seq<char>, max: nat)
    requires
        max > 0,
        words_spec(text).len() > max,
    ensures
        ({
            let ws = words_spec(text);
            let n = ws.len() as int;
            let step = max - max / 5;
            let cs = chunk_spec(text, max);
            &&& cs.len() >= 2
            &&& forall|k: int|
                0 <= k < cs.len() ==> chunk_start(k, step) < n && #[trigger] cs[k] == join_words(
                    ws.subrange(chunk_start(k, step), chunk_end(chunk_start(k, step), max as int, n)),
                )
            &&& forall|k: int| 0 <= k < cs.len() - 1 ==> #[trigger] chunk_start(k, step) + max < n
            &&& chunk_start(cs.len() - 1, step) + max >= n
        }),
{
    let ws = words_spec(text);
    let step = max - max / 5;
    assert(0 < step <= max);
    lemma_chunks_from_layout(ws, 0, max as int, step as int);
    let c = chunks_from(ws, 0, max as int, step as int);
    assert(chunk_spec(text, max) == c);
    assert(chunk_start(0, step) == 0);
    if c.len() < 2 {
        assert(c.len() == 1);
    }
    assert forall|k: int| 0 <= k < c.len() implies chunk_start(k, step) < ws.len() by {
        assert(c[k] == c[k]);
    }
}

} // verus!
