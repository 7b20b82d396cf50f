//! The FCP tokenizer: splits an operation string into tokens, with quoted
//! strings, backslash escapes and `\n` newline escapes; and the predicates and
//! splitters for `key:value`, selector and arrow tokens.
use vstd::prelude::*;
use crate::text::{chars_of, string_from_range, string_of};
use vstd::utf8::encode_utf8;

verus! {

/// The byte of a space.
pub open spec fn space() -> u8 {
    32u8
}

/// The byte of a double quote.
pub open spec fn quote() -> u8 {
    34u8
}

/// The byte of a backslash.
pub open spec fn backslash() -> u8 {
    92u8
}

/// The byte of the letter `n`.
pub open spec fn letter_n() -> u8 {
    110u8
}

/// The first position at or after `i` that does not hold a space.
pub open spec fn skip_spaces(b: Seq<u8>, i: int) -> int
    decreases b.len() - i,
{
    if 0 <= i < b.len() && b[i] == space() {
        skip_spaces(b, i + 1)
    } else {
        i
    }
}

/// The body of a quoted section that starts at `i` (just after its opening
/// quote): each byte read as a character, `\n` read as a newline and `\x` as
/// `x`; scanning stops at the closing quote or at the end. Returns the body and
/// the position where scanning stopped.
pub open spec fn quoted_body(b: Seq<u8>, i: int) -> (Seq<char>, int)
    decreases b.len() - i,
{
    if i < 0 || i >= b.len() || b[i] == quote() {
        (seq![], i)
    } else if b[i] == backslash() && i + 1 < b.len() {
        let c = if b[i + 1] == letter_n() {
            '\n'
        } else {
            b[i + 1] as char
        };
        let (r, j) = quoted_body(b, i + 2);
        (seq![c] + r, j)
    } else {
        let (r, j) = quoted_body(b, i + 1);
        (seq![b[i] as char] + r, j)
    }
}

/// The raw text of an unquoted token from `i` up to the next space outside
/// quotes (or the end). Embedded quoted sections keep their quotes, and their
/// bodies are read as in `quoted_body`; `in_quote` says whether `i` lies inside
/// one. Returns the text and the position where scanning stopped.
pub open spec fn unquoted_raw(b: Seq<u8>, i: int, in_quote: bool) -> (Seq<char>, int)
    decreases b.len() - i,
{
    if i < 0 || i >= b.len() {
        (seq![], i)
    } else if !in_quote {
        if b[i] == space() {
            (seq![], i)
        } else if b[i] == quote() {
            let (r, j) = unquoted_raw(b, i + 1, true);
            (seq!['"'] + r, j)
        } else {
            let (r, j) = unquoted_raw(b, i + 1, false);
            (seq![b[i] as char] + r, j)
        }
    } else if b[i] == quote() {
        let (r, j) = unquoted_raw(b, i + 1, false);
        (seq!['"'] + r, j)
    } else if b[i] == backslash() && i + 1 < b.len() {
        let c = if b[i + 1] == letter_n() {
            '\n'
        } else {
            b[i + 1] as char
        };
        let (r, j) = unquoted_raw(b, i + 2, true);
        (seq![c] + r, j)
    } else {
        let (r, j) = unquoted_raw(b, i + 1, true);
        (seq![b[i] as char] + r, j)
    }
}

/// `s` with every `\` followed by `n` (taken left to right, without overlap)
/// replaced by a newline.
pub open spec fn unescape_newlines(s: Seq<char>) -> Seq<char>
    decreases s.len(),
{
    if s.len() == 0 {
        seq![]
    } else if s.len() >= 2 && s[0] == '\\' && s[1] == 'n' {
        seq!['\n'] + unescape_newlines(s.skip(2))
    } else {
        seq![s[0]] + unescape_newlines(s.skip(1))
    }
}

pub proof fn lemma_quoted_body_advances(b: Seq<u8>, i: int)
    requires
        0 <= i,
    ensures
        i <= quoted_body(b, i).1,
        i <= b.len() ==> quoted_body(b, i).1 <= b.len(),
        quoted_body(b, i).1 < b.len() ==> b[quoted_body(b, i).1] == quote(),
    decreases b.len() - i,
{
    if i >= b.len() || b[i] == quote() {
    } else if b[i] == backslash() && i + 1 < b.len() {
        lemma_quoted_body_advances(b, i + 2);
    } else {
        lemma_quoted_body_advances(b, i + 1);
    }
}

pub proof fn lemma_unquoted_raw_advances(b: Seq<u8>, i: int, in_quote: bool)
    requires
        0 <= i,
    ensures
        i <= unquoted_raw(b, i, in_quote).1,
        i <= b.len() ==> unquoted_raw(b, i, in_quote).1 <= b.len(),
        i < b.len() && b[i] != space() ==> i < unquoted_raw(b, i, in_quote).1,
    decreases b.len() - i,
{
    if i >= b.len() {
    } else if !in_quote {
        if b[i] == space() {
        } else if b[i] == quote() {
            lemma_unquoted_raw_advances(b, i + 1, true);
        } else {
            lemma_unquoted_raw_advances(b, i + 1, false);
        }
    } else if b[i] == quote() {
        lemma_unquoted_raw_advances(b, i + 1, false);
    } else if b[i] == backslash() && i + 1 < b.len() {
        lemma_unquoted_raw_advances(b, i + 2, true);
    } else {
        lemma_unquoted_raw_advances(b, i + 1, true);
    }
}

pub proof fn lemma_skip_spaces(b: Seq<u8>, i: int)
    requires
        0 <= i,
    ensures
        i <= skip_spaces(b, i),
        i <= b.len() ==> skip_spaces(b, i) <= b.len(),
        skip_spaces(b, i) < b.len() ==> b[skip_spaces(b, i)] != space(),
    decreases b.len() - i,
{
    if 0 <= i < b.len() && b[i] == space() {
        lemma_skip_spaces(b, i + 1);
    }
}

/// The token that starts at `i` (a position holding no space) and the
/// position just after it: a token that starts with a quote is the body of
/// that quoted section (its closing quote is consumed); any other token is
/// its raw text with `\n` escapes turned into newlines.
pub open spec fn token_at(b: Seq<u8>, i: int) -> (Seq<char>, int) {
    if b[i] == quote() {
        let (body, j) = quoted_body(b, i + 1);
        (body, if j < b.len() {
            j + 1
        } else {
            j
        })
    } else {
        let (raw, j) = unquoted_raw(b, i, false);
        (unescape_newlines(raw), j)
    }
}

pub proof fn lemma_token_at_advances(b: Seq<u8>, i: int)
    requires
        0 <= i < b.len(),
        b[i] != space(),
    ensures
        i < token_at(b, i).1 <= b.len(),
{
    if b[i] == quote() {
        lemma_quoted_body_advances(b, i + 1);
    } else {
        lemma_unquoted_raw_advances(b, i, false);
    }
}

/// The tokens of `b` from position `i` on.
pub open spec fn tokens_from(b: Seq<u8>, i: int) -> Seq<Seq<char>>
    decreases b.len() - i,
{
    if i < 0 {
        seq![]
    } else {
        let k = skip_spaces(b, i);
        if k >= b.len() {
            seq![]
        } else {
            proof {
                lemma_skip_spaces(b, i);
                lemma_token_at_advances(b, k);
            }
            let (t, j) = token_at(b, k);
            seq![t] + tokens_from(b, j)
        }
    }
}

/// The tokens of an operation string, read from its UTF-8 bytes (each byte
/// outside an escape becomes the character with that code).
pub open spec fn tokenize_spec(input: &str) -> Seq<Seq<char>> {
    tokens_of_text(input@)
}

/// The tokens of a text, read from its UTF-8 encoding.
pub open spec fn tokens_of_text(s: Seq<char>) -> Seq<Seq<char>> {
    tokens_from(encode_utf8(s), 0)
}

/// The views of a vector of strings.
pub open spec fn string_views(v: Seq<String>) -> Seq<Seq<char>> {
    v.map_values(|s: String| s@)
}

fn skip_spaces_exec(b: &[u8], i: usize) -> (j: usize)
    requires
        i <= b@.len(),
    ensures
        j == skip_spaces(b@, i as int),
        i <= j <= b@.len(),
{
    let mut j = i;
    while j < b.len() && b[j] == 32u8
        invariant
            i <= j <= b@.len(),
            skip_spaces(b@, i as int) == skip_spaces(b@, j as int),
        decreases b@.len() - j,
    {
        j += 1;
    }
    j
}

/// Appends the body of the quoted section that starts at `i` to `tok` and
/// returns where scanning stopped.
fn scan_quoted(b: &[u8], i: usize, tok: &mut Vec<char>) -> (j: usize)
    requires
        i <= b@.len(),
    ensures
        final(tok)@ == old(tok)@ + quoted_body(b@, i as int).0,
        j == quoted_body(b@, i as int).1,
        i <= j <= b@.len(),
{
    let n = b.len();
    let mut j = i;
    proof {
        lemma_quoted_body_advances(b@, i as int);
    }
    while j < n && b[j] != 34u8
        invariant
            n == b@.len(),
            i <= j <= n,
            old(tok)@ + quoted_body(b@, i as int).0 == tok@ + quoted_body(b@, j as int).0,
            quoted_body(b@, i as int).1 == quoted_body(b@, j as int).1,
        decreases n - j,
    {
        if b[j] == 92u8 && j + 1 < n {
            let next = b[j + 1];
            if next == 110u8 {
                tok.push('\n');
            } else {
                tok.push(next as char);
            }
            j += 2;
        } else {
            tok.push(b[j] as char);
            j += 1;
        }
    }
    j
}

pub proof fn lemma_unquoted_in_quote(b: Seq<u8>, p: int)
    requires
        0 <= p <= b.len(),
    ensures
        ({
            let (body, q) = quoted_body(b, p);
            if q < b.len() {
                unquoted_raw(b, p, true) == (body + seq!['"'] + unquoted_raw(b, q + 1, false).0,
                unquoted_raw(b, q + 1, false).1)
            } else {
                q == b.len() && unquoted_raw(b, p, true) == (body, q)
            }
        }),
    decreases b.len() - p,
{
    if p >= b.len() {
    } else if b[p] == quote() {
        assert(seq!['"'] + unquoted_raw(b, p + 1, false).0 =~= seq![] + seq!['"'] + unquoted_raw(
            b,
            p + 1,
            false,
        ).0);
    } else if b[p] == backslash() && p + 1 < b.len() {
        lemma_unquoted_in_quote(b, p + 2);
        let (body, q) = quoted_body(b, p + 2);
        if q < b.len() {
            let c = if b[p + 1] == letter_n() {
                '\n'
            } else {
                b[p + 1] as char
            };
            assert(seq![c] + (body + seq!['"'] + unquoted_raw(b, q + 1, false).0) =~= (seq![c]
                + body) + seq!['"'] + unquoted_raw(b, q + 1, false).0);
        }
    } else {
        lemma_unquoted_in_quote(b, p + 1);
        let (body, q) = quoted_body(b, p + 1);
        if q < b.len() {
            assert(seq![b[p] as char] + (body + seq!['"'] + unquoted_raw(b, q + 1, false).0) =~= (
            seq![b[p] as char] + body) + seq!['"'] + unquoted_raw(b, q + 1, false).0);
        }
    }
}

/// Appends the raw text of the unquoted token that starts at `i` to `tok`
/// and returns where scanning stopped.
fn scan_unquoted(b: &[u8], i: usize, tok: &mut Vec<char>) -> (j: usize)
    requires
        i <= b@.len(),
    ensures
        final(tok)@ == old(tok)@ + unquoted_raw(b@, i as int, false).0,
        j == unquoted_raw(b@, i as int, false).1,
        i <= j <= b@.len(),
{
    let n = b.len();
    let mut j = i;
    proof {
        lemma_unquoted_raw_advances(b@, i as int, false);
    }
    while j < n && b[j] != 32u8
        invariant
            n == b@.len(),
            i <= j <= n,
            old(tok)@ + unquoted_raw(b@, i as int, false).0 == tok@ + unquoted_raw(
                b@,
                j as int,
                false,
            ).0,
            unquoted_raw(b@, i as int, false).1 == unquoted_raw(b@, j as int, false).1,
        decreases n - j,
    {
        let ghost t0 = tok@;
        let ghost j0 = j as int;
        if b[j] == 34u8 {
            proof {
                lemma_unquoted_in_quote(b@, j0 + 1);
            }
            tok.push('"');
            let k = scan_quoted(b, j + 1, tok);
            let ghost body = quoted_body(b@, j0 + 1).0;
            assert(tok@ =~= t0 + seq!['"'] + body);
            if k < n {
                tok.push('"');
                j = k + 1;
                assert(t0 + unquoted_raw(b@, j0, false).0 =~= tok@ + unquoted_raw(
                    b@,
                    j as int,
                    false,
                ).0);
            } else {
                j = k;
                assert(t0 + unquoted_raw(b@, j0, false).0 =~= tok@ + unquoted_raw(
                    b@,
                    j as int,
                    false,
                ).0);
            }
        } else {
            tok.push(b[j] as char);
            j += 1;
            assert(t0 + unquoted_raw(b@, j0, false).0 =~= tok@ + unquoted_raw(
                b@,
                j as int,
                false,
            ).0);
        }
    }
    assert(unquoted_raw(b@, j as int, false).0 =~= Seq::<char>::empty());
    assert(tok@ =~= tok@ + unquoted_raw(b@, j as int, false).0);
    j
}

/// `raw` with its `\n` escapes turned into newlines.
fn unescape_newlines_exec(raw: &Vec<char>) -> (out: Vec<char>)
    ensures
        out@ == unescape_newlines(raw@),
{
    let mut out: Vec<char> = Vec::new();
    let mut i: usize = 0;
    let n = raw.len();
    assert(raw@.skip(0) =~= raw@);
    while i < n
        invariant
            n == raw@.len(),
            i <= n,
            unescape_newlines(raw@) == out@ + unescape_newlines(raw@.skip(i as int)),
        decreases n - i,
    {
        let ghost rest = raw@.skip(i as int);
        if i + 1 < n && raw[i] == '\\' && raw[i + 1] == 'n' {
            out.push('\n');
            assert(rest.skip(2) =~= raw@.skip(i + 2));
            i += 2;
        } else {
            out.push(raw[i]);
            assert(rest.skip(1) =~= raw@.skip(i + 1));
            i += 1;
        }
    }
    assert(raw@.skip(n as int) =~= Seq::<char>::empty());
    assert(out@ =~= out@ + unescape_newlines(raw@.skip(n as int)));
    out
}

/// The token that starts at `i` and the position just after it.
fn token_at_exec(b: &[u8], i: usize) -> (res: (String, usize))
    requires
        i < b@.len(),
        b@[i as int] != space(),
    ensures
        res.0@ == token_at(b@, i as int).0,
        res.1 == token_at(b@, i as int).1,
        i < res.1 <= b@.len(),
{
    proof {
        lemma_token_at_advances(b@, i as int);
    }
    let mut tok: Vec<char> = Vec::new();
    if b[i] == 34u8 {
        let j = scan_quoted(b, i + 1, &mut tok);
        assert(tok@ =~= quoted_body(b@, i + 1).0);
        let next = if j < b.len() {
            j + 1
        } else {
            j
        };
        (string_of(&tok), next)
    } else {
        let j = scan_unquoted(b, i, &mut tok);
        assert(tok@ =~= unquoted_raw(b@, i as int, false).0);
        let un = unescape_newlines_exec(&tok);
        (string_of(&un), j)
    }
}

/// Splits an FCP operation string into tokens, handling quoted strings,
/// escape sequences and embedded newlines.
///
/// Tokens are separated by spaces. A token that starts with `"` runs to the
/// matching closing quote (or the end) and holds the quoted body, in which
/// `\n` stands for a newline and `\x` for `x`. Any other token runs to the next
/// space outside quotes; quoted sections inside it keep their quotes, and `\n`
/// in it becomes a newline.
pub fn tokenize(input: &str) -> (tokens: Vec<String>)
    ensures
        string_views(tokens@) == tokenize_spec(input),
{
    let bytes = input.as_bytes();
    let n = bytes.len();
    let mut tokens: Vec<String> = Vec::new();
    let mut i: usize = 0;
    assert(string_views(tokens@) + tokens_from(bytes@, 0) =~= tokens_from(bytes@, 0));
    loop
        invariant_except_break
            n == bytes@.len(),
            i <= n,
            tokens_from(bytes@, 0) == string_views(tokens@) + tokens_from(bytes@, i as int),
        ensures
            tokens_from(bytes@, 0) == string_views(tokens@),
        decreases n - i,
    {
        let k = skip_spaces_exec(bytes, i);
        proof {
            lemma_skip_spaces(bytes@, i as int);
        }
        if k >= n {
            assert(tokens_from(bytes@, i as int) =~= Seq::<Seq<char>>::empty());
            assert(string_views(tokens@) + tokens_from(bytes@, i as int) =~= string_views(tokens@));
            break;
        }
        let ghost before = string_views(tokens@);
        let (tok, j) = token_at_exec(bytes, k);
        let ghost tv = tok@;
        tokens.push(tok);
        assert(string_views(tokens@) =~= before.push(tv));
        assert(tokens_from(bytes@, i as int) == seq![tv] + tokens_from(bytes@, j as int));
        assert(before + tokens_from(bytes@, i as int) =~= string_views(tokens@) + tokens_from(
            bytes@,
            j as int,
        ));
        i = j;
    }
    tokens
}

/// An arrow operator: `->`, `<->` or `--`.
pub open spec fn is_arrow_text(s: Seq<char>) -> bool {
    s == seq!['-', '>'] || s == seq!['<', '-', '>'] || s == seq!['-', '-']
}

/// A selector: text that starts with `@`.
pub open spec fn is_selector_text(s: Seq<char>) -> bool {
    s.len() > 0 && s[0] == '@'
}

/// A character allowed in the key of a `key:value` token.
pub open spec fn is_key_char(c: char) -> bool {
    ('a' <= c && c <= 'z') || ('A' <= c && c <= 'Z') || ('0' <= c && c <= '9') || c == '_'
        || c == '-'
}

/// Whether `s` holds a colon.
pub open spec fn has_colon(s: Seq<char>) -> bool {
    exists|k: int| 0 <= k < s.len() && s[k] == ':'
}

/// `k` is the position of the first colon of `s`.
pub open spec fn is_first_colon(s: Seq<char>, k: int) -> bool {
    &&& 0 <= k < s.len()
    &&& s[k] == ':'
    &&& forall|j: int| 0 <= j < k ==> s[j] != ':'
}

/// The position of the first colon of `s` (meaningful when `has_colon(s)`).
pub open spec fn colon_index(s: Seq<char>) -> int {
    choose|k: int| is_first_colon(s, k)
}

/// A `key:value` token: not a selector nor an arrow, with a first colon that
/// is neither the first nor the last character, and a key made of ASCII
/// letters, digits, `_` and `-`.
pub open spec fn is_key_value_text(s: Seq<char>) -> bool {
    &&& !is_selector_text(s)
    &&& !is_arrow_text(s)
    &&& has_colon(s)
    &&& 0 < colon_index(s) < s.len() - 1
    &&& forall|j: int| 0 <= j < colon_index(s) ==> is_key_char(s[j])
}

/// A value that is wrapped in double quotes (and at least two characters long).
pub open spec fn is_quoted_text(v: Seq<char>) -> bool {
    v.len() >= 2 && v[0] == '"' && v[v.len() - 1] == '"'
}

/// A value with its surrounding double quotes removed, if it has them.
pub open spec fn strip_quotes_text(v: Seq<char>) -> Seq<char> {
    if is_quoted_text(v) {
        v.subrange(1, v.len() - 1)
    } else {
        v
    }
}

/// The key of a `key:value` text: everything before the first colon.
pub open spec fn key_of(s: Seq<char>) -> Seq<char> {
    s.take(colon_index(s))
}

/// The raw value of a `key:value` text: everything after the first colon.
pub open spec fn raw_value_of(s: Seq<char>) -> Seq<char> {
    s.skip(colon_index(s) + 1)
}

proof fn lemma_first_colon_is_chosen(s: Seq<char>, k: int)
    requires
        is_first_colon(s, k),
    ensures
        colon_index(s) == k,
        has_colon(s),
{
    let c = colon_index(s);
    assert(is_first_colon(s, c));
    if c < k {
        assert(s[c] != ':');
    } else if k < c {
        assert(s[k] != ':');
    }
}

/// The position of the first colon of `v`, if any.
fn find_colon(v: &Vec<char>) -> (r: Option<usize>)
    ensures
        match r {
            Some(k) => is_first_colon(v@, k as int) && colon_index(v@) == k,
            None => !has_colon(v@),
        },
{
    let mut i: usize = 0;
    while i < v.len()
        invariant
            i <= v.len(),
            forall|j: int| 0 <= j < i ==> v@[j] != ':',
        decreases v.len() - i,
    {
        if v[i] == ':' {
            proof {
                lemma_first_colon_is_chosen(v@, i as int);
            }
            return Some(i);
        }
        i += 1;
    }
    None
}

fn is_arrow_chars(v: &Vec<char>) -> (r: bool)
    ensures
        r == is_arrow_text(v@),
{
    let r = (v.len() == 2 && v[0] == '-' && v[1] == '>') || (v.len() == 3 && v[0] == '<' && v[1]
        == '-' && v[2] == '>') || (v.len() == 2 && v[0] == '-' && v[1] == '-');
    proof {
        if v@.len() == 2 {
            if v@[0] == '-' && v@[1] == '>' {
                assert(v@ =~= seq!['-', '>']);
            }
            if v@[0] == '-' && v@[1] == '-' {
                assert(v@ =~= seq!['-', '-']);
            }
        }
        if v@.len() == 3 && v@[0] == '<' && v@[1] == '-' && v@[2] == '>' {
            assert(v@ =~= seq!['<', '-', '>']);
        }
    }
    r
}

/// Returns true if the token is an arrow operator: `->`, `<->` or `--`.
pub fn is_arrow(token: &str) -> (r: bool)
    ensures
        r == is_arrow_text(token@),
{
    let v = chars_of(token);
    is_arrow_chars(&v)
}

/// Returns true if the token is a selector (starts with `@`).
pub fn is_selector(token: &str) -> (r: bool)
    ensures
        r == is_selector_text(token@),
{
    let v = chars_of(token);
    v.len() > 0 && v[0] == '@'
}

/// Returns true if the token is a `key:value` pair (not a selector, not an
/// arrow).
pub fn is_key_value(token: &str) -> (r: bool)
    ensures
        r == is_key_value_text(token@),
{
    let v = chars_of(token);
    if v.len() > 0 && v[0] == '@' {
        return false;
    }
    if is_arrow_chars(&v) {
        return false;
    }
    let idx = match find_colon(&v) {
        Some(i) => i,
        None => return false,
    };
    if idx == 0 || idx >= v.len() - 1 {
        return false;
    }
    let mut j: usize = 0;
    while j < idx
        invariant
            idx < v.len(),
            v@ == token@,
            colon_index(v@) == idx,
            j <= idx,
            forall|m: int| 0 <= m < j ==> is_key_char(v@[m]),
        decreases idx - j,
    {
        let ch = v[j];
        if !(('a' <= ch && ch <= 'z') || ('A' <= ch && ch <= 'Z') || ('0' <= ch && ch <= '9') || ch
            == '_' || ch == '-') {
            assert(!is_key_char(v@[j as int]));
            assert(colon_index(token@) == idx);
            assert(!is_key_value_text(token@)) by {
                if is_key_value_text(token@) {
                    assert(is_key_char(token@[j as int]));
                }
            }
            return false;
        }
        j += 1;
    }
    true
}

/// Splits the characters of a `key:value` token into key, value with its
/// quotes removed, and whether it was quoted.
fn split_key_value(v: &Vec<char>) -> (r: (String, String, bool))
    requires
        has_colon(v@),
    ensures
        r.0@ == key_of(v@),
        r.1@ == strip_quotes_text(raw_value_of(v@)),
        r.2 == is_quoted_text(raw_value_of(v@)),
{
    let idx = match find_colon(v) {
        Some(i) => i,
        None => {
            proof {
                assert(false);
            }
            0
        },
    };
    let key = string_from_range(v, 0, idx);
    let n = v.len();
    assert(v@.subrange(0, idx as int) =~= key_of(v@));
    let ghost raw = raw_value_of(v@);
    assert(raw =~= v@.subrange(idx + 1, n as int));
    if n - (idx + 1) >= 2 && v[idx + 1] == '"' && v[n - 1] == '"' {
        let value = string_from_range(v, idx + 2, n - 1);
        assert(v@.subrange(idx + 2, n - 1) =~= raw.subrange(1, raw.len() - 1));
        (key, value, true)
    } else {
        let value = string_from_range(v, idx + 1, n);
        (key, value, false)
    }
}

/// Parses a `key:value` token into its key and value parts. If the value is
/// wrapped in double quotes, they are stripped.
pub fn parse_key_value(token: &str) -> (r: (String, String))
    requires
        has_colon(token@),
    ensures
        r.0@ == key_of(token@),
        r.1@ == strip_quotes_text(raw_value_of(token@)),
{
    let v = chars_of(token);
    let (k, val, _) = split_key_value(&v);
    (k, val)
}

/// Parses a `key:value` token, also returning whether the value was quoted.
pub fn parse_key_value_with_meta(token: &str) -> (r: (String, String, bool))
    requires
        has_colon(token@),
    ensures
        r.0@ == key_of(token@),
        r.1@ == strip_quotes_text(raw_value_of(token@)),
        r.2 == is_quoted_text(raw_value_of(token@)),
{
    let v = chars_of(token);
    split_key_value(&v)
}

} // verus!
