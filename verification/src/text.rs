//! Character-level helpers shared by the command language: conversions
//! between `&str`, `String` and character vectors, and the few pieces of
//! `std` text formatting that the library relies on.
use vstd::prelude::*;
use vstd::string::StrSliceExecFns;
use vstd::utf8::{is_ascii_chars, valid_utf8, decode_utf8};

verus! {

/// The characters of `s`, in order.
pub fn chars_of(s: &str) -> (v: Vec<char>)
    ensures
        v@ == s@,
{
    let mut v: Vec<char> = Vec::new();
    for c in it: s.chars()
        invariant
            v@ == it.seq().take(it.index() as int),
    {
        v.push(c);
    }
    v
}

/// `String::push`: appends one character at the end of the string.
#[verifier::external_body]
fn push_char(s: &mut String, c: char)
    ensures
        final(s)@ == old(s)@.push(c),
{
    s.push(c);
}

/// A new string holding `v[lo..hi]`.
pub fn string_from_range(v: &Vec<char>, lo: usize, hi: usize) -> (s: String)
    requires
        lo <= hi <= v.len(),
    ensures
        s@ == v@.subrange(lo as int, hi as int),
{
    let mut s = String::new();
    let mut i = lo;
    while i < hi
        invariant
            lo <= i <= hi <= v.len(),
            s@ == v@.subrange(lo as int, i as int),
        decreases hi - i,
    {
        push_char(&mut s, v[i]);
        i += 1;
        assert(s@ =~= v@.subrange(lo as int, i as int));
    }
    s
}

/// A new string holding all of `v`.
pub fn string_of(v: &Vec<char>) -> (s: String)
    ensures
        s@ == v@,
{
    let s = string_from_range(v, 0, v.len());
    assert(v@.subrange(0, v@.len() as int) =~= v@);
    s
}

/// Character-wise equality of two character vectors.
pub fn chars_eq(a: &Vec<char>, b: &Vec<char>) -> (r: bool)
    ensures
        r == (a@ == b@),
{
    if a.len() != b.len() {
        return false;
    }
    let mut i: usize = 0;
    while i < a.len()
        invariant
            a.len() == b.len(),
            i <= a.len(),
            forall|j: int| 0 <= j < i ==> a@[j] == b@[j],
        decreases a.len() - i,
    {
        if a[i] != b[i] {
            return false;
        }
        i += 1;
    }
    assert(a@ =~= b@);
    true
}

/// Equality of two string slices, by their characters.
pub fn text_eq(a: &str, b: &str) -> (r: bool)
    ensures
        r == (a@ == b@),
{
    let va = chars_of(a);
    let vb = chars_of(b);
    chars_eq(&va, &vb)
}

/// A new string holding `a` followed by `b`.
pub fn concat2(a: &str, b: &str) -> (s: String)
    ensures
        s@ == a@ + b@,
{
    let mut s = String::from_str(a);
    s.append(b);
    s
}

/// A new string holding `a`, `b` and `c` in that order.
pub fn concat3(a: &str, b: &str, c: &str) -> (s: String)
    ensures
        s@ == a@ + b@ + c@,
{
    let mut s = String::from_str(a);
    s.append(b);
    s.append(c);
    s
}

/// The decimal digit character for `d` (`0 <= d < 10`).
pub open spec fn digit_char(d: nat) -> char {
    ((48 + d) as u32) as char
}

/// The decimal text of a natural number, most significant digit first,
/// with no leading zeros (and `"0"` for zero).
pub open spec fn decimal(n: nat) -> Seq<char>
    decreases n,
{
    if n < 10 {
        seq![digit_char(n)]
    } else {
        decimal(n / 10).push(digit_char(n % 10))
    }
}

/// The decimal digit character for `d`.
fn digit(d: usize) -> (c: char)
    requires
        d < 10,
    ensures
        c == digit_char(d as nat),
{
    match d {
        0 => '0',
        1 => '1',
        2 => '2',
        3 => '3',
        4 => '4',
        5 => '5',
        6 => '6',
        7 => '7',
        8 => '8',
        _ => '9',
    }
}

/// The number in decimal, with no sign, padding or leading zeros (as
/// `usize`'s `Display`).
pub fn usize_text(n: usize) -> (s: String)
    ensures
        s@ == decimal(n as nat),
    decreases n,
{
    if n < 10 {
        let mut s = String::new();
        push_char(&mut s, digit(n));
        s
    } else {
        let mut s = usize_text(n / 10);
        push_char(&mut s, digit(n % 10));
        s
    }
}

/// An ASCII letter mapped to lower case; any other character unchanged.
pub open spec fn ascii_lower_char(c: char) -> char {
    if 'A' <= c && c <= 'Z' {
        ((c as u32) + 32) as char
    } else {
        c
    }
}

/// The Unicode lowercase mapping of a string that is not all ASCII, as
/// `str::to_lowercase` computes it.
pub uninterp spec fn unicode_lowercase(s: Seq<char>) -> Seq<char>;

/// The lowercase form of a string: for an ASCII string, `A`..`Z` become
/// `a`..`z` and every other character stays; other strings follow Unicode.
pub open spec fn lowercase_of(s: Seq<char>) -> Seq<char> {
    if is_ascii_chars(s) {
        s.map_values(|c: char| ascii_lower_char(c))
    } else {
        unicode_lowercase(s)
    }
}

/// `str::to_lowercase`. For an ASCII string the Unicode lowercase mapping maps
/// `A`..`Z` to `a`..`z` and keeps every other character; for other strings the
/// result is named `unicode_lowercase`, and what it is (tables of Unicode data)
/// is left unsaid.
#[verifier::external_body]
pub fn to_lowercase(s: &str) -> (r: String)
    ensures
        r@ == lowercase_of(s@),
        !is_ascii_chars(s@) ==> r@ == unicode_lowercase(s@),
{
    s.to_lowercase()
}

/// A printable ASCII character that `Debug` writes as itself inside a
/// quoted string (anything from space to `~` except `"` and `\`).
pub open spec fn debug_plain_char(c: char) -> bool {
    ' ' <= c && c <= '~' && c != '"' && c != '\\'
}

/// What `{:?}` writes for a string that has characters other than plain
/// printable ASCII: the string in double quotes, with escapes.
pub uninterp spec fn debug_escaped(s: Seq<char>) -> Seq<char>;

/// Every character of `s` is printable ASCII other than `"` and `\`.
pub open spec fn all_debug_plain(s: Seq<char>) -> bool {
    forall|i: int| 0 <= i < s.len() ==> debug_plain_char(#[trigger] s[i])
}

/// What `{:?}` writes for a string: a string of plain printable ASCII
/// unchanged between double quotes; any other string with escapes.
pub open spec fn debug_text(s: Seq<char>) -> Seq<char> {
    if all_debug_plain(s) {
        seq!['"'] + s + seq!['"']
    } else {
        debug_escaped(s)
    }
}

/// `str`'s `Debug` (through `format!("{:?}", ..)`). A string whose characters
/// are all printable ASCII other than `"` and `\` is written unchanged between
/// two double quotes; for other strings the result is named `debug_escaped`,
/// and the escapes used are left unsaid.
#[verifier::external_body]
pub fn debug_quoted(s: &str) -> (r: String)
    ensures
        r@ == debug_text(s@),
        !all_debug_plain(s@) ==> r@ == debug_escaped(s@),
{
    format!("{:?}", s)
}

/// `s` without its leading whitespace.
pub open spec fn trim_start_ws(s: Seq<char>) -> Seq<char>
    decreases s.len(),
{
    if s.len() > 0 && white_space(s[0]) {
        trim_start_ws(s.drop_first())
    } else {
        s
    }
}

/// `s` without its trailing whitespace.
pub open spec fn trim_end_ws(s: Seq<char>) -> Seq<char>
    decreases s.len(),
{
    if s.len() > 0 && white_space(s.last()) {
        trim_end_ws(s.drop_last())
    } else {
        s
    }
}

/// A string without leading and trailing whitespace (characters with the
/// Unicode `White_Space` property).
pub open spec fn trimmed(s: Seq<char>) -> Seq<char> {
    trim_end_ws(trim_start_ws(s))
}

proof fn lemma_trim_start(s: Seq<char>, i: int)
    requires
        0 <= i <= s.len(),
        forall|j: int| 0 <= j < i ==> white_space(#[trigger] s[j]),
        i == s.len() || !white_space(s[i]),
    ensures
        trim_start_ws(s) == s.skip(i),
    decreases i,
{
    if i == 0 {
        assert(s.skip(0) =~= s);
    } else {
        let t = s.drop_first();
        assert forall|j: int| 0 <= j < i - 1 implies white_space(#[trigger] t[j]) by {
            assert(t[j] == s[j + 1]);
        }
        lemma_trim_start(t, i - 1);
        assert(t.skip(i - 1) =~= s.skip(i));
    }
}

proof fn lemma_trim_end(t: Seq<char>, k: int)
    requires
        0 <= k <= t.len(),
        forall|j: int| k <= j < t.len() ==> white_space(#[trigger] t[j]),
        k == 0 || !white_space(t[k - 1]),
    ensures
        trim_end_ws(t) == t.take(k),
    decreases t.len() - k,
{
    if k == t.len() {
        if t.len() > 0 {
            assert(!white_space(t.last()));
        }
        assert(t.take(k) =~= t);
    } else {
        let u = t.drop_last();
        assert(white_space(t[t.len() - 1]));
        assert forall|j: int| k <= j < u.len() implies white_space(#[trigger] u[j]) by {
            assert(u[j] == t[j]);
        }
        if k > 0 {
            assert(u[k - 1] == t[k - 1]);
        }
        lemma_trim_end(u, k);
        assert(u.take(k) =~= t.take(k));
    }
}

/// The string with leading and trailing whitespace removed, whitespace being
/// the characters with the Unicode `White_Space` property (as `str::trim`).
pub fn trim(s: &str) -> (r: &str)
    ensures
        r@ == trimmed(s@),
{
    let v = chars_of(s);
    let n = v.len();
    let mut lo: usize = 0;
    while lo < n && is_white_space(v[lo])
        invariant
            lo <= n,
            n == v@.len(),
            v@ == s@,
            forall|j: int| 0 <= j < lo ==> white_space(#[trigger] v@[j]),
        decreases n - lo,
    {
        lo += 1;
    }
    let mut hi: usize = n;
    while hi > lo && is_white_space(v[hi - 1])
        invariant
            lo <= hi <= n,
            n == v@.len(),
            v@ == s@,
            forall|j: int| hi <= j < n ==> white_space(#[trigger] v@[j]),
        decreases hi,
    {
        hi -= 1;
    }
    proof {
        lemma_trim_start(s@, lo as int);
        let t = s@.skip(lo as int);
        assert forall|j: int| hi - lo <= j < t.len() implies white_space(#[trigger] t[j]) by {
            assert(t[j] == s@[j + lo]);
        }
        if hi > lo {
            assert(t[hi - lo - 1] == s@[hi - 1]);
        }
        lemma_trim_end(t, hi - lo);
        assert(t.take(hi - lo) =~= s@.subrange(lo as int, hi as int));
    }
    s.substring_char(lo, hi)
}

/// What `String::from_utf8_lossy` gives for bytes that are not valid UTF-8:
/// their decoding with each invalid sequence replaced by U+FFFD.
pub uninterp spec fn lossy_decoding(b: Seq<u8>) -> Seq<char>;

/// The text of some bytes read as UTF-8: their decoding when valid, and the
/// lossy decoding otherwise.
pub open spec fn lossy_text(b: Seq<u8>) -> Seq<char> {
    if valid_utf8(b) {
        decode_utf8(b)
    } else {
        lossy_decoding(b)
    }
}

/// `String::from_utf8_lossy`. For valid UTF-8 the result is the decoding of
/// the bytes; otherwise it is named `lossy_decoding`, and how invalid sequences
/// are replaced is left unsaid.
#[verifier::external_body]
pub fn utf8_lossy(b: &[u8]) -> (s: String)
    ensures
        s@ == lossy_text(b@),
        !valid_utf8(b@) ==> s@ == lossy_decoding(b@),
{
    String::from_utf8_lossy(b).into_owned()
}

/// An ASCII decimal digit.
pub open spec fn is_digit_char(c: char) -> bool {
    '0' <= c && c <= '9'
}

/// The number that a string of decimal digits spells.
pub open spec fn digits_value(s: Seq<char>) -> nat
    decreases s.len(),
{
    if s.len() == 0 {
        0
    } else {
        digits_value(s.drop_last()) * 10 + ((s.last() as u32) - 48) as nat
    }
}

/// The `Display` text of the error `usize::from_str` gives for a string it refuses.
pub uninterp spec fn usize_parse_error_text(s: Seq<char>) -> Seq<char>;

/// Every character of `s` is an ASCII digit.
pub open spec fn all_digits(s: Seq<char>) -> bool {
    forall|i: int| 0 <= i < s.len() ==> is_digit_char(#[trigger] s[i])
}

/// The digits of a number to be read as unsigned: the string without one
/// leading `+`, if it has one.
pub open spec fn unsigned_digits(s: Seq<char>) -> Seq<char> {
    if s.len() > 0 && s[0] == '+' {
        s.skip(1)
    } else {
        s
    }
}

/// What `usize::from_str` reads from a string: an optional `+` followed by
/// at least one ASCII digit and nothing else, whose value fits, is that value;
/// anything else is refused.
pub open spec fn usize_parse(s: Seq<char>) -> Option<usize> {
    let d = unsigned_digits(s);
    if d.len() > 0 && all_digits(d) && digits_value(d) <= usize::MAX {
        Some(digits_value(d) as usize)
    } else {
        None
    }
}

/// `str::parse::<usize>`, with the error turned into its `Display` text. As
/// documented for `usize::from_str_radix` (base 10), the string must be an
/// optional `+` followed by digits only, and a value that does not fit is
/// refused (`usize_parse`). The wording of the error is named
/// `usize_parse_error_text`.
#[verifier::external_body]
pub fn parse_usize(s: &str) -> (r: Result<usize, String>)
    ensures
        r is Ok <==> usize_parse(s@) is Some,
        r is Ok ==> usize_parse(s@) == Some(r->Ok_0),
        r is Err ==> r->Err_0@ == usize_parse_error_text(s@),
{
    match s.parse::<usize>() {
        Ok(n) => Ok(n),
        Err(e) => Err(e.to_string()),
    }
}

/// A character with the Unicode `White_Space` property, which is what
/// `char::is_whitespace` tests.
pub open spec fn white_space(c: char) -> bool {
    ||| ('\t' <= c && c <= '\r')
    ||| c == ' '
    ||| c == '\u{85}'
    ||| c == '\u{A0}'
    ||| c == '\u{1680}'
    ||| ('\u{2000}' <= c && c <= '\u{200A}')
    ||| c == '\u{2028}'
    ||| c == '\u{2029}'
    ||| c == '\u{202F}'
    ||| c == '\u{205F}'
    ||| c == '\u{3000}'
}

/// Whether `c` has the Unicode `White_Space` property.
pub fn is_white_space(c: char) -> (r: bool)
    ensures
        r == white_space(c),
{
    ('\t' <= c && c <= '\r') || c == ' ' || c == '\u{85}' || c == '\u{A0}' || c == '\u{1680}' || (
    '\u{2000}' <= c && c <= '\u{200A}') || c == '\u{2028}' || c == '\u{2029}' || c == '\u{202F}'
        || c == '\u{205F}' || c == '\u{3000}'
}

/// The length of the run of non-whitespace characters at the start of `s`.
pub open spec fn word_len(s: Seq<char>) -> nat
    decreases s.len(),
{
    if s.len() == 0 || white_space(s[0]) {
        0
    } else {
        1 + word_len(s.drop_first())
    }
}

pub proof fn lemma_word_len_bound(s: Seq<char>)
    ensures
        word_len(s) <= s.len(),
        s.len() > 0 && !white_space(s[0]) ==> word_len(s) >= 1,
    decreases s.len(),
{
    if s.len() > 0 && !white_space(s[0]) {
        lemma_word_len_bound(s.drop_first());
    }
}

/// The words of `s`: its maximal runs of non-whitespace characters, in order,
/// as `str::split_whitespace` gives them.
pub open spec fn words(s: Seq<char>) -> Seq<Seq<char>>
    decreases s.len(),
{
    if s.len() == 0 {
        Seq::empty()
    } else if white_space(s[0]) {
        words(s.drop_first())
    } else {
        let n = word_len(s);
        proof {
            lemma_word_len_bound(s);
        }
        seq![s.take(n as int)].add(words(s.skip(n as int)))
    }
}

/// No character of `w` is whitespace.
pub open spec fn no_white_space(w: Seq<char>) -> bool {
    forall|i: int| 0 <= i < w.len() ==> !white_space(#[trigger] w[i])
}

proof fn lemma_word_len_of_word(w: Seq<char>, t: Seq<char>)
    requires
        no_white_space(w),
        t.len() == 0 || white_space(t[0]),
    ensures
        word_len(w + t) == w.len(),
    decreases w.len(),
{
    if w.len() == 0 {
        assert(w + t =~= t);
    } else {
        assert((w + t).drop_first() =~= w.drop_first() + t);
        lemma_word_len_of_word(w.drop_first(), t);
    }
}

proof fn lemma_words_after_word(w: Seq<char>, t: Seq<char>)
    requires
        w.len() > 0,
        no_white_space(w),
        t.len() == 0 || white_space(t[0]),
    ensures
        words(w + t) == seq![w].add(words(t)),
{
    lemma_word_len_of_word(w, t);
    assert((w + t).take(w.len() as int) =~= w);
    assert((w + t).skip(w.len() as int) =~= t);
}

/// `str::split_whitespace`: the words of `s`.
pub fn split_words(s: &str) -> (r: Vec<String>)
    ensures
        r@.map_values(|x: String| x@) == words(s@),
{
    let v = chars_of(s);
    let mut out: Vec<String> = Vec::new();
    let mut cur: Vec<char> = Vec::new();
    let mut i: usize = 0;
    proof {
        assert(cur@ + v@.skip(0) =~= s@);
        assert(out@.map_values(|x: String| x@) + words(s@) =~= words(s@));
    }
    while i < v.len()
        invariant
            i <= v@.len(),
            v@ == s@,
            no_white_space(cur@),
            words(s@) == out@.map_values(|x: String| x@) + words(cur@ + v@.skip(i as int)),
        decreases v@.len() - i,
    {
        let c = v[i];
        let ghost rest = v@.skip(i + 1);
        let ghost before = out@.map_values(|x: String| x@);
        let ghost word = cur@;
        assert(v@.skip(i as int) =~= seq![c] + rest);
        assert((seq![c] + rest).drop_first() =~= rest);
        if is_white_space(c) {
            if cur.len() > 0 {
                proof {
                    lemma_words_after_word(word, seq![c] + rest);
                }
                let w = string_of(&cur);
                out.push(w);
                cur = Vec::new();
                proof {
                    assert(out@.map_values(|x: String| x@) =~= before.push(word));
                    assert(cur@ + rest =~= rest);
                    assert(before + (seq![word] + words(rest)) =~= before.push(word) + words(rest));
                }
            } else {
                proof {
                    assert(cur@ + v@.skip(i as int) =~= seq![c] + rest);
                    assert(cur@ + rest =~= rest);
                }
            }
        } else {
            cur.push(c);
            proof {
                assert(cur@ + rest =~= word + v@.skip(i as int));
            }
        }
        i += 1;
    }
    proof {
        assert(v@.skip(i as int) =~= Seq::<char>::empty());
        assert(cur@ + v@.skip(i as int) =~= cur@);
    }
    if cur.len() > 0 {
        proof {
            lemma_words_after_word(cur@, Seq::<char>::empty());
            assert(cur@ + Seq::<char>::empty() =~= cur@);
        }
        let ghost before = out@.map_values(|x: String| x@);
        let w = string_of(&cur);
        out.push(w);
        proof {
            assert(out@.map_values(|x: String| x@) =~= before.push(cur@));
            assert(before + seq![cur@].add(words(Seq::<char>::empty())) =~= before.push(cur@));
        }
    } else {
        assert(words(cur@) =~= Seq::<Seq<char>>::empty());
        assert(out@.map_values(|x: String| x@) + Seq::<Seq<char>>::empty() =~= out@.map_values(|x: String| x@));
    }
    out
}

} // verus!
