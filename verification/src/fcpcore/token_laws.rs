//! What the tokenizer gives back for plain words: words without spaces,
//! quotes or backslashes, joined by single spaces, are split back into
//! exactly those words.
use vstd::prelude::*;
use crate::fcpcore::tokenizer::{
    backslash, quote, skip_spaces, space, token_at, tokens_from, unescape_newlines,
    unquoted_raw, is_key_value_text, key_of, raw_value_of, colon_index, is_first_colon,
};

verus! {

/// A byte that may stand in a plain word: not a space, a quote or a
/// backslash.
pub open spec fn word_byte(x: u8) -> bool {
    x != space() && x != quote() && x != backslash()
}

/// A plain word: at least one byte, each of them a word byte.
pub open spec fn plain_word(w: Seq<u8>) -> bool {
    w.len() > 0 && forall|i: int| 0 <= i < w.len() ==> word_byte(#[trigger] w[i])
}

/// The characters of some bytes, one per byte.
pub open spec fn byte_chars(b: Seq<u8>) -> Seq<char> {
    b.map_values(|x: u8| x as char)
}

/// The words joined by single spaces.
pub open spec fn spaced(ws: Seq<Seq<u8>>) -> Seq<u8>
    decreases ws.len(),
{
    if ws.len() == 0 {
        Seq::empty()
    } else if ws.len() == 1 {
        ws[0]
    } else {
        ws[0] + seq![space()] + spaced(ws.drop_first())
    }
}

proof fn lemma_unquoted_word(b: Seq<u8>, i: int, e: int)
    requires
        0 <= i <= e <= b.len(),
        forall|j: int| i <= j < e ==> word_byte(#[trigger] b[j]),
        e == b.len() || b[e] == space(),
    ensures
        unquoted_raw(b, i, false) == (byte_chars(b.subrange(i, e)), e),
    decreases e - i,
{
    if i < e {
        lemma_unquoted_word(b, i + 1, e);
        assert(byte_chars(b.subrange(i, e)) =~= seq![b[i] as char] + byte_chars(b.subrange(i + 1, e)));
    } else {
        assert(byte_chars(b.subrange(i, e)) =~= Seq::<char>::empty());
    }
}

proof fn lemma_unescape_plain(s: Seq<char>)
    requires
        forall|j: int| 0 <= j < s.len() ==> #[trigger] s[j] != '\\',
    ensures
        unescape_newlines(s) == s,
    decreases s.len(),
{
    if s.len() > 0 {
        let t = s.skip(1);
        assert forall|j: int| 0 <= j < t.len() implies #[trigger] t[j] != '\\' by {
            assert(t[j] == s[j + 1]);
        }
        lemma_unescape_plain(t);
        assert(s =~= seq![s[0]] + t);
    }
}

proof fn lemma_tokens_after(p: Seq<u8>, ws: Seq<Seq<u8>>)
    requires
        forall|k: int| 0 <= k < ws.len() ==> plain_word(#[trigger] ws[k]),
    ensures
        tokens_from(p + spaced(ws), p.len() as int) == ws.map_values(|w: Seq<u8>| byte_chars(w)),
    decreases ws.len(),
{
    let b = p + spaced(ws);
    let n = p.len() as int;
    if ws.len() == 0 {
        assert(b =~= p);
        assert(skip_spaces(b, n) == n);
        assert(ws.map_values(|w: Seq<u8>| byte_chars(w)) =~= Seq::<Seq<char>>::empty());
    } else {
        let w = ws[0];
        assert(plain_word(w));
        let e = n + w.len();
        let rest: Seq<u8> = if ws.len() == 1 {
            Seq::empty()
        } else {
            seq![space()] + spaced(ws.drop_first())
        };
        assert(spaced(ws) =~= w + rest);
        assert(b =~= p + w + rest);
        assert(b[n] == w[0]);
        assert(skip_spaces(b, n) == n);
        assert forall|j: int| n <= j < e implies word_byte(#[trigger] b[j]) by {
            assert(b[j] == w[j - n]);
        }
        lemma_unquoted_word(b, n, e);
        assert(b.subrange(n, e) =~= w);
        let cs = byte_chars(w);
        assert forall|j: int| 0 <= j < cs.len() implies #[trigger] cs[j] != '\\' by {
            assert(word_byte(w[j]));
            assert(w[j] != backslash());
            assert((w[j] as char) != '\\');
        }
        lemma_unescape_plain(cs);
        assert(b[n] != quote());
        assert(token_at(b, n) == (cs, e));
        let ws2 = ws.drop_first();
        assert forall|k: int| 0 <= k < ws2.len() implies plain_word(#[trigger] ws2[k]) by {
            assert(ws2[k] == ws[k + 1]);
        }
        assert(ws.map_values(|w: Seq<u8>| byte_chars(w)) =~= seq![cs] + ws2.map_values(
            |w: Seq<u8>| byte_chars(w),
        ));
        if ws.len() == 1 {
            assert(b.len() == e);
            assert(tokens_from(b, e) =~= Seq::<Seq<char>>::empty());
            assert(ws2.map_values(|w: Seq<u8>| byte_chars(w)) =~= Seq::<Seq<char>>::empty());
        } else {
            let p2 = p + w + seq![space()];
            assert(b =~= p2 + spaced(ws2));
            lemma_tokens_after(p2, ws2);
            assert(plain_word(ws2[0]));
            assert(b[e] == space());
            assert(b[e + 1] == ws2[0][0]);
            assert(skip_spaces(b, e + 1) == e + 1);
            assert(skip_spaces(b, e) == e + 1);
            assert(tokens_from(b, e) == tokens_from(b, e + 1));
        }
    }
}

/// Plain words joined by single spaces tokenize back into those words.
pub proof fn law_plain_words_round_trip(ws: Seq<Seq<u8>>)
    requires
        forall|k: int| 0 <= k < ws.len() ==> plain_word(#[trigger] ws[k]),
    ensures
        tokens_from(spaced(ws), 0) == ws.map_values(|w: Seq<u8>| byte_chars(w)),
{
    lemma_tokens_after(Seq::empty(), ws);
    assert(Seq::<u8>::empty() + spaced(ws) =~= spaced(ws));
}

/// The length of the run of non-space bytes at the start of `b`.
pub open spec fn space_run(b: Seq<u8>) -> nat
    decreases b.len(),
{
    if b.len() == 0 || b[0] == space() {
        0
    } else {
        1 + space_run(b.drop_first())
    }
}

pub proof fn lemma_space_run(b: Seq<u8>)
    ensures
        space_run(b) <= b.len(),
        forall|j: int| 0 <= j < space_run(b) ==> #[trigger] b[j] != space(),
        space_run(b) < b.len() ==> b[space_run(b) as int] == space(),
        b.len() > 0 && b[0] != space() ==> space_run(b) >= 1,
    decreases b.len(),
{
    if b.len() > 0 && b[0] != space() {
        let t = b.drop_first();
        lemma_space_run(t);
        assert forall|j: int| 0 <= j < space_run(b) implies #[trigger] b[j] != space() by {
            if j > 0 {
                assert(b[j] == t[j - 1]);
            }
        }
    }
}

/// The pieces of `b` between spaces, empty pieces left out: what splitting
/// on single spaces and dropping the empty parts gives.
pub open spec fn space_split(b: Seq<u8>) -> Seq<Seq<u8>>
    decreases b.len(),
{
    if b.len() == 0 {
        Seq::empty()
    } else if b[0] == space() {
        space_split(b.drop_first())
    } else {
        let n = space_run(b);
        proof {
            lemma_space_run(b);
        }
        seq![b.take(n as int)].add(space_split(b.skip(n as int)))
    }
}

proof fn lemma_tokens_plain(b: Seq<u8>, i: int)
    requires
        0 <= i <= b.len(),
        forall|j: int| i <= j < b.len() ==> #[trigger] b[j] != quote() && b[j] != backslash(),
    ensures
        tokens_from(b, i) == space_split(b.skip(i)).map_values(|w: Seq<u8>| byte_chars(w)),
    decreases b.len() - i,
{
    let t = b.skip(i);
    if i == b.len() {
        assert(t =~= Seq::<u8>::empty());
        assert(space_split(t).map_values(|w: Seq<u8>| byte_chars(w)) =~= Seq::<Seq<char>>::empty());
    } else if b[i] == space() {
        lemma_tokens_plain(b, i + 1);
        assert(t.drop_first() =~= b.skip(i + 1));
        assert(skip_spaces(b, i) == skip_spaces(b, i + 1));
        assert(tokens_from(b, i) == tokens_from(b, i + 1));
    } else {
        lemma_space_run(t);
        let n = space_run(t) as int;
        let e = i + n;
        assert forall|j: int| i <= j < e implies word_byte(#[trigger] b[j]) by {
            assert(b[j] == t[j - i]);
        }
        if e < b.len() {
            assert(b[e] == t[n]);
        }
        lemma_unquoted_word(b, i, e);
        let cs = byte_chars(b.subrange(i, e));
        assert forall|j: int| 0 <= j < cs.len() implies #[trigger] cs[j] != '\\' by {
            assert(b[i + j] != backslash());
            assert(cs[j] == (b[i + j] as char));
        }
        lemma_unescape_plain(cs);
        assert(skip_spaces(b, i) == i);
        assert(token_at(b, i) == (cs, e));
        lemma_tokens_plain(b, e);
        assert(t.take(n) =~= b.subrange(i, e));
        assert(t.skip(n) =~= b.skip(e));
        let rest = space_split(b.skip(e));
        assert(space_split(t) == seq![b.subrange(i, e)].add(rest));
        assert(seq![b.subrange(i, e)].add(rest).map_values(|w: Seq<u8>| byte_chars(w)) =~= seq![cs]
            + rest.map_values(|w: Seq<u8>| byte_chars(w)));
    }
}

/// Bytes without quotes or backslashes tokenize into their pieces between
/// spaces (empty pieces left out), each byte read as a character.
pub proof fn law_plain_bytes_split_on_spaces(b: Seq<u8>)
    requires
        forall|j: int| 0 <= j < b.len() ==> #[trigger] b[j] != quote() && b[j] != backslash(),
    ensures
        tokens_from(b, 0) == space_split(b).map_values(|w: Seq<u8>| byte_chars(w)),
{
    lemma_tokens_plain(b, 0);
    assert(b.skip(0) =~= b);
}

/// A token made of a key of ASCII letters (either case), digits, `_` and
/// `-`, a colon and a non-empty value is a `key:value` token, whose key is
/// everything before the colon and whose value everything after it.
pub proof fn law_key_value_tokens(key: Seq<char>, value: Seq<char>)
    requires
        key.len() > 0,
        value.len() > 0,
        forall|i: int|
            0 <= i < key.len() ==> ('a' <= #[trigger] key[i] && key[i] <= 'z') || ('A' <= key[i] && key[i]
                <= 'Z') || ('0' <= key[i] && key[i] <= '9') || key[i] == '_' || key[i] == '-',
    ensures
        is_key_value_text(key + seq![':'] + value),
        key_of(key + seq![':'] + value) == key,
        raw_value_of(key + seq![':'] + value) == value,
{
    let t = key + seq![':'] + value;
    let n = key.len() as int;
    assert(t[n] == ':');
    assert forall|j: int| 0 <= j < n implies t[j] != ':' by {
        assert(t[j] == key[j]);
    }
    assert(is_first_colon(t, n));
    let c = colon_index(t);
    assert(is_first_colon(t, c));
    if c < n {
        assert(t[c] == key[c]);
    }
    if c > n {
        assert(t[n] != ':');
    }
    assert(c == n);
    assert(t[0] == key[0]);
    assert(t.len() >= 3 || t.len() == 3);
    if t == seq!['-', '>'] || t == seq!['<', '-', '>'] || t == seq!['-', '-'] {
        assert(t.len() <= 3);
        assert(false) by {
            if t.len() == 2 {
                assert(t[1] == ':');
            } else {
                assert(t[1] == ':' || t[2] != ':');
            }
        }
    }
    assert forall|j: int| 0 <= j < c implies #[trigger] t[j] == key[j] by {}
    assert(t.take(n) =~= key);
    assert(t.skip(n + 1) =~= value);
}

/// A token whose text before its first colon holds a character other than
/// an ASCII letter, a digit, `_` or `-` is not a `key:value` token.
pub proof fn law_key_with_other_char_is_not_key_value(key: Seq<char>, value: Seq<char>, i: int)
    requires
        0 <= i < key.len(),
        forall|j: int| 0 <= j < key.len() ==> #[trigger] key[j] != ':',
        !(('a' <= key[i] && key[i] <= 'z') || ('A' <= key[i] && key[i] <= 'Z') || ('0' <= key[i]
            && key[i] <= '9') || key[i] == '_' || key[i] == '-'),
    ensures
        !is_key_value_text(key + seq![':'] + value),
{
    let t = key + seq![':'] + value;
    let n = key.len() as int;
    assert(t[n] == ':');
    assert forall|j: int| 0 <= j < n implies t[j] != ':' by {
        assert(t[j] == key[j]);
    }
    assert(is_first_colon(t, n));
    let c = colon_index(t);
    assert(is_first_colon(t, c));
    if c < n {
        assert(t[c] == key[c]);
    }
    assert(c == n);
    assert(t[i] == key[i]);
}

/// A token with nothing after its first colon, or nothing before it, is not a
/// `key:value` token.
pub proof fn law_key_value_needs_key_and_value(key: Seq<char>, value: Seq<char>)
    requires
        forall|j: int| 0 <= j < key.len() ==> #[trigger] key[j] != ':',
    ensures
        !is_key_value_text(key + seq![':']),
        !is_key_value_text(seq![':'] + value),
{
    let t = key + seq![':'];
    let n = key.len() as int;
    assert(t[n] == ':');
    assert forall|j: int| 0 <= j < n implies t[j] != ':' by {
        assert(t[j] == key[j]);
    }
    assert(is_first_colon(t, n));
    let c = colon_index(t);
    assert(is_first_colon(t, c));
    if c < n {
        assert(t[c] == key[c]);
    }
    let u = seq![':'] + value;
    assert(u[0] == ':');
    assert(is_first_colon(u, 0));
    assert(is_first_colon(u, colon_index(u)));
}

} // verus!
