//! Response formatting: the `ERROR:` / prefix convention for results, and
//! "did you mean" suggestions by Levenshtein distance.
use vstd::prelude::*;
use vstd::string::StringSliceAdditionalSpecFns;
use vstd::utf8::{encode_utf8, is_ascii_chars};
use crate::text::{concat2, concat3, to_lowercase, lowercase_of};

verus! {

/// The text of a result: `ERROR: message` on failure (the prefix is then
/// ignored), `prefix message` on success with a non-empty prefix, and the
/// message alone otherwise.
pub open spec fn format_result_text(success: bool, message: Seq<char>, prefix: Option<Seq<char>>) -> Seq<char> {
    if !success {
        "ERROR: "@ + message
    } else {
        match prefix {
            Some(p) => if p.len() > 0 {
                p + " "@ + message
            } else {
                message
            },
            None => message,
        }
    }
}

/// Formats a result with the prefix convention.
///
/// If `success` is false, returns `"ERROR: message"` (the prefix is ignored).
/// If `success` is true and a non-empty prefix is given, returns
/// `"prefix message"`. Otherwise returns just the message.
///
/// Prefix conventions: `+` created, `~` modified (edge/connection), `*`
/// changed (property), `-` removed, `!` meta/group operation, `@` bulk/layout
/// operation.
pub fn format_result(success: bool, message: &str, prefix: Option<&str>) -> (r: String)
    ensures
        r@ == format_result_text(
            success,
            message@,
            match prefix {
                Some(p) => Some(p@),
                None => None,
            },
        ),
{
    if !success {
        return concat2("ERROR: ", message);
    }
    match prefix {
        Some(p) => {
            if !p.is_empty() {
                concat3(p, " ", message)
            } else {
                String::from_str(message)
            }
        },
        None => String::from_str(message),
    }
}

/// The smallest of three numbers.
pub open spec fn min3(x: nat, y: nat, z: nat) -> nat {
    if x <= y && x <= z {
        x
    } else if y <= z {
        y
    } else {
        z
    }
}

/// The Levenshtein (edit) distance between the first `i` bytes of `a` and the
/// first `j` bytes of `b`: the fewest single-byte insertions, deletions and
/// substitutions that turn one into the other.
pub open spec fn edit_distance(a: Seq<u8>, b: Seq<u8>, i: nat, j: nat) -> nat
    decreases i + j,
{
    if i == 0 {
        j
    } else if j == 0 {
        i
    } else if a[i - 1] == b[j - 1] {
        edit_distance(a, b, (i - 1) as nat, (j - 1) as nat)
    } else {
        1 + min3(
            edit_distance(a, b, (i - 1) as nat, (j - 1) as nat),
            edit_distance(a, b, (i - 1) as nat, j),
            edit_distance(a, b, i, (j - 1) as nat),
        )
    }
}

/// The Levenshtein distance between two byte strings.
pub open spec fn levenshtein_spec(a: Seq<u8>, b: Seq<u8>) -> nat {
    edit_distance(a, b, a.len(), b.len())
}

proof fn lemma_edit_distance_bound(a: Seq<u8>, b: Seq<u8>, i: nat, j: nat)
    ensures
        edit_distance(a, b, i, j) <= if i >= j {
            i
        } else {
            j
        },
    decreases i + j,
{
    if i == 0 || j == 0 {
    } else {
        lemma_edit_distance_bound(a, b, (i - 1) as nat, (j - 1) as nat);
        lemma_edit_distance_bound(a, b, (i - 1) as nat, j);
        lemma_edit_distance_bound(a, b, i, (j - 1) as nat);
    }
}

proof fn lemma_edit_distance_symmetric(a: Seq<u8>, b: Seq<u8>, i: nat, j: nat)
    ensures
        edit_distance(a, b, i, j) == edit_distance(b, a, j, i),
    decreases i + j,
{
    if i > 0 && j > 0 {
        lemma_edit_distance_symmetric(a, b, (i - 1) as nat, (j - 1) as nat);
        lemma_edit_distance_symmetric(a, b, (i - 1) as nat, j);
        lemma_edit_distance_symmetric(a, b, i, (j - 1) as nat);
    }
}

proof fn lemma_edit_distance_diagonal(a: Seq<u8>, i: nat)
    ensures
        edit_distance(a, a, i, i) == 0,
    decreases i,
{
    if i > 0 {
        lemma_edit_distance_diagonal(a, (i - 1) as nat);
    }
}

/// The Levenshtein distance is symmetric.
pub proof fn law_levenshtein_symmetric(a: Seq<u8>, b: Seq<u8>)
    ensures
        levenshtein_spec(a, b) == levenshtein_spec(b, a),
{
    lemma_edit_distance_symmetric(a, b, a.len(), b.len());
}

/// A string is at distance zero from itself, and at its length from the empty
/// string.
pub proof fn law_levenshtein_self_and_empty(a: Seq<u8>)
    ensures
        levenshtein_spec(a, a) == 0,
        levenshtein_spec(a, Seq::<u8>::empty()) == a.len(),
        levenshtein_spec(Seq::<u8>::empty(), a) == a.len(),
{
    lemma_edit_distance_diagonal(a, a.len());
}

/// Computes the Levenshtein distance between the UTF-8 bytes of two strings,
/// keeping one row of the distance table.
fn levenshtein(a: &str, b: &str) -> (d: usize)
    ensures
        d == levenshtein_spec(a.spec_bytes(), b.spec_bytes()),
{
    let a_bytes = a.as_bytes();
    let b_bytes = b.as_bytes();
    let m = a_bytes.len();
    let n = b_bytes.len();
    let ghost sa = a_bytes@;
    let ghost sb = b_bytes@;

    let mut prev: Vec<usize> = Vec::new();
    let mut k: usize = 0;
    while k < n
        invariant
            k <= n,
            n == sb.len(),
            prev@.len() == k,
            forall|j: int| 0 <= j < k ==> prev@[j] == j,
        decreases n - k,
    {
        prev.push(k);
        k = k + 1;
    }
    prev.push(n);
    assert forall|j: int| 0 <= j <= n implies prev@[j] == edit_distance(sa, sb, 0, j as nat) by {}

    let mut i: usize = 0;
    while i < m
        invariant
            i <= m,
            m == sa.len(),
            n == sb.len(),
            sa == a_bytes@,
            sb == b_bytes@,
            prev@.len() == n + 1,
            forall|j: int| 0 <= j <= n ==> prev@[j] == edit_distance(sa, sb, i as nat, j as nat),
        decreases m - i,
    {
        let mut prev_diag = prev[0];
        prev.set(0, i + 1);
        let mut j: usize = 0;
        while j < n
            invariant
                i < m,
                j <= n,
                m == sa.len(),
                n == sb.len(),
                sa == a_bytes@,
                sb == b_bytes@,
                prev@.len() == n + 1,
                prev_diag == edit_distance(sa, sb, i as nat, j as nat),
                forall|q: int| 0 <= q <= j ==> prev@[q] == edit_distance(sa, sb, (i + 1) as nat, q as nat),
                forall|q: int| j < q <= n ==> prev@[q] == edit_distance(sa, sb, i as nat, q as nat),
            decreases n - j,
        {
            let temp = prev[j + 1];
            if a_bytes[i] == b_bytes[j] {
                prev.set(j + 1, prev_diag);
            } else {
                let left = prev[j];
                let min_val = if prev_diag <= left && prev_diag <= temp {
                    prev_diag
                } else if left <= temp {
                    left
                } else {
                    temp
                };
                proof {
                    lemma_edit_distance_bound(sa, sb, i as nat, j as nat);
                }
                prev.set(j + 1, 1 + min_val);
            }
            prev_diag = temp;
            j += 1;
        }
        i += 1;
    }
    prev[n]
}

/// The distance by which a candidate is ranked against an input: the
/// Levenshtein distance between the UTF-8 bytes of their lower-case forms.
pub open spec fn suggest_distance(input: Seq<char>, candidate: Seq<char>) -> nat {
    levenshtein_spec(encode_utf8(lowercase_of(input)), encode_utf8(lowercase_of(candidate)))
}

/// `c` made upper case if it is a lower-case ASCII letter.
pub open spec fn ascii_upper_char(c: char) -> char {
    if 'a' <= c && c <= 'z' {
        ((c as u32) - 32) as char
    } else {
        c
    }
}

/// `s` with its lower-case ASCII letters made upper case.
pub open spec fn ascii_uppercase(s: Seq<char>) -> Seq<char> {
    s.map_values(|c: char| ascii_upper_char(c))
}

proof fn lemma_uppercase_lowers_back(s: Seq<char>)
    requires
        is_ascii_chars(s),
    ensures
        is_ascii_chars(ascii_uppercase(s)),
        lowercase_of(ascii_uppercase(s)) == lowercase_of(s),
{
    let u = ascii_uppercase(s);
    assert forall|i: int| 0 <= i < u.len() implies '\0' <= #[trigger] u[i] <= '\u{7f}' by {
        assert(u[i] == ascii_upper_char(s[i]));
        assert('\0' <= s[i] <= '\u{7f}');
    }
    assert forall|i: int| 0 <= i < s.len() implies crate::text::ascii_lower_char(#[trigger] u[i])
        == crate::text::ascii_lower_char(s[i]) by {
        assert(u[i] == ascii_upper_char(s[i]));
    }
    assert(lowercase_of(u) =~= lowercase_of(s));
}

/// The distance that ranks suggestions ignores the case of ASCII letters:
/// upper-casing the input or the candidate changes nothing, and a candidate
/// that equals the input up to case is at distance 0 (so it is suggested).
pub proof fn law_suggest_ignores_ascii_case(input: Seq<char>, candidate: Seq<char>)
    requires
        is_ascii_chars(input),
        is_ascii_chars(candidate),
    ensures
        suggest_distance(ascii_uppercase(input), candidate) == suggest_distance(input, candidate),
        suggest_distance(input, ascii_uppercase(candidate)) == suggest_distance(input, candidate),
        suggest_distance(input, ascii_uppercase(input)) == 0,
        suggest_distance(ascii_uppercase(input), input) == 0,
        suggest_distance(input, ascii_uppercase(input)) <= max_suggest_distance(),
{
    lemma_uppercase_lowers_back(input);
    lemma_uppercase_lowers_back(candidate);
    law_levenshtein_self_and_empty(encode_utf8(lowercase_of(input)));
}

/// Against an empty input, an ASCII candidate is at the distance of its
/// length, and it is close enough to be suggested exactly when it has at most
/// three characters.
pub proof fn law_suggest_threshold(candidate: Seq<char>)
    requires
        is_ascii_chars(candidate),
    ensures
        suggest_distance(Seq::<char>::empty(), candidate) == candidate.len(),
        suggest_distance(Seq::<char>::empty(), candidate) <= max_suggest_distance() <==> candidate.len()
            <= 3,
{
    let e = Seq::<char>::empty();
    assert(is_ascii_chars(e));
    assert(lowercase_of(e) =~= e);
    assert(encode_utf8(e) =~= Seq::<u8>::empty());
    let l = lowercase_of(candidate);
    vstd::utf8::is_ascii_chars_encode_utf8(l);
    assert(is_ascii_chars(l)) by {
        assert forall|i: int| 0 <= i < l.len() implies '\0' <= #[trigger] l[i] <= '\u{7f}' by {
            assert(l[i] == crate::text::ascii_lower_char(candidate[i]));
            assert('\0' <= candidate[i] <= '\u{7f}');
        }
    }
    vstd::utf8::is_ascii_chars_encode_utf8(l);
    law_levenshtein_self_and_empty(encode_utf8(l));
}

/// The largest distance at which a candidate is still suggested.
pub open spec fn max_suggest_distance() -> nat {
    3
}

/// Finds the closest candidate for a misspelled input, by Levenshtein
/// distance between the lower-case forms. Among equally close candidates the
/// first wins. Returns `None` if no candidate is close enough (distance > 3).
pub fn suggest(input: &str, candidates: &[&str]) -> (r: Option<String>)
    ensures
        match r {
            Some(s) => exists|k: int|
                #![trigger candidates@[k]]
                {
                    &&& 0 <= k < candidates@.len()
                    &&& s@ == candidates@[k]@
                    &&& suggest_distance(input@, candidates@[k]@) <= max_suggest_distance()
                    &&& forall|j: int|
                        0 <= j < candidates@.len() ==> suggest_distance(input@, candidates@[k]@)
                            <= suggest_distance(input@, #[trigger] candidates@[j]@)
                    &&& forall|j: int|
                        0 <= j < k ==> suggest_distance(input@, candidates@[k]@) < suggest_distance(
                            input@,
                            #[trigger] candidates@[j]@,
                        )
                },
            None => forall|k: int|
                0 <= k < candidates@.len() ==> suggest_distance(input@, #[trigger] candidates@[k]@)
                    > max_suggest_distance(),
        },
{
    if candidates.len() == 0 {
        return None;
    }
    let input_lower = to_lowercase(input);
    let mut best: Option<usize> = None;
    let mut best_dist: usize = 999;
    let mut i: usize = 0;
    while i < candidates.len()
        invariant
            i <= candidates@.len(),
            input_lower@ == lowercase_of(input@),
            match best {
                None => best_dist == 999 && forall|j: int|
                    0 <= j < i ==> suggest_distance(input@, #[trigger] candidates@[j]@) >= 999,
                Some(k) => {
                    &&& k < i
                    &&& best_dist == suggest_distance(input@, candidates@[k as int]@)
                    &&& forall|j: int|
                        0 <= j < i ==> best_dist <= suggest_distance(
                            input@,
                            #[trigger] candidates@[j]@,
                        )
                    &&& forall|j: int|
                        0 <= j < k ==> best_dist < suggest_distance(
                            input@,
                            #[trigger] candidates@[j]@,
                        )
                },
            },
        decreases candidates@.len() - i,
    {
        let candidate_lower = to_lowercase(candidates[i]);
        let dist = levenshtein(input_lower.as_str(), candidate_lower.as_str());
        assert(dist == suggest_distance(input@, candidates@[i as int]@));
        if dist < best_dist {
            best_dist = dist;
            best = Some(i);
        }
        i += 1;
    }
    if best_dist <= 3 {
        match best {
            Some(k) => {
                let s = String::from_str(candidates[k]);
                assert(candidates@[k as int]@ == s@);
                Some(s)
            },
            None => None,
        }
    } else {
        None
    }
}

} // verus!
