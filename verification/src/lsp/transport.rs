//! Content-Length framing of LSP messages: encoding a frame, and reading the
//! header lines of one.
use vstd::prelude::*;
use vstd::utf8::{encode_utf8, encode_utf8_valid_utf8, encode_utf8_decode_utf8, is_ascii_chars};
use crate::text::{
    all_digits, trim_end_ws, trim_start_ws, digit_char, digits_value, is_digit_char,
    chars_of, concat2, concat3, decimal, lossy_text, parse_usize, usize_parse, string_from_range,
    trim, trimmed, unsigned_digits, usize_parse_error_text, usize_text, utf8_lossy,
};

verus! {

/// The header of a frame whose body is `len` bytes long.
pub open spec fn frame_header(len: nat) -> Seq<char> {
    "Content-Length: "@ + decimal(len) + "\r\n\r\n"@
}

/// Encode a message body with Content-Length header framing.
pub fn encode_message(body: &[u8]) -> (buf: Vec<u8>)
    ensures
        buf@ == encode_utf8(frame_header(body@.len())) + body@,
{
    let header = concat3("Content-Length: ", usize_text(body.len()).as_str(), "\r\n\r\n");
    let hb = header.as_str().as_bytes();
    let mut buf: Vec<u8> = Vec::new();
    let mut i: usize = 0;
    while i < hb.len()
        invariant
            i <= hb@.len(),
            buf@ == hb@.take(i as int),
        decreases hb@.len() - i,
    {
        buf.push(hb[i]);
        i += 1;
        assert(buf@ =~= hb@.take(i as int));
    }
    let mut j: usize = 0;
    assert(hb@.take(hb@.len() as int) =~= hb@);
    while j < body.len()
        invariant
            j <= body@.len(),
            buf@ == hb@ + body@.take(j as int),
        decreases body@.len() - j,
    {
        buf.push(body[j]);
        j += 1;
        assert(buf@ =~= hb@ + body@.take(j as int));
    }
    assert(body@.take(body@.len() as int) =~= body@);
    buf
}

/// What one header line of a frame says.
#[derive(Debug, PartialEq, Eq, Structural)]
pub enum HeaderLine {
    /// The empty line that ends the headers.
    End,
    /// A `Content-Length` header with its value.
    ContentLength(usize),
    /// Any other header.
    Other,
}

#[verifier::external_type_specification]
#[verifier::external_body]
pub struct ExJsonValue(serde_json::Value);

/// What `serde_json::from_slice` makes of some bytes read as one JSON value:
/// `None` when it accepts them, or the `Display` text of its error.
pub uninterp spec fn json_parse_error(body: Seq<u8>) -> Option<Seq<char>>;

/// The bytes hold one JSON value, as `serde_json::from_slice` reads it.
pub open spec fn json_accepts(body: Seq<u8>) -> bool {
    json_parse_error(body) is None
}

/// `serde_json::from_slice::<serde_json::Value>`, with the error turned into
/// its `Display` text. Whether it accepts the bytes, and the wording of its
/// error, are named `json_parse_error`; the JSON grammar, and the value it
/// reads (which this library hands on without looking into it), are left
/// unsaid.
#[verifier::external_body]
fn parse_json(body: &[u8]) -> (r: Result<serde_json::Value, String>)
    ensures
        r is Ok <==> json_parse_error(body@) is None,
        r matches Err(e) ==> json_parse_error(body@) == Some(e@),
{
    match serde_json::from_slice(body) {
        Ok(v) => Ok(v),
        Err(e) => Err(e.to_string()),
    }
}

/// Why a message body could not be read.
#[derive(Debug, PartialEq, Eq)]
pub enum BodyError {
    /// Fewer bytes than the announced length arrived.
    Truncated,
    /// The body is not one JSON value; the parser's message.
    Json(String),
}

/// Reads the body of a frame: the first `content_length` bytes of `body`,
/// parsed as one JSON value.
pub fn decode_body(content_length: usize, body: &[u8]) -> (r: Result<serde_json::Value, BodyError>)
    ensures
        body@.len() < content_length <==> r matches Err(BodyError::Truncated),
        body@.len() >= content_length ==> (r is Ok <==> json_accepts(body@.take(content_length as int))),
        r matches Err(BodyError::Json(e)) ==> json_parse_error(body@.take(content_length as int)) == Some(e@),
{
    if body.len() < content_length {
        return Err(BodyError::Truncated);
    }
    let part = &body[0..content_length];
    assert(part@ =~= body@.take(content_length as int));
    match parse_json(part) {
        Ok(v) => Ok(v),
        Err(e) => Err(BodyError::Json(e)),
    }
}

/// Where an incoming JSON-RPC message goes.
#[derive(Debug, Clone, Copy, PartialEq, Eq, Structural)]
pub enum MessageRoute {
    /// A response (it has an `id` and no `method`): to the pending request.
    Response,
    /// A notification (it has a `method` and no `id`): to the notification channel.
    Notification,
    /// A request from the server (it has both) or anything else: ignored.
    Ignore,
}

/// Routes an incoming message by whether it has an `id` and a `method`.
pub fn message_route(has_id: bool, has_method: bool) -> (r: MessageRoute)
    ensures
        r == (if has_id && !has_method {
            MessageRoute::Response
        } else if has_method && !has_id {
            MessageRoute::Notification
        } else {
            MessageRoute::Ignore
        }),
{
    if has_id && !has_method {
        MessageRoute::Response
    } else if has_method && !has_id {
        MessageRoute::Notification
    } else {
        MessageRoute::Ignore
    }
}

/// The name of the length header, with its colon.
pub open spec fn content_length_prefix() -> Seq<char> {
    "Content-Length:"@
}

/// What a header line (its bytes, line ending included) says: read as UTF-8
/// (invalid sequences replaced) and trimmed, an empty line ends the headers; a
/// line starting with `Content-Length:` gives the length written after it
/// (trimmed), or an error if that is not a number; any other line is another
/// header.
pub open spec fn header_line_meaning(line: Seq<u8>) -> Result<HeaderLine, Seq<char>> {
    let t = trimmed(lossy_text(line));
    if t.len() == 0 {
        Ok(HeaderLine::End)
    } else if t.len() >= content_length_prefix().len() && t.take(content_length_prefix().len() as int)
        == content_length_prefix() {
        let v = trimmed(t.skip(content_length_prefix().len() as int));
        match usize_parse(v) {
            Some(n) => Ok(HeaderLine::ContentLength(n)),
            None => Err("invalid Content-Length: "@ + usize_parse_error_text(v)),
        }
    } else {
        Ok(HeaderLine::Other)
    }
}

/// Reads one header line of a frame.
pub fn read_header_line(line: &[u8]) -> (r: Result<HeaderLine, String>)
    ensures
        match r {
            Ok(h) => header_line_meaning(line@) == Ok::<HeaderLine, Seq<char>>(h),
            Err(e) => header_line_meaning(line@) == Err::<HeaderLine, Seq<char>>(e@),
        },
{
    let text = utf8_lossy(line);
    let t = chars_of(trim(text.as_str()));
    if t.len() == 0 {
        return Ok(HeaderLine::End);
    }
    let prefix = chars_of("Content-Length:");
    proof {
        reveal_strlit("Content-Length:");
    }
    let n = prefix.len();
    if t.len() >= n {
        let mut k: usize = 0;
        let mut same = true;
        while k < n
            invariant
                n == prefix@.len(),
                n <= t@.len(),
                k <= n,
                same == (forall|q: int| 0 <= q < k ==> t@[q] == prefix@[q]),
            decreases n - k,
        {
            if t[k] != prefix[k] {
                same = false;
            }
            k += 1;
        }
        if same {
            assert(t@.take(n as int) =~= prefix@);
            let rest = string_from_range(&t, n, t.len());
            assert(rest@ =~= t@.skip(n as int));
            let v = trim(rest.as_str());
            match parse_usize(v) {
                Ok(len) => {
                    return Ok(HeaderLine::ContentLength(len));
                },
                Err(e) => {
                    return Err(concat2("invalid Content-Length: ", e.as_str()));
                },
            }
        } else {
            assert(t@.take(n as int) != prefix@) by {
                let q = choose|q: int| 0 <= q < n && t@[q] != prefix@[q];
                assert(t@.take(n as int)[q] == t@[q]);
            }
        }
    }
    Ok(HeaderLine::Other)
}

/// The body length once the headers are read: the last `Content-Length` seen,
/// or an error if there was none.
pub fn finish_headers(content_length: Option<usize>) -> (r: Result<usize, String>)
    ensures
        match content_length {
            Some(n) => r == Ok::<usize, String>(n),
            None => r matches Err(e) && e@ == "missing Content-Length header"@,
        },
{
    match content_length {
        Some(n) => Ok(n),
        None => Err(String::from_str("missing Content-Length header")),
    }
}

proof fn lemma_decimal_digits(n: nat)
    ensures
        decimal(n).len() > 0,
        all_digits(decimal(n)),
        digits_value(decimal(n)) == n,
        is_ascii_chars(decimal(n)),
    decreases n,
{
    if n < 10 {
        let c = digit_char(n);
        assert((c as u32) == 48 + n);
        assert(decimal(n) == seq![c]);
        assert(seq![c].drop_last() =~= Seq::<char>::empty());
        assert(digits_value(Seq::<char>::empty()) == 0);
        assert(digits_value(seq![c]) == n);
    } else {
        lemma_decimal_digits(n / 10);
        let p = decimal(n / 10);
        let c = digit_char(n % 10);
        assert((c as u32) == 48 + n % 10);
        assert(decimal(n) == p.push(c));
        assert(p.push(c).drop_last() =~= p);
        assert(n == (n / 10) * 10 + n % 10);
        assert(digits_value(p.push(c)) == digits_value(p) * 10 + ((c as u32) - 48) as nat);
        assert forall|i: int| 0 <= i < p.push(c).len() implies is_digit_char(#[trigger] p.push(c)[i]) by {
            if i < p.len() {
                assert(p.push(c)[i] == p[i]);
            }
        }
        assert forall|i: int| 0 <= i < p.push(c).len() implies '\0' <= #[trigger] p.push(c)[i] <= '\u{7f}' by {
            if i < p.len() {
                assert(p.push(c)[i] == p[i]);
            }
        }
    }
}

/// The header of an encoded frame reads back: its first line gives the
/// length of the body, and the blank line after it ends the headers.
pub proof fn law_frame_header_reads_back(len: usize)
    ensures
        frame_header(len as nat) == ("Content-Length: "@ + decimal(len as nat) + "\r\n"@) + "\r\n"@,
        header_line_meaning(encode_utf8("Content-Length: "@ + decimal(len as nat) + "\r\n"@))
            == Ok::<HeaderLine, Seq<char>>(HeaderLine::ContentLength(len)),
        header_line_meaning(encode_utf8("\r\n"@)) == Ok::<HeaderLine, Seq<char>>(HeaderLine::End),
{
    reveal_strlit("Content-Length: ");
    reveal_strlit("Content-Length:");
    reveal_strlit("\r\n");
    reveal_strlit("\r\n\r\n");
    let d = decimal(len as nat);
    lemma_decimal_digits(len as nat);
    let p = "Content-Length: "@;
    let crlf = "\r\n"@;
    assert(frame_header(len as nat) =~= (p + d + crlf) + crlf);

    // The blank line.
    encode_utf8_valid_utf8(crlf);
    encode_utf8_decode_utf8(crlf);
    assert(is_ascii_chars(crlf));
    assert(crlf.drop_first() =~= seq!['\n']);
    assert(seq!['\n'].drop_first() =~= Seq::<char>::empty());
    assert(trim_start_ws(Seq::<char>::empty()) == Seq::<char>::empty());
    assert(trim_start_ws(seq!['\n']) == Seq::<char>::empty());
    assert(trim_start_ws(crlf) == Seq::<char>::empty());
    assert(trim_end_ws(Seq::<char>::empty()) == Seq::<char>::empty());

    // The length line.
    let line = p + d + crlf;
    encode_utf8_valid_utf8(line);
    encode_utf8_decode_utf8(line);
    assert(is_ascii_chars(line)) by {
        assert forall|i: int| 0 <= i < line.len() implies '\0' <= #[trigger] line[i] <= '\u{7f}' by {
            if i < p.len() {
                assert(line[i] == p[i]);
            } else if i < p.len() + d.len() {
                assert(line[i] == d[i - p.len()]);
            } else {
                assert(line[i] == crlf[i - p.len() - d.len()]);
            }
        }
    }
    assert(line[0] == 'C');
    assert(trim_start_ws(line) == line);
    assert(line.drop_last() =~= (p + d).push('\r'));
    assert((p + d).push('\r').drop_last() =~= p + d);
    assert((p + d).last() == d.last());
    assert(is_digit_char(d[d.len() - 1]));
    assert(trim_end_ws(p + d) == p + d);
    assert(trim_end_ws((p + d).push('\r')) == p + d);
    assert(trim_end_ws(line) == p + d);
    let t = p + d;
    assert(t.take(15) =~= "Content-Length:"@);
    let rest = t.skip(15);
    assert(rest =~= seq![' '] + d);
    assert(is_ascii_chars(rest)) by {
        assert forall|i: int| 0 <= i < rest.len() implies '\0' <= #[trigger] rest[i] <= '\u{7f}' by {
            if i > 0 {
                assert(rest[i] == d[i - 1]);
            }
        }
    }
    assert(rest.drop_first() =~= d);
    assert(is_digit_char(d[0]));
    assert(unsigned_digits(d) == d);
    assert(trim_start_ws(d) == d);
    assert(trim_start_ws(rest) == d);
    assert(trim_end_ws(d) == d);
}

proof fn lemma_encode_utf8_concat(a: Seq<char>, b: Seq<char>)
    ensures
        encode_utf8(a + b) == encode_utf8(a) + encode_utf8(b),
    decreases a.len(),
{
    if a.len() == 0 {
        assert(a + b =~= b);
        assert(encode_utf8(a) =~= Seq::<u8>::empty());
        assert(Seq::<u8>::empty() + encode_utf8(b) =~= encode_utf8(b));
    } else {
        assert((a + b).drop_first() =~= a.drop_first() + b);
        assert((a + b)[0] == a[0]);
        lemma_encode_utf8_concat(a.drop_first(), b);
        let e0 = vstd::utf8::encode_scalar(a[0] as u32);
        assert(encode_utf8(a + b) == e0 + encode_utf8(a.drop_first() + b));
        assert(encode_utf8(a) == e0 + encode_utf8(a.drop_first()));
        assert(e0 + (encode_utf8(a.drop_first()) + encode_utf8(b)) =~= (e0 + encode_utf8(a.drop_first()))
            + encode_utf8(b));
    }
}

/// A whole frame reads back, line by line: its bytes are the length line,
/// the blank line and the body. The length line ends at its only line feed
/// and gives the body's length, the blank line ends the headers, and the
/// bytes after the headers are the body, which `decode_body` then reads in
/// full.
pub proof fn law_frame_reads_back(body: Seq<u8>)
    requires
        body.len() <= usize::MAX,
    ensures
        ({
            let len = body.len() as usize;
            let line1 = encode_utf8("Content-Length: "@ + decimal(len as nat) + "\r\n"@);
            let line2 = encode_utf8("\r\n"@);
            &&& encode_utf8(frame_header(len as nat)) + body == line1 + line2 + body
            &&& line1.len() > 0 && line1.last() == 10u8
            &&& forall|j: int| 0 <= j < line1.len() - 1 ==> #[trigger] line1[j] != 10u8
            &&& line2 == seq![13u8, 10u8]
            &&& header_line_meaning(line1) == Ok::<HeaderLine, Seq<char>>(HeaderLine::ContentLength(len))
            &&& header_line_meaning(line2) == Ok::<HeaderLine, Seq<char>>(HeaderLine::End)
            &&& (line1 + line2 + body).skip((line1.len() + line2.len()) as int) == body
            &&& body.take(len as int) == body
        }),
{
    let len = body.len() as usize;
    law_frame_header_reads_back(len);
    reveal_strlit("Content-Length: ");
    reveal_strlit("\r\n");
    reveal_strlit("\r\n\r\n");
    let p = "Content-Length: "@;
    let d = decimal(len as nat);
    lemma_decimal_digits(len as nat);
    let crlf = "\r\n"@;
    let l1 = p + d + crlf;
    assert(frame_header(len as nat) =~= l1 + crlf);
    lemma_encode_utf8_concat(l1, crlf);
    let line1 = encode_utf8(l1);
    let line2 = encode_utf8(crlf);
    assert(encode_utf8(frame_header(len as nat)) + body =~= line1 + line2 + body);
    assert(is_ascii_chars(crlf));
    vstd::utf8::is_ascii_chars_encode_utf8(crlf);
    assert(line2 =~= seq![13u8, 10u8]);
    assert(is_ascii_chars(l1)) by {
        assert forall|i: int| 0 <= i < l1.len() implies '\0' <= #[trigger] l1[i] <= '\u{7f}' by {
            if i < p.len() {
                assert(l1[i] == p[i]);
            } else if i < p.len() + d.len() {
                assert(l1[i] == d[i - p.len()]);
            } else {
                assert(l1[i] == crlf[i - p.len() - d.len()]);
            }
        }
    }
    vstd::utf8::is_ascii_chars_encode_utf8(l1);
    assert(line1.len() == l1.len());
    assert(l1[l1.len() - 1] == '\n');
    assert(line1[l1.len() - 1] == l1[l1.len() - 1] as u8);
    assert forall|j: int| 0 <= j < line1.len() - 1 implies #[trigger] line1[j] != 10u8 by {
        assert(line1[j] == l1[j] as u8);
        if j < p.len() {
            assert(l1[j] == p[j]);
            assert(p[j] != '\n');
        } else if j < p.len() + d.len() {
            assert(l1[j] == d[j - p.len()]);
            assert(is_digit_char(d[j - p.len()]));
        } else {
            assert(j == l1.len() - 2);
            assert(l1[j] == '\r');
        }
    }
    assert((line1 + line2 + body).skip((line1.len() + line2.len()) as int) =~= body);
    assert(body.take(len as int) =~= body);
}

} // verus!
