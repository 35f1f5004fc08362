//! The minimal language-server handshake that keeps the editor from
//! stopping the process: reading message headers, finding the request id, and
//! the replies to `initialize` and `shutdown`.

use vstd::prelude::*;
use crate::text::{
    chars_of, contains, contains_chars, count_leading, drop_leading, find, first_occurrence,
    parse_i64, parse_i64_chars, parse_usize, parse_usize_chars, push_signed_decimal, push_str,
    signed_decimal_text, decimal_text, push_decimal, string_of, strip_prefix, strip_prefix_chars,
    sub_chars, take_while, trim, trim_chars, trim_end, count_trailing, CharClass, is_white_space,
    lemma_decimal_text, lemma_leading_count, lemma_trailing_count, law_parse_i64_reads_signed_decimal_text,
    law_parse_usize_reads_decimal_text, occurs_at,
};

verus! {

/// The length that a header line announces: the line, without trailing white
/// space, starts with `Content-Length:` and the rest, without surrounding
/// white space, reads as a `usize`.
pub open spec fn content_length_spec(line: Seq<char>) -> Option<usize> {
    match strip_prefix(trim_end(line), "Content-Length:"@) {
        Some(rest) => parse_usize(trim(rest)),
        None => None,
    }
}

/// The body length that a header line announces, if it is a
/// `Content-Length` header with a valid length.
pub fn content_length(line: &str) -> (r: Option<usize>)
    ensures
        r == content_length_spec(line@),
{
    let chars = chars_of(line);
    let end = count_trailing(&chars, chars.len(), CharClass::WhiteSpace);
    assert(chars@.take(chars@.len() as int) == chars@);
    let trimmed = sub_chars(&chars, 0, chars.len() - end);
    assert(trimmed@ == trim_end(line@));
    let header = chars_of("Content-Length:");
    match strip_prefix_chars(&trimmed, &header) {
        Some(rest) => {
            let value = trim_chars(&rest);
            parse_usize_chars(&value)
        },
        None => None,
    }
}

/// The request id in a message body: the first `"id"` key, then any spaces
/// and colons, then the run of digits and minus signs that follows, read as an
/// `i64`.
pub open spec fn lsp_id_spec(json: Seq<char>) -> Option<i64> {
    match first_occurrence(json, "\"id\""@) {
        Some(pos) => {
            let after = drop_leading(json.skip(pos + "\"id\""@.len()), CharClass::SpaceOrColon);
            parse_i64(take_while(after, CharClass::DigitOrMinus))
        },
        None => None,
    }
}

/// The request id in a message body, if it has one that reads as a number.
pub fn extract_lsp_id(json: &str) -> (r: Option<i64>)
    ensures
        r == lsp_id_spec(json@),
{
    let chars = chars_of(json);
    let key = chars_of("\"id\"");
    let pos = match find(&chars, &key) {
        Some(p) => p,
        None => return None,
    };
    assert(crate::text::occurs_at(chars@, key@, pos as int));
    assert(pos + key@.len() <= chars@.len());
    assert(chars@.len() == chars.len());
    let start = pos + key.len();
    let skipped = count_leading(&chars, start, CharClass::SpaceOrColon);
    let after = sub_chars(&chars, start + skipped, chars.len());
    proof {
        assert(after@ == drop_leading(chars@.skip(start as int), CharClass::SpaceOrColon));
    }
    let digits = count_leading(&after, 0, CharClass::DigitOrMinus);
    assert(after@.skip(0) == after@);
    let token = sub_chars(&after, 0, digits);
    parse_i64_chars(&token)
}

/// What the handshake does with a message.
#[derive(Clone, Copy, Debug, PartialEq, Eq, Structural)]
pub enum LspReply {
    /// Answer an `initialize` request with empty capabilities.
    Initialize { id: i64 },
    /// Answer a `shutdown` request and stop.
    Shutdown { id: i64 },
    /// Nothing to answer.
    Ignore,
}

/// The id that a reply carries: the request's own, or 1 where none is found.
pub open spec fn reply_id(body: Seq<char>) -> i64 {
    match lsp_id_spec(body) {
        Some(id) => id,
        None => 1,
    }
}

/// What the handshake does with a message body.
pub open spec fn lsp_reply_spec(body: Seq<char>) -> LspReply {
    if contains(body, "\"initialize\""@) {
        LspReply::Initialize { id: reply_id(body) }
    } else if contains(body, "\"shutdown\""@) {
        LspReply::Shutdown { id: reply_id(body) }
    } else {
        LspReply::Ignore
    }
}

/// What the handshake does with a message body: a body that mentions
/// `"initialize"` is an initialize request, else one that mentions
/// `"shutdown"` is a shutdown request, else it is ignored.
pub fn lsp_reply(body: &str) -> (r: LspReply)
    ensures
        r == lsp_reply_spec(body@),
{
    let chars = chars_of(body);
    if contains_chars(&chars, &chars_of("\"initialize\"")) {
        let id = match extract_lsp_id(body) {
            Some(id) => id,
            None => 1,
        };
        LspReply::Initialize { id }
    } else if contains_chars(&chars, &chars_of("\"shutdown\"")) {
        let id = match extract_lsp_id(body) {
            Some(id) => id,
            None => 1,
        };
        LspReply::Shutdown { id }
    } else {
        LspReply::Ignore
    }
}

/// The JSON-RPC response for a reply.
pub open spec fn response_spec(reply: LspReply) -> Option<Seq<char>> {
    match reply {
        LspReply::Initialize { id } => Some(
            "{\"jsonrpc\":\"2.0\",\"id\":"@ + signed_decimal_text(id as int)
                + ",\"result\":{\"capabilities\":{}}}"@,
        ),
        LspReply::Shutdown { id } => Some(
            "{\"jsonrpc\":\"2.0\",\"id\":"@ + signed_decimal_text(id as int) + ",\"result\":null}"@,
        ),
        LspReply::Ignore => None,
    }
}

/// The JSON-RPC response for a reply, if it has one.
pub fn lsp_response(reply: &LspReply) -> (r: Option<String>)
    ensures
        r matches Some(s) ==> response_spec(*reply) == Some(s@),
        r is None ==> response_spec(*reply) is None,
{
    match reply {
        LspReply::Initialize { id } => {
            let mut out = chars_of("{\"jsonrpc\":\"2.0\",\"id\":");
            push_signed_decimal(&mut out, *id);
            push_str(&mut out, ",\"result\":{\"capabilities\":{}}}");
            Some(string_of(&out))
        },
        LspReply::Shutdown { id } => {
            let mut out = chars_of("{\"jsonrpc\":\"2.0\",\"id\":");
            push_signed_decimal(&mut out, *id);
            push_str(&mut out, ",\"result\":null}");
            Some(string_of(&out))
        },
        LspReply::Ignore => None,
    }
}

/// A message framed for the wire: a `Content-Length` header with the body's
/// length in UTF-8 bytes (as `str::len` gives it), a blank line, then the
/// body.
pub open spec fn framed(body: Seq<char>) -> Seq<char> {
    "Content-Length: "@ + decimal_text((vstd::utf8::encode_utf8(body).len() as usize) as nat)
        + "\r\n\r\n"@ + body
}

/// A message framed for the wire: a `Content-Length` header with the body's
/// length in UTF-8 bytes, a blank line, then the body.
pub fn lsp_frame(body: &str) -> (r: String)
    ensures
        r@ == framed(body@),
{
    let mut out = chars_of("Content-Length: ");
    push_decimal(&mut out, body.len() as u64);
    push_str(&mut out, "\r\n\r\n");
    push_str(&mut out, body);
    string_of(&out)
}

/// What the handshake writes for a message body, and whether it stops after
/// it.
pub struct LspOutput {
    /// The framed reply, if the body asks for one.
    pub frame: Option<String>,
    /// The body was a shutdown request: the handshake ends.
    pub stop: bool,
}

/// What the handshake writes for a message body: the framed response of an
/// `initialize` or `shutdown` request (carrying the request's id, or 1), and
/// nothing for any other body; it stops after a `shutdown` request.
pub fn lsp_output(body: &str) -> (out: LspOutput)
    ensures
        match response_spec(lsp_reply_spec(body@)) {
            Some(response) => out.frame matches Some(f) && f@ == framed(response),
            None => out.frame is None,
        },
        out.stop == (lsp_reply_spec(body@) is Shutdown),
{
    let reply = lsp_reply(body);
    let frame = match lsp_response(&reply) {
        Some(response) => Some(lsp_frame(response.as_str())),
        None => None,
    };
    let stop = match reply {
        LspReply::Shutdown { .. } => true,
        _ => false,
    };
    LspOutput { frame, stop }
}

/// A reply answers with the request's own id wherever the body has one that
/// reads as a number, and with 1 only where it has none: an `initialize`
/// body gets an `Initialize` reply, else a `shutdown` body a `Shutdown`
/// reply, each carrying that id.
pub proof fn law_reply_carries_request_id(body: Seq<char>)
    ensures
        contains(body, "\"initialize\""@) ==> lsp_reply_spec(body) == (LspReply::Initialize {
            id: match lsp_id_spec(body) {
                Some(id) => id,
                None => 1,
            },
        }),
        !contains(body, "\"initialize\""@) && contains(body, "\"shutdown\""@) ==> lsp_reply_spec(body)
            == (LspReply::Shutdown {
            id: match lsp_id_spec(body) {
                Some(id) => id,
                None => 1,
            },
        }),
        !contains(body, "\"initialize\""@) && !contains(body, "\"shutdown\""@) ==> lsp_reply_spec(body)
            == LspReply::Ignore,
        lsp_id_spec(body) is Some && (contains(body, "\"initialize\""@) || contains(
            body,
            "\"shutdown\""@,
        )) ==> match lsp_reply_spec(body) {
            LspReply::Initialize { id } => lsp_id_spec(body) == Some(id),
            LspReply::Shutdown { id } => lsp_id_spec(body) == Some(id),
            LspReply::Ignore => false,
        },
{
}

/// A header line announcing any `usize` length in decimal is read as that
/// length.
pub proof fn law_header_announces_its_length(n: usize)
    ensures
        content_length_spec("Content-Length: "@ + decimal_text(n as nat) + "\r\n"@) == Some(n),
{
    reveal_strlit("Content-Length: ");
    reveal_strlit("Content-Length:");
    reveal_strlit("\r\n");
    let ws = CharClass::WhiteSpace;
    let d = decimal_text(n as nat);
    lemma_decimal_text(n as nat);
    let head = "Content-Length: "@;
    let line = head + d + "\r\n"@;
    // Only the line end is trailing white space.
    assert(!is_white_space(d.last()));
    assert(line[line.len() - 1] == '\n' && line[line.len() - 2] == '\r');
    assert(line[line.len() - 3] == d.last());
    lemma_trailing_count(line, ws, 2);
    assert(trim_end(line) =~= head + d);
    // After the header name: one space, then the digits.
    let rest = seq![' '] + d;
    assert((head + d).take("Content-Length:"@.len() as int) =~= "Content-Length:"@);
    assert((head + d).skip("Content-Length:"@.len() as int) =~= rest);
    assert(!is_white_space(d[0]));
    assert(rest[1] == d[0]);
    lemma_leading_count(rest, ws, 1);
    let after = rest.skip(1);
    assert(after =~= d);
    assert(d[d.len() - 1] == d.last());
    lemma_trailing_count(d, ws, 0);
    assert(trim(rest) =~= d);
    law_parse_usize_reads_decimal_text(n);
}

/// A body whose `"id"` is any `i64`, written in decimal, yields that id.
pub proof fn law_id_is_read_back(n: i64)
    ensures
        lsp_id_spec("{\"id\":"@ + signed_decimal_text(n as int) + "}"@) == Some(n),
{
    reveal_strlit("{\"id\":");
    reveal_strlit("\"id\"");
    reveal_strlit("}");
    let t = signed_decimal_text(n as int);
    let json = "{\"id\":"@ + t + "}"@;
    let key = "\"id\""@;
    // The key first occurs at index 1.
    assert(json.subrange(1, 5) =~= key);
    assert(occurs_at(json, key, 1));
    assert(!occurs_at(json, key, 0)) by {
        assert(json.subrange(0, 4)[0] == '{');
    }
    let w = choose|i: int| occurs_at(json, key, i) && forall|j: int| 0 <= j < i ==> !occurs_at(json, key, j);
    assert(occurs_at(json, key, 1) && forall|j: int| 0 <= j < 1 ==> !occurs_at(json, key, j));
    if w > 1 {
        assert(!occurs_at(json, key, 1));
    }
    if w < 1 {
        assert(!occurs_at(json, key, 0));
    }
    assert(first_occurrence(json, key) == Some(1int));
    // The digits (and sign) of `n` are what follows the colon.
    if n < 0 {
        lemma_decimal_text((-(n as int)) as nat);
    } else {
        lemma_decimal_text(n as nat);
    }
    assert forall|i: int| 0 <= i < t.len() implies CharClass::DigitOrMinus.holds(#[trigger] t[i]) by {
        if n < 0 && i > 0 {
            assert(t[i] == decimal_text((-(n as int)) as nat)[i - 1]);
        }
    }
    let tail = json.skip(1 + key.len() as int);
    assert(tail =~= seq![':'] + t + "}"@);
    assert(tail[1] == t[0]);
    lemma_leading_count(tail, CharClass::SpaceOrColon, 1);
    let after = drop_leading(tail, CharClass::SpaceOrColon);
    assert(after =~= t + "}"@);
    assert forall|j: int| 0 <= j < t.len() implies CharClass::DigitOrMinus.holds(#[trigger] after[j]) by {
        assert(after[j] == t[j]);
    }
    assert(after[t.len() as int] == '}');
    lemma_leading_count(after, CharClass::DigitOrMinus, t.len() as int);
    assert(take_while(after, CharClass::DigitOrMinus) =~= t);
    law_parse_i64_reads_signed_decimal_text(n);
}

/// A header line is read as the length it announces in decimal, whatever
/// white space stands between the colon and the digits and after them.
pub proof fn law_header_length_between_white_space(pad: Seq<char>, n: usize, end: Seq<char>)
    requires
        forall|j: int| 0 <= j < pad.len() ==> is_white_space(#[trigger] pad[j]),
        forall|j: int| 0 <= j < end.len() ==> is_white_space(#[trigger] end[j]),
    ensures
        content_length_spec("Content-Length:"@ + pad + decimal_text(n as nat) + end) == Some(n),
{
    let ws = CharClass::WhiteSpace;
    let name = "Content-Length:"@;
    let d = decimal_text(n as nat);
    lemma_decimal_text(n as nat);
    let line = name + pad + d + end;
    assert(!is_white_space(d.last()));
    assert forall|j: int| line.len() - end.len() <= j < line.len() implies ws.holds(#[trigger] line[j]) by {
        assert(line[j] == end[j - (line.len() - end.len())]);
    }
    assert(line[line.len() - end.len() - 1] == d.last());
    lemma_trailing_count(line, ws, end.len() as int);
    assert(trim_end(line) =~= name + pad + d);
    let rest = pad + d;
    assert((name + pad + d).take(name.len() as int) =~= name);
    assert((name + pad + d).skip(name.len() as int) =~= rest);
    assert forall|j: int| 0 <= j < pad.len() implies ws.holds(#[trigger] rest[j]) by {
        assert(rest[j] == pad[j]);
    }
    assert(!is_white_space(d[0]));
    assert(rest[pad.len() as int] == d[0]);
    lemma_leading_count(rest, ws, pad.len() as int);
    assert(rest.skip(pad.len() as int) =~= d);
    assert(d[d.len() - 1] == d.last());
    lemma_trailing_count(d, ws, 0);
    assert(trim(rest) =~= d);
    law_parse_usize_reads_decimal_text(n);
}

/// A body yields the `i64` written after its first `"id"` key: whatever
/// comes before the key (where the key does not occur earlier), any run of
/// spaces and colons after it, and whatever follows the number (where that
/// does not go on with a digit or a minus sign).
pub proof fn law_id_follows_first_key(
    before: Seq<char>,
    separator: Seq<char>,
    n: i64,
    after: Seq<char>,
)
    requires
        forall|j: int| 0 <= j < before.len() ==> !occurs_at(before + "\"id\""@, "\"id\""@, j),
        forall|j: int| 0 <= j < separator.len() ==> #[trigger] separator[j] == ' ' || separator[j] == ':',
        after.len() > 0 ==> !CharClass::DigitOrMinus.holds(after[0]),
    ensures
        lsp_id_spec(before + "\"id\""@ + separator + signed_decimal_text(n as int) + after) == Some(n),
{
    let key = "\"id\""@;
    let t = signed_decimal_text(n as int);
    let json = before + key + separator + t + after;
    let at = before.len() as int;
    assert(json.subrange(at, at + key.len()) =~= key);
    assert forall|j: int| 0 <= j < at implies !occurs_at(json, key, j) by {
        assert(!occurs_at(before + key, key, j));
        if j + key.len() <= json.len() {
            assert(json.subrange(j, j + key.len()) =~= (before + key).subrange(j, j + key.len()));
        }
    }
    let w = choose|i: int| occurs_at(json, key, i) && forall|j: int| 0 <= j < i ==> !occurs_at(json, key, j);
    assert(occurs_at(json, key, at) && forall|j: int| 0 <= j < at ==> !occurs_at(json, key, j));
    if w > at {
        assert(!occurs_at(json, key, at));
    }
    if w < at {
        assert(!occurs_at(json, key, w));
    }
    assert(first_occurrence(json, key) == Some(at));
    if n < 0 {
        lemma_decimal_text((-(n as int)) as nat);
    } else {
        lemma_decimal_text(n as nat);
    }
    assert forall|i: int| 0 <= i < t.len() implies CharClass::DigitOrMinus.holds(#[trigger] t[i]) by {
        if n < 0 && i > 0 {
            assert(t[i] == decimal_text((-(n as int)) as nat)[i - 1]);
        }
    }
    let tail = json.skip(at + key.len());
    assert(tail =~= separator + t + after);
    assert forall|j: int| 0 <= j < separator.len() implies CharClass::SpaceOrColon.holds(#[trigger] tail[j]) by {
        assert(tail[j] == separator[j]);
    }
    assert(tail[separator.len() as int] == t[0]);
    lemma_leading_count(tail, CharClass::SpaceOrColon, separator.len() as int);
    let rest = drop_leading(tail, CharClass::SpaceOrColon);
    assert(rest =~= t + after);
    assert forall|j: int| 0 <= j < t.len() implies CharClass::DigitOrMinus.holds(#[trigger] rest[j]) by {
        assert(rest[j] == t[j]);
    }
    if after.len() > 0 {
        assert(rest[t.len() as int] == after[0]);
    }
    lemma_leading_count(rest, CharClass::DigitOrMinus, t.len() as int);
    assert(take_while(rest, CharClass::DigitOrMinus) =~= t);
    law_parse_i64_reads_signed_decimal_text(n);
}

} // verus!
