//! The response model and encoder: a structured response and its
//! serialization to wire bytes. The encoder always appends a
//! `Content-Length` header computed from the actual body length; a
//! caller-inserted `Content-Length` is not suppressed and coexists as a
//! duplicate line on the wire.
use vstd::prelude::*;

use crate::headers::HeaderMap;
use crate::text::{dec_rep, push_all, push_dec};

verus! {

/// The bytes of `HTTP/1.1 ` (trailing space included).
pub open spec fn http_version_prefix() -> Seq<u8> {
    seq![72u8, 84u8, 84u8, 80u8, 47u8, 49u8, 46u8, 49u8, 32u8]
}

/// The bytes of a line break: CR LF.
pub open spec fn crlf() -> Seq<u8> {
    seq![13u8, 10u8]
}

/// The bytes of `: `, between a header name and its value.
pub open spec fn colon_space() -> Seq<u8> {
    seq![58u8, 32u8]
}

/// The bytes of `Content-Length: `.
pub open spec fn content_length_prefix() -> Seq<u8> {
    seq![67u8, 111u8, 110u8, 116u8, 101u8, 110u8, 116u8, 45u8, 76u8, 101u8, 110u8, 103u8, 116u8, 104u8, 58u8, 32u8]
}

/// The bytes of `OK`.
pub open spec fn ok_text() -> Seq<u8> {
    seq![79u8, 75u8]
}

/// The bytes of `Not Found`.
pub open spec fn not_found_text() -> Seq<u8> {
    seq![78u8, 111u8, 116u8, 32u8, 70u8, 111u8, 117u8, 110u8, 100u8]
}

/// The bytes of `Bad Request`.
pub open spec fn bad_request_text() -> Seq<u8> {
    seq![66u8, 97u8, 100u8, 32u8, 82u8, 101u8, 113u8, 117u8, 101u8, 115u8, 116u8]
}

/// The bytes of `No Content`.
pub open spec fn no_content_text() -> Seq<u8> {
    seq![78u8, 111u8, 32u8, 67u8, 111u8, 110u8, 116u8, 101u8, 110u8, 116u8]
}

/// The bytes of the fixed `404` error body.
pub open spec fn not_found_body() -> Seq<u8> {
    seq![60u8, 104u8, 49u8, 62u8, 52u8, 48u8, 52u8, 32u8, 78u8, 111u8, 116u8, 32u8, 70u8, 111u8, 117u8, 110u8, 100u8, 60u8, 47u8, 104u8, 49u8, 62u8]
}

/// The bytes of the fixed `400` error body.
pub open spec fn bad_request_body() -> Seq<u8> {
    seq![60u8, 104u8, 49u8, 62u8, 52u8, 48u8, 48u8, 32u8, 66u8, 97u8, 100u8, 32u8, 82u8, 101u8, 113u8, 117u8, 101u8, 115u8, 116u8, 60u8, 47u8, 104u8, 49u8, 62u8]
}

/// The bytes of `Content-Type`.
pub open spec fn content_type_name() -> Seq<u8> {
    seq![67u8, 111u8, 110u8, 116u8, 101u8, 110u8, 116u8, 45u8, 84u8, 121u8, 112u8, 101u8]
}

/// The bytes of `text/html`.
pub open spec fn text_html() -> Seq<u8> {
    seq![116u8, 101u8, 120u8, 116u8, 47u8, 104u8, 116u8, 109u8, 108u8]
}

/// The body as an abstract optional byte sequence.
pub open spec fn opt_body_view(b: Option<Vec<u8>>) -> Option<Seq<u8>> {
    match b {
        Some(v) => Some(v@),
        None => None,
    }
}

/// The body byte length the encoder frames with: 0 with no body.
pub open spec fn spec_body_len(b: Option<Seq<u8>>) -> nat {
    match b {
        Some(s) => s.len(),
        None => 0,
    }
}

/// The body bytes that follow the blank line: none with no body.
pub open spec fn spec_body_bytes(b: Option<Seq<u8>>) -> Seq<u8> {
    match b {
        Some(s) => s,
        None => Seq::empty(),
    }
}

/// The status line: `HTTP/1.1 <code> <text>` and a line break.
pub open spec fn spec_status_line(code: u16, text: Seq<u8>) -> Seq<u8> {
    http_version_prefix() + dec_rep(code as nat) + seq![32u8] + text + crlf()
}

/// One encoded header line: `<name>: <value>` and a line break.
pub open spec fn spec_header_line_bytes(name: Seq<u8>, value: Seq<u8>) -> Seq<u8> {
    name + colon_space() + value + crlf()
}

/// The encoded header lines of `es`, in entry order.
pub open spec fn spec_header_block(es: Seq<(Seq<u8>, Seq<u8>)>) -> Seq<u8>
    decreases es.len(),
{
    if es.len() == 0 {
        Seq::empty()
    } else {
        spec_header_block(es.drop_last()) + spec_header_line_bytes(es.last().0, es.last().1)
    }
}

/// The length-framing line the encoder always appends:
/// `Content-Length: <n>` and a line break.
pub open spec fn spec_cl_line(n: nat) -> Seq<u8> {
    content_length_prefix() + dec_rep(n) + crlf()
}

/// The whole encoded response: status line, the caller's header lines in
/// entry order, the computed `Content-Length` line, a blank line, then
/// the body bytes if any.
pub open spec fn spec_encode(
    code: u16,
    text: Seq<u8>,
    es: Seq<(Seq<u8>, Seq<u8>)>,
    body: Option<Seq<u8>>,
) -> Seq<u8> {
    spec_status_line(code, text) + spec_header_block(es) + spec_cl_line(spec_body_len(body))
        + crlf() + spec_body_bytes(body)
}

/// A structured response: numeric status code, status text, a header
/// mapping (unordered in meaning; encoded in insertion order), and an
/// optional body. Textual fields hold UTF-8 bytes.
#[derive(Debug)]
pub struct Response {
    pub status_code: u16,
    pub status_text: Vec<u8>,
    pub headers: HeaderMap,
    pub body: Option<Vec<u8>>,
}

impl Response {
    /// Creates a new response with a status code, text, an empty header
    /// mapping and an optional body.
    pub fn new(status_code: u16, status_text: Vec<u8>, body: Option<Vec<u8>>) -> (r: Response)
        ensures
            r.status_code == status_code,
            r.status_text@ == status_text@,
            opt_body_view(r.body) == opt_body_view(body),
            r.headers.wf(),
            r.headers@ == Map::<Seq<u8>, Seq<u8>>::empty(),
            r.headers.entries_seq() == Seq::<(Seq<u8>, Seq<u8>)>::empty(),
    {
        Response { status_code, status_text, headers: HeaderMap::new(), body }
    }

    /// A `200 OK` response with the given body and content type.
    pub fn ok(body: Vec<u8>, content_type: &[u8]) -> (r: Response)
        ensures
            r.status_code == 200,
            r.status_text@ == ok_text(),
            opt_body_view(r.body) == Some(body@),
            r.headers.wf(),
            r.headers@ == Map::<Seq<u8>, Seq<u8>>::empty().insert(
                content_type_name(),
                content_type@,
            ),
    {
        let mut res = Response::new(200, ok_text_vec(), Some(body));
        let ct = crate::text::copy_range(content_type, 0, content_type.len());
        proof {
            assert(content_type@.subrange(0, content_type@.len() as int) =~= content_type@);
        }
        res.headers.insert(content_type_vec(), ct);
        res
    }

    /// The standard `404 Not Found` response, with a fixed HTML body.
    pub fn not_found() -> (r: Response)
        ensures
            r.status_code == 404,
            r.status_text@ == not_found_text(),
            opt_body_view(r.body) == Some(not_found_body()),
            r.headers.wf(),
            r.headers@ == Map::<Seq<u8>, Seq<u8>>::empty().insert(content_type_name(), text_html()),
    {
        let mut res = Response::new(404, not_found_text_vec(), Some(not_found_body_vec()));
        res.headers.insert(content_type_vec(), text_html_vec());
        res
    }

    /// The standard `400 Bad Request` response, with a fixed HTML body.
    pub fn bad_request() -> (r: Response)
        ensures
            r.status_code == 400,
            r.status_text@ == bad_request_text(),
            opt_body_view(r.body) == Some(bad_request_body()),
            r.headers.wf(),
            r.headers@ == Map::<Seq<u8>, Seq<u8>>::empty().insert(content_type_name(), text_html()),
    {
        let mut res = Response::new(400, bad_request_text_vec(), Some(bad_request_body_vec()));
        res.headers.insert(content_type_vec(), text_html_vec());
        res
    }

    /// The standard `204 No Content` response: no body, so the encoder
    /// frames it with a zero `Content-Length`.
    pub fn no_content() -> (r: Response)
        ensures
            r.status_code == 204,
            r.status_text@ == no_content_text(),
            opt_body_view(r.body) == None::<Seq<u8>>,
            r.headers.wf(),
            r.headers@ == Map::<Seq<u8>, Seq<u8>>::empty(),
    {
        Response::new(204, no_content_text_vec(), None)
    }

    /// Serializes the response into raw wire bytes, exactly as
    /// `spec_encode` lays them out; the `Content-Length` line is always
    /// recomputed from the actual body length.
    #[verifier::rlimit(50)]
    pub fn into_bytes(&self) -> (r: Vec<u8>)
        ensures
            r@ == spec_encode(
                self.status_code,
                self.status_text@,
                self.headers.entries_seq(),
                opt_body_view(self.body),
            ),
    {
        let mut out: Vec<u8> = Vec::new();
        out.push(72);
        out.push(84);
        out.push(84);
        out.push(80);
        out.push(47);
        out.push(49);
        out.push(46);
        out.push(49);
        out.push(32);
        proof {
            assert(out@ =~= http_version_prefix());
        }
        push_dec(&mut out, self.status_code as usize);
        out.push(32);
        push_all(&mut out, self.status_text.as_slice());
        out.push(13);
        out.push(10);
        let ghost sl = spec_status_line(self.status_code, self.status_text@);
        proof {
            assert(out@ =~= sl);
        }

        let ghost es = self.headers.entries_seq();
        let count = self.headers.len();
        let mut i: usize = 0;
        while i < count
            invariant
                i <= count,
                count == es.len(),
                es == self.headers.entries_seq(),
                sl == spec_status_line(self.status_code, self.status_text@),
                out@ == sl + spec_header_block(es.subrange(0, i as int)),
            decreases count - i,
        {
            let entry = self.headers.entry_at(i);
            push_all(&mut out, entry.0.as_slice());
            out.push(58);
            out.push(32);
            push_all(&mut out, entry.1.as_slice());
            out.push(13);
            out.push(10);
            proof {
                assert(es.subrange(0, i + 1).drop_last() =~= es.subrange(0, i as int));
                assert(es.subrange(0, i + 1).last() == es[i as int]);
                assert(out@ =~= sl + spec_header_block(es.subrange(0, i + 1)));
            }
            i = i + 1;
        }
        proof {
            assert(es.subrange(0, es.len() as int) =~= es);
        }

        out.push(67);
        out.push(111);
        out.push(110);
        out.push(116);
        out.push(101);
        out.push(110);
        out.push(116);
        out.push(45);
        out.push(76);
        out.push(101);
        out.push(110);
        out.push(103);
        out.push(116);
        out.push(104);
        out.push(58);
        out.push(32);
        proof {
            assert(out@ =~= sl + spec_header_block(es) + content_length_prefix());
        }
        let blen = match &self.body {
            Some(b) => b.len(),
            None => 0,
        };
        push_dec(&mut out, blen);
        out.push(13);
        out.push(10);
        out.push(13);
        out.push(10);
        match &self.body {
            Some(b) => {
                push_all(&mut out, b.as_slice());
            },
            None => {},
        }
        proof {
            assert(out@ =~= spec_encode(
                self.status_code,
                self.status_text@,
                self.headers.entries_seq(),
                opt_body_view(self.body),
            ));
        }
        out
    }
}

/// Every encoded response contains a `Content-Length` line whose value
/// is the exact body byte length (0 with no body), whatever headers the
/// caller inserted: a caller-inserted `Content-Length` coexists as a
/// duplicate line rather than displacing the computed one.
pub proof fn lemma_encode_content_length(
    code: u16,
    text: Seq<u8>,
    es: Seq<(Seq<u8>, Seq<u8>)>,
    body: Option<Seq<u8>>,
)
    ensures
        ({
            let out = spec_encode(code, text, es, body);
            let line = spec_cl_line(spec_body_len(body));
            exists|i: int|
                0 <= i && i + line.len() <= out.len() && #[trigger] out.subrange(
                    i,
                    i + line.len() as int,
                ) == line
        }),
{
    let out = spec_encode(code, text, es, body);
    let line = spec_cl_line(spec_body_len(body));
    let w: int = (spec_status_line(code, text).len() + spec_header_block(es).len()) as int;
    assert(out.subrange(w, w + line.len() as int) =~= line);
    assert(0 <= w && w + line.len() <= out.len() && out.subrange(w, w + line.len() as int) == line);
}

fn ok_text_vec() -> (r: Vec<u8>)
    ensures
        r@ == ok_text(),
{
    let mut v: Vec<u8> = Vec::new();
    v.push(79);
    v.push(75);
    proof {
        assert(v@ =~= ok_text());
    }
    v
}

fn not_found_text_vec() -> (r: Vec<u8>)
    ensures
        r@ == not_found_text(),
{
    let mut v: Vec<u8> = Vec::new();
    v.push(78);
    v.push(111);
    v.push(116);
    v.push(32);
    v.push(70);
    v.push(111);
    v.push(117);
    v.push(110);
    v.push(100);
    proof {
        assert(v@ =~= not_found_text());
    }
    v
}

fn bad_request_text_vec() -> (r: Vec<u8>)
    ensures
        r@ == bad_request_text(),
{
    let mut v: Vec<u8> = Vec::new();
    v.push(66);
    v.push(97);
    v.push(100);
    v.push(32);
    v.push(82);
    v.push(101);
    v.push(113);
    v.push(117);
    v.push(101);
    v.push(115);
    v.push(116);
    proof {
        assert(v@ =~= bad_request_text());
    }
    v
}

fn no_content_text_vec() -> (r: Vec<u8>)
    ensures
        r@ == no_content_text(),
{
    let mut v: Vec<u8> = Vec::new();
    v.push(78);
    v.push(111);
    v.push(32);
    v.push(67);
    v.push(111);
    v.push(110);
    v.push(116);
    v.push(101);
    v.push(110);
    v.push(116);
    proof {
        assert(v@ =~= no_content_text());
    }
    v
}

fn not_found_body_vec() -> (r: Vec<u8>)
    ensures
        r@ == not_found_body(),
{
    let mut v: Vec<u8> = Vec::new();
    v.push(60);
    v.push(104);
    v.push(49);
    v.push(62);
    v.push(52);
    v.push(48);
    v.push(52);
    v.push(32);
    v.push(78);
    v.push(111);
    v.push(116);
    v.push(32);
    v.push(70);
    v.push(111);
    v.push(117);
    v.push(110);
    v.push(100);
    v.push(60);
    v.push(47);
    v.push(104);
    v.push(49);
    v.push(62);
    proof {
        assert(v@ =~= not_found_body());
    }
    v
}

fn bad_request_body_vec() -> (r: Vec<u8>)
    ensures
        r@ == bad_request_body(),
{
    let mut v: Vec<u8> = Vec::new();
    v.push(60);
    v.push(104);
    v.push(49);
    v.push(62);
    v.push(52);
    v.push(48);
    v.push(48);
    v.push(32);
    v.push(66);
    v.push(97);
    v.push(100);
    v.push(32);
    v.push(82);
    v.push(101);
    v.push(113);
    v.push(117);
    v.push(101);
    v.push(115);
    v.push(116);
    v.push(60);
    v.push(47);
    v.push(104);
    v.push(49);
    v.push(62);
    proof {
        assert(v@ =~= bad_request_body());
    }
    v
}

fn content_type_vec() -> (r: Vec<u8>)
    ensures
        r@ == content_type_name(),
{
    let mut v: Vec<u8> = Vec::new();
    v.push(67);
    v.push(111);
    v.push(110);
    v.push(116);
    v.push(101);
    v.push(110);
    v.push(116);
    v.push(45);
    v.push(84);
    v.push(121);
    v.push(112);
    v.push(101);
    proof {
        assert(v@ =~= content_type_name());
    }
    v
}

fn text_html_vec() -> (r: Vec<u8>)
    ensures
        r@ == text_html(),
{
    let mut v: Vec<u8> = Vec::new();
    v.push(116);
    v.push(101);
    v.push(120);
    v.push(116);
    v.push(47);
    v.push(104);
    v.push(116);
    v.push(109);
    v.push(108);
    proof {
        assert(v@ =~= text_html());
    }
    v
}

} // verus!
