//! The response side: the typed response value and its wire serializer.

use vstd::prelude::*;

use crate::header::HeaderMap;
use crate::header::KindV;
use crate::header::EntryV;
use crate::header::PredefinedName;
use crate::header::render_joined;
use crate::status::StatusCode;
use crate::status::status_display;
use crate::text::dec_rep;
use crate::text::usize_to_string;
use vstd::utf8::encode_utf8;

verus! {

/// A typed response. The Content-Length header is computed from the body
/// at serialization time and is never stored, so it always reflects the
/// actual body.
#[derive(Debug)]
pub struct Response {
    pub protocol: String,
    pub status_code: StatusCode,
    pub headers: HeaderMap,
    pub body: String,
}

/// The Content-Length value: the byte length of the body's UTF-8
/// encoding.
pub open spec fn body_byte_len(r: &Response) -> int {
    encode_utf8(r.body@).len() as usize as int
}

/// The entries serialized on the wire: the declared headers, then the
/// computed Content-Length entry. A declared Content-Length is not
/// deduplicated; both entries are emitted.
pub open spec fn wire_entries(r: &Response) -> Seq<EntryV> {
    r.headers@ + seq![
        (KindV::Standard(PredefinedName::ContentLength), dec_rep(body_byte_len(r))),
    ]
}

/// The exact wire text of a response: the status line, the header block
/// joined by CRLF, one blank line, then the body.
pub open spec fn serialize_model(r: &Response) -> Seq<char> {
    r.protocol@ + " "@ + status_display(r.status_code) + "\r\n"@ + render_joined(
        wire_entries(r),
        "\r\n"@,
    ) + "\r\n\r\n"@ + r.body@
}

impl Response {
    /// Serialize to the wire format. The output is a function of the
    /// response value alone: serializing the same value again yields the
    /// same text.
    pub fn join(&self) -> (r: String)
        ensures
            r@ == serialize_model(self),
    {
        let len = self.body.as_str().len();
        let len_str = usize_to_string(len);
        let mut additional = HeaderMap::new();
        additional.insert(PredefinedName::ContentLength, len_str);
        proof {
            assert(additional@ =~= seq![
                (KindV::Standard(PredefinedName::ContentLength), dec_rep(body_byte_len(self))),
            ]);
        }
        let mut out = String::new();
        out.append(self.protocol.as_str());
        out.append(" ");
        let status_str = self.status_code.display();
        out.append(status_str.as_str());
        out.append("\r\n");
        let block = HeaderMap::join_using("\r\n", self.headers.get_map(), additional.get_map());
        out.append(block.as_str());
        out.append("\r\n\r\n");
        out.append(self.body.as_str());
        proof {
            assert(out@ =~= serialize_model(self));
        }
        out
    }
}

/// Law: serialization is deterministic. Two serialized texts of one and
/// the same response value are identical.
pub proof fn lemma_serialize_deterministic(r: &Response, out1: Seq<char>, out2: Seq<char>)
    requires
        out1 == serialize_model(r),
        out2 == serialize_model(r),
    ensures
        out1 == out2,
{
}

} // verus!
