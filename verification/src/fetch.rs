//! What a fetch produces and how a response is classified: only
//! status 200 is success, and the `content-type` header decides
//! whether the body is treated as HTML. The transport itself is an
//! external collaborator; it hands this module plain values.

use vstd::prelude::*;

verus! {

/// Fetched content: an HTML-or-not flag with the page text, or raw
/// bytes.
pub enum FetchedContent {
    /// Page text, with whether the response called it HTML.
    StringContent((bool, String)),
    /// Raw bytes of a non-page resource.
    VectContent(Vec<u8>),
}

impl FetchedContent {
    /// Whether the content was served as HTML.
    pub open spec fn spec_is_html(&self) -> bool {
        match self {
            FetchedContent::StringContent(s) => s.0,
            FetchedContent::VectContent(_) => false,
        }
    }

    /// Whether the content was served as HTML; raw bytes never are.
    pub fn is_html(&self) -> (r: bool)
        ensures
            r == self.spec_is_html(),
    {
        match self {
            FetchedContent::StringContent(s) => s.0,
            FetchedContent::VectContent(_) => false,
        }
    }

    /// The page text of string content.
    pub fn text_string(self) -> (r: String)
        requires
            self is StringContent,
        ensures
            r@ == self->StringContent_0.1@,
    {
        match self {
            FetchedContent::StringContent(s) => s.1,
            FetchedContent::VectContent(_) => unreached(),
        }
    }
}

/// What one fetch came to: a body with its HTML flag, or a failure.
pub enum FetchOutcome {
    /// Status 200: the body, and whether it was served as HTML.
    Success { is_html: bool, body: Vec<u8> },
    /// A non-200 status.
    BadStatus(u16),
    /// A transport failure.
    Failed,
}

/// The HTTP status that counts as success.
pub const STATUS_OK: u16 = 200;

/// The `content-type` value that marks a body as HTML.
pub open spec fn html_content_type() -> Seq<u8> {
    seq![116u8, 101u8, 120u8, 116u8, 47u8, 104u8, 116u8, 109u8, 108u8]
}

/// The bytes of `"text/html"`.
pub fn html_content_type_vec() -> (r: Vec<u8>)
    ensures
        r@ == html_content_type(),
{
    let mut v: Vec<u8> = Vec::new();
    v.push(116u8);
    v.push(101u8);
    v.push(120u8);
    v.push(116u8);
    v.push(47u8);
    v.push(104u8);
    v.push(116u8);
    v.push(109u8);
    v.push(108u8);
    assert(v@ =~= html_content_type());
    v
}

/// Whether a response is HTML: its `content-type` header is present
/// and equals `"text/html"` exactly.
pub open spec fn spec_response_is_html(content_type: Option<Seq<u8>>) -> bool {
    content_type == Some(html_content_type())
}

/// Classifies a response: any status but 200 is a status failure;
/// otherwise the body is kept, marked HTML exactly when the
/// `content-type` header is present and equals `"text/html"`.
pub fn classify_response(status: u16, content_type: Option<Vec<u8>>, body: Vec<u8>) -> (r:
    FetchOutcome)
    ensures
        status != STATUS_OK ==> r == FetchOutcome::BadStatus(status),
        status == STATUS_OK ==> (r matches FetchOutcome::Success { is_html, body: b } && b@
            == body@ && is_html == spec_response_is_html(content_type.deep_view())),
{
    if status != STATUS_OK {
        return FetchOutcome::BadStatus(status);
    }
    let expected = html_content_type_vec();
    let is_html = match &content_type {
        Some(ct) => {
            proof {
                crate::text::lemma_bytes_deep_view(content_type->0);
            }
            crate::text::bytes_eq(ct, &expected)
        },
        None => false,
    };
    FetchOutcome::Success { is_html, body }
}

impl FetchOutcome {
    /// The body of a success, the empty sequence otherwise.
    pub open spec fn spec_body(&self) -> Seq<u8> {
        match self {
            FetchOutcome::Success { body, .. } => body@,
            _ => Seq::empty(),
        }
    }

    /// Whether a success was served as HTML; failures never are.
    pub open spec fn spec_is_html(&self) -> bool {
        match self {
            FetchOutcome::Success { is_html, .. } => *is_html,
            _ => false,
        }
    }
}

} // verus!
