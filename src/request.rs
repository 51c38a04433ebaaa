//! Classification of fetched responses.
use vstd::prelude::*;
use vstd::string::StrSliceExecFns;
use bytes::Bytes;
use crate::error::SpiderError;
use crate::handler::Element;

verus! {

/// What a response's media type says its body is, before the body is read.
#[derive(Debug, Clone, PartialEq, Eq)]
pub enum MediaKind {
    Json,
    Html,
    Text { subtype: String },
    Image { subtype: String },
    Other { c_type: String, subtype: String },
}

/// No character of `s` is a slash.
pub open spec fn slash_free(s: Seq<char>) -> bool {
    forall|i: int| 0 <= i < s.len() ==> s[i] != '/'
}

/// The media type indicator as characters, if there is one.
pub open spec fn indicator(content_type: Option<&str>) -> Option<Seq<char>> {
    match content_type {
        Some(t) => Some(t@),
        None => None,
    }
}

/// `k` is the classification of a response whose media type indicator is
/// `content_type`. Literal prefixes are tried in order; a type that matches none is
/// split at its first slash, or gives two empty parts when it has none.
pub open spec fn is_kind_of(k: MediaKind, content_type: Option<Seq<char>>) -> bool {
    match content_type {
        None => k matches MediaKind::Other { c_type, subtype } && c_type@.len() == 0
            && subtype@.len() == 0,
        Some(t) => if "application/json"@.is_prefix_of(t) {
            k is Json
        } else if "text/html"@.is_prefix_of(t) {
            k is Html
        } else if "text/"@.is_prefix_of(t) {
            k matches MediaKind::Text { subtype } && subtype@ == t.skip("text/"@.len() as int)
        } else if "image/"@.is_prefix_of(t) {
            k matches MediaKind::Image { subtype } && subtype@ == t.skip("image/"@.len() as int)
        } else if slash_free(t) {
            k matches MediaKind::Other { c_type, subtype } && c_type@.len() == 0
                && subtype@.len() == 0
        } else {
            k matches MediaKind::Other { c_type, subtype } && c_type@ + seq!['/'] + subtype@ == t
                && slash_free(c_type@)
        },
    }
}

/// A status in the success range.
pub open spec fn is_success(status: u16) -> bool {
    200 <= status <= 299
}

/// Whether `p` is a prefix of `s`.
pub fn starts_with(s: &str, p: &str) -> (r: bool)
    ensures
        r == p@.is_prefix_of(s@),
{
    let n = p.unicode_len();
    let m = s.unicode_len();
    if n > m {
        return false;
    }
    let mut i: usize = 0;
    while i < n
        invariant
            n == p@.len(),
            m == s@.len(),
            n <= m,
            0 <= i <= n,
            forall|j: int| 0 <= j < i ==> s@[j] == p@[j],
        decreases n - i,
    {
        if s.get_char(i) != p.get_char(i) {
            assert(s@.subrange(0, n as int)[i as int] != p@[i as int]);
            return false;
        }
        i = i + 1;
    }
    assert(p@ =~= s@.subrange(0, n as int));
    true
}

/// The part of `t` after a prefix of `k` characters.
fn after_prefix(t: &str, k: usize) -> (r: String)
    requires
        k <= t@.len(),
    ensures
        r@ == t@.skip(k as int),
{
    let n = t.unicode_len();
    let r = t.substring_char(k, n).to_owned();
    assert(r@ =~= t@.skip(k as int));
    r
}

/// Splits a media type at its first slash; without a slash both parts are empty.
pub fn split_media_type(t: &str) -> (r: (String, String))
    ensures
        slash_free(t@) ==> r.0@.len() == 0 && r.1@.len() == 0,
        !slash_free(t@) ==> r.0@ + seq!['/'] + r.1@ == t@ && slash_free(r.0@),
{
    let n = t.unicode_len();
    let mut i: usize = 0;
    while i < n
        invariant
            n == t@.len(),
            0 <= i <= n,
            forall|j: int| 0 <= j < i ==> t@[j] != '/',
        decreases n - i,
    {
        if t.get_char(i) == '/' {
            let c_type = t.substring_char(0, i).to_owned();
            let subtype = t.substring_char(i + 1, n).to_owned();
            assert(c_type@ + seq!['/'] + subtype@ =~= t@);
            return (c_type, subtype);
        }
        i = i + 1;
    }
    (String::new(), String::new())
}

/// Classifies a response from its status and media type indicator: a status
/// outside the success range is an error that keeps the status, whatever the
/// media type; otherwise the media type decides how the body is to be taken.
pub fn classify(status: u16, content_type: Option<&str>) -> (r: Result<MediaKind, SpiderError>)
    ensures
        !is_success(status) ==> r == Err::<MediaKind, SpiderError>(SpiderError::HttpStatus(status)),
        is_success(status) ==> (r matches Ok(k) && is_kind_of(k, indicator(content_type))),
{
    if status < 200 || status > 299 {
        return Err(SpiderError::HttpStatus(status));
    }
    match content_type {
        None => Ok(MediaKind::Other { c_type: String::new(), subtype: String::new() }),
        Some(t) => {
            if starts_with(t, "application/json") {
                Ok(MediaKind::Json)
            } else if starts_with(t, "text/html") {
                Ok(MediaKind::Html)
            } else if starts_with(t, "text/") {
                let k = "text/".unicode_len();
                Ok(MediaKind::Text { subtype: after_prefix(t, k) })
            } else if starts_with(t, "image/") {
                let k = "image/".unicode_len();
                Ok(MediaKind::Image { subtype: after_prefix(t, k) })
            } else {
                let (c_type, subtype) = split_media_type(t);
                Ok(MediaKind::Other { c_type, subtype })
            }
        },
    }
}

impl MediaKind {
    /// Markup, structured and other text bodies are read as text; the rest as bytes.
    pub open spec fn is_textual(&self) -> bool {
        self is Json || self is Html || self is Text
    }

    /// Whether the body is to be read as text rather than as bytes.
    pub fn reads_text(&self) -> (r: bool)
        ensures
            r == self.is_textual(),
    {
        match self {
            MediaKind::Json | MediaKind::Html | MediaKind::Text { .. } => true,
            _ => false,
        }
    }

    /// The content unit for a body read as text.
    pub fn with_text(self, body: String) -> (e: Element)
        requires
            self.is_textual(),
        ensures
            self is Json ==> e == Element::JSON(body),
            self is Html ==> e == Element::HTML(body),
            self matches MediaKind::Text { subtype } ==> e == (Element::TEXT { body, subtype }),
    {
        match self {
            MediaKind::Json => Element::JSON(body),
            MediaKind::Html => Element::HTML(body),
            MediaKind::Text { subtype } => Element::TEXT { body, subtype },
            _ => Element::TEXT { body, subtype: String::new() },
        }
    }

    /// The content unit for a body read as bytes.
    pub fn with_bytes(self, body: Bytes) -> (e: Element)
        requires
            !self.is_textual(),
        ensures
            self matches MediaKind::Image { subtype } ==> e == (Element::IMAGE { body, subtype }),
            self matches MediaKind::Other { c_type, subtype } ==> e == (Element::OTHER {
                body,
                c_type,
                subtype,
            }),
    {
        match self {
            MediaKind::Image { subtype } => Element::IMAGE { body, subtype },
            MediaKind::Other { c_type, subtype } => Element::OTHER { body, c_type, subtype },
            _ => Element::OTHER { body, c_type: String::new(), subtype: String::new() },
        }
    }
}

} // verus!
