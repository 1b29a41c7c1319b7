//! The parsed request configuration: a base URL, default headers, the
//! variable-store locations, and an ordered list of named request entries.
//! A descriptor is loaded once and read-only for the run; entries are
//! selected by tag (first match wins) or by position.

use vstd::prelude::*;

use crate::text::str_eq;

verus! {

/// An HTTP method the runner can dispatch.
#[derive(Clone, Copy, PartialEq, Eq, Structural, Debug)]
pub enum Method {
    Get,
    Post,
    Put,
    Delete,
}

/// The method a descriptor's method string names, if it names one.
pub open spec fn method_of(s: Seq<char>) -> Option<Method> {
    if s == "GET"@ {
        Some(Method::Get)
    } else if s == "POST"@ {
        Some(Method::Post)
    } else if s == "PUT"@ {
        Some(Method::Put)
    } else if s == "DELETE"@ {
        Some(Method::Delete)
    } else {
        None
    }
}

/// The method named by `s`; any unknown method string names none.
pub fn parse_method(s: &str) -> (r: Option<Method>)
    ensures
        r == method_of(s@),
{
    if str_eq(s, "GET") {
        Some(Method::Get)
    } else if str_eq(s, "POST") {
        Some(Method::Post)
    } else if str_eq(s, "PUT") {
        Some(Method::Put)
    } else if str_eq(s, "DELETE") {
        Some(Method::Delete)
    } else {
        None
    }
}

/// How a request body is sent on the wire.
#[derive(Clone, Copy, PartialEq, Eq, Structural, Debug)]
pub enum BodyKind {
    Json,
    FormData,
}

/// The body kind a descriptor's body-type string names: `FORM_DATA` selects
/// form encoding, anything else is sent as JSON.
pub open spec fn body_kind_of(s: Seq<char>) -> BodyKind {
    if s == "FORM_DATA"@ {
        BodyKind::FormData
    } else {
        BodyKind::Json
    }
}

/// The body kind named by `s`.
pub fn parse_body_kind(s: &str) -> (r: BodyKind)
    ensures
        r == body_kind_of(s@),
{
    if str_eq(s, "FORM_DATA") {
        BodyKind::FormData
    } else {
        BodyKind::Json
    }
}

/// Where a request body comes from: a file holding JSON, sent either as
/// JSON or as form fields. The file is read at dispatch time, not when the
/// descriptor is loaded.
#[derive(Clone, Debug)]
pub struct BodySource {
    pub kind: BodyKind,
    pub file: String,
}

/// The model of a body source.
pub struct BodySourceSpec {
    pub kind: BodyKind,
    pub file: Seq<char>,
}

impl View for BodySource {
    type V = BodySourceSpec;

    open spec fn view(&self) -> BodySourceSpec {
        BodySourceSpec { kind: self.kind, file: self.file@ }
    }
}

/// One named, selectable request definition within a descriptor.
#[derive(Clone, Debug)]
pub struct RequestEntry {
    /// The unique name the entry is selected by.
    pub tag: String,
    /// A human-readable title, shown when the entry runs.
    pub title: String,
    pub method: Method,
    /// The path appended to the descriptor's base URL.
    pub endpoint: String,
    /// A raw query suffix appended verbatim after the endpoint.
    pub params: Option<String>,
    /// The body to send, for methods that take one.
    pub body: Option<BodySource>,
    /// The dotted path (or mapping-structure string) naming what of the
    /// response to persist.
    pub token_path: Option<String>,
    /// Whether a successful response should be persisted.
    pub token_save: Option<bool>,
    /// The credential prefix (such as `Bearer`) put before the stored token.
    pub token_type: Option<String>,
}

/// The model of a request entry.
pub struct EntrySpec {
    pub tag: Seq<char>,
    pub title: Seq<char>,
    pub method: Method,
    pub endpoint: Seq<char>,
    pub params: Option<Seq<char>>,
    pub body: Option<BodySourceSpec>,
    pub token_path: Option<Seq<char>>,
    pub token_save: Option<bool>,
    pub token_type: Option<Seq<char>>,
}

impl View for RequestEntry {
    type V = EntrySpec;

    open spec fn view(&self) -> EntrySpec {
        EntrySpec {
            tag: self.tag@,
            title: self.title@,
            method: self.method,
            endpoint: self.endpoint@,
            params: self.params.deep_view(),
            body: match self.body {
                Some(b) => Some(b@),
                None => None,
            },
            token_path: self.token_path.deep_view(),
            token_save: self.token_save,
            token_type: self.token_type.deep_view(),
        }
    }
}

/// The whole parsed configuration of one run.
#[derive(Clone, Debug)]
pub struct RequestDescriptor {
    /// The prefix of every entry's URL.
    pub base_url: String,
    /// Headers attached to every request, in order.
    pub default_headers: Vec<(String, String)>,
    /// The directory variable files live in.
    pub variable_dir: Option<String>,
    /// The file (within the variable directory) holding the access token.
    pub access_token_file: Option<String>,
    /// The selectable request entries, in descriptor order.
    pub entries: Vec<RequestEntry>,
}

/// The model of a descriptor.
pub struct DescriptorSpec {
    pub base_url: Seq<char>,
    pub default_headers: Seq<(Seq<char>, Seq<char>)>,
    pub variable_dir: Option<Seq<char>>,
    pub access_token_file: Option<Seq<char>>,
    pub entries: Seq<EntrySpec>,
}

impl View for RequestDescriptor {
    type V = DescriptorSpec;

    open spec fn view(&self) -> DescriptorSpec {
        DescriptorSpec {
            base_url: self.base_url@,
            default_headers: self.default_headers.deep_view(),
            variable_dir: self.variable_dir.deep_view(),
            access_token_file: self.access_token_file.deep_view(),
            entries: Seq::new(self.entries@.len(), |i: int| self.entries@[i]@),
        }
    }
}

impl RequestDescriptor {
    /// The position of the first entry whose tag is `tag`, if any entry
    /// carries it.
    pub fn find_by_tag(&self, tag: &str) -> (r: Option<usize>)
        ensures
            match r {
                Some(i) => 0 <= i < self@.entries.len() && self@.entries[i as int].tag == tag@
                    && forall|j: int| 0 <= j < i ==> (#[trigger] self@.entries[j]).tag != tag@,
                None => forall|j: int|
                    0 <= j < self@.entries.len() ==> (#[trigger] self@.entries[j]).tag != tag@,
            },
    {
        let n = self.entries.len();
        let mut i: usize = 0;
        while i < n
            invariant
                0 <= i <= n,
                n == self.entries@.len(),
                self@.entries.len() == n,
                forall|j: int|
                    0 <= j < n ==> (#[trigger] self@.entries[j]).tag == self.entries@[j].tag@,
                forall|j: int| 0 <= j < i ==> (#[trigger] self@.entries[j]).tag != tag@,
            decreases n - i,
        {
            if str_eq(self.entries[i].tag.as_str(), tag) {
                return Some(i);
            }
            i = i + 1;
        }
        None
    }

    /// Whether every entry carries a distinct tag, so that selection by tag
    /// is unambiguous. Checked once when the descriptor is loaded.
    pub open spec fn tags_unique(&self) -> bool {
        forall|i: int, j: int|
            0 <= i < j < self@.entries.len() ==> (#[trigger] self@.entries[i]).tag != (
            #[trigger] self@.entries[j]).tag
    }

    /// Whether every entry carries a distinct tag, computed.
    pub fn validate_tags(&self) -> (r: bool)
        ensures
            r == self.tags_unique(),
    {
        let n = self.entries.len();
        let mut i: usize = 0;
        while i < n
            invariant
                0 <= i <= n,
                n == self.entries@.len(),
                self@.entries.len() == n,
                forall|j: int|
                    0 <= j < n ==> (#[trigger] self@.entries[j]).tag == self.entries@[j].tag@,
                forall|a: int, b: int|
                    0 <= a < b < n && a < i ==> (#[trigger] self@.entries[a]).tag != (
                    #[trigger] self@.entries[b]).tag,
            decreases n - i,
        {
            let mut j = i + 1;
            while j < n
                invariant
                    0 <= i < j <= n,
                    n == self.entries@.len(),
                    self@.entries.len() == n,
                    forall|k: int|
                        0 <= k < n ==> (#[trigger] self@.entries[k]).tag == self.entries@[k].tag@,
                    forall|b: int|
                        i < b < j ==> (#[trigger] self@.entries[b]).tag != self@.entries[i as int].tag,
                decreases n - j,
            {
                if str_eq(self.entries[i].tag.as_str(), self.entries[j].tag.as_str()) {
                    proof {
                        assert(self@.entries[i as int].tag == self@.entries[j as int].tag);
                        assert(!self.tags_unique());
                    }
                    return false;
                }
                j = j + 1;
            }
            i = i + 1;
        }
        true
    }
}

} // verus!
