//! Control requests sent to the exchange's stream endpoint, and their JSON
//! text: `{"method": ..., "params": [...], "id": ...}`.

use vstd::prelude::*;
use crate::names::views;
use crate::text::{decimal, decimal_text};

verus! {

/// Longest request id string, in characters.
pub const MAX_REQUEST_ID_LEN: usize = 36;

/// A request id string of at most `MAX_REQUEST_ID_LEN` characters.
#[derive(Debug, Clone, PartialEq, Eq)]
pub struct RequestIdString {
    text: String,
}

impl View for RequestIdString {
    type V = Seq<char>;

    closed spec fn view(&self) -> Seq<char> {
        self.text@
    }
}

impl RequestIdString {
    pub closed spec fn wf(&self) -> bool {
        self.text@.len() <= MAX_REQUEST_ID_LEN
    }

    /// The empty id.
    pub fn empty() -> (r: RequestIdString)
        ensures
            r@.len() == 0,
            r.wf(),
    {
        RequestIdString { text: String::new() }
    }

    /// Takes `s` as an id if it has at most `MAX_REQUEST_ID_LEN` characters.
    pub fn try_from_str(s: &str) -> (r: Option<RequestIdString>)
        ensures
            r is Some <==> s@.len() <= MAX_REQUEST_ID_LEN,
            r is Some ==> r->0@ == s@ && r->0.wf(),
    {
        if s.unicode_len() <= MAX_REQUEST_ID_LEN {
            Some(RequestIdString { text: String::from_str(s) })
        } else {
            None
        }
    }

    /// The id's text.
    pub fn as_str(&self) -> (r: &str)
        ensures
            r@ == self@,
    {
        self.text.as_str()
    }

    /// Tells whether two ids hold the same text.
    pub fn same(&self, other: &RequestIdString) -> (r: bool)
        ensures
            r == (self@ == other@),
    {
        self.text == other.text
    }
}

/// A request id: an integer or a short string.
#[derive(Debug, Clone, PartialEq, Eq)]
pub enum WSRequestId {
    Int(i64),
    String(RequestIdString),
}

/// Errors of building a request.
#[derive(Debug, PartialEq, Eq)]
pub enum WSRequestError {
    /// A string id longer than the maximum; `id` is left empty.
    RequestIdTooLong { id: RequestIdString, len: usize, max: usize },
}

impl WSRequestId {
    /// An integer id.
    pub fn from_i64(v: i64) -> (r: WSRequestId)
        ensures
            r == WSRequestId::Int(v),
    {
        WSRequestId::Int(v)
    }

    /// An integer id from an unsigned value, reinterpreted as `i64` (values
    /// above `i64::MAX` wrap to negative ones).
    pub fn from_u64(v: u64) -> (r: WSRequestId)
        ensures
            r == WSRequestId::Int(v as i64),
    {
        WSRequestId::Int(v as i64)
    }

    /// A string id; refused when longer than `MAX_REQUEST_ID_LEN` characters.
    pub fn try_from_text(v: &str) -> (r: Result<WSRequestId, WSRequestError>)
        ensures
            r is Ok <==> v@.len() <= MAX_REQUEST_ID_LEN,
            r is Ok ==> r->Ok_0 is String && r->Ok_0->String_0@ == v@,
            r is Err ==> match r->Err_0 {
                WSRequestError::RequestIdTooLong { id, len, max } => id@.len() == 0 && len == v@.len()
                    && max == MAX_REQUEST_ID_LEN,
            },
    {
        let n = v.unicode_len();
        match RequestIdString::try_from_str(v) {
            Some(id) => Ok(WSRequestId::String(id)),
            None => Err(WSRequestError::RequestIdTooLong { id: RequestIdString::empty(), len: n, max: MAX_REQUEST_ID_LEN }),
        }
    }
}

impl From<i64> for WSRequestId {
    fn from(v: i64) -> (r: WSRequestId) {
        WSRequestId::Int(v)
    }
}

impl vstd::std_specs::convert::FromSpecImpl<i64> for WSRequestId {
    open spec fn obeys_from_spec() -> bool {
        true
    }

    open spec fn from_spec(v: i64) -> WSRequestId {
        WSRequestId::Int(v)
    }
}

impl From<u64> for WSRequestId {
    fn from(v: u64) -> (r: WSRequestId) {
        WSRequestId::Int(v as i64)
    }
}

impl vstd::std_specs::convert::FromSpecImpl<u64> for WSRequestId {
    open spec fn obeys_from_spec() -> bool {
        true
    }

    open spec fn from_spec(v: u64) -> WSRequestId {
        WSRequestId::Int(v as i64)
    }
}

/// Hands out integer request ids in sequence, one connection's worth.
#[derive(Debug)]
pub struct RequestIdGenerator {
    next: u64,
}

impl RequestIdGenerator {
    pub closed spec fn next_value(&self) -> u64 {
        self.next
    }

    /// A generator whose first id is `first`.
    pub fn new(first: u64) -> (r: RequestIdGenerator)
        ensures
            r.next_value() == first,
    {
        RequestIdGenerator { next: first }
    }

    /// The next id; the counter wraps around after `u64::MAX`.
    pub fn next_id(&mut self) -> (r: WSRequestId)
        ensures
            r == WSRequestId::Int(old(self).next_value() as i64),
            final(self).next_value() == if old(self).next_value() == u64::MAX {
                0
            } else {
                (old(self).next_value() + 1) as u64
            },
    {
        let id = WSRequestId::from_u64(self.next);
        self.next = if self.next == u64::MAX {
            0
        } else {
            self.next + 1
        };
        id
    }
}

/// A parameter value of a property request.
#[derive(Debug, Clone, PartialEq, Eq)]
pub enum PropertyValue {
    Null,
    Bool(bool),
    Int(i64),
    Text(String),
}

/// A request method together with its parameters.
#[derive(Debug, Clone, PartialEq, Eq)]
pub enum WSRequestKind {
    /// Subscribe to streams.
    Subscribe(Vec<String>),
    /// Unsubscribe from streams.
    Unsubscribe(Vec<String>),
    /// List current subscriptions.
    ListSubscriptions,
    /// Set a property.
    SetProperty(Vec<PropertyValue>),
    /// Get a property.
    GetProperty(Vec<String>),
}

/// A request: a method with its parameters, and an optional id.
#[derive(Debug, Clone, PartialEq, Eq)]
pub struct WSRequest {
    pub kind: WSRequestKind,
    pub id: Option<WSRequestId>,
}

impl From<(WSRequestKind, Option<WSRequestId>)> for WSRequest {
    fn from(parts: (WSRequestKind, Option<WSRequestId>)) -> (r: WSRequest) {
        WSRequest { kind: parts.0, id: parts.1 }
    }
}

impl vstd::std_specs::convert::FromSpecImpl<(WSRequestKind, Option<WSRequestId>)> for WSRequest {
    open spec fn obeys_from_spec() -> bool {
        true
    }

    open spec fn from_spec(parts: (WSRequestKind, Option<WSRequestId>)) -> WSRequest {
        WSRequest { kind: parts.0, id: parts.1 }
    }
}

/// A lower-case hexadecimal digit, for `d < 16`.
pub open spec fn hex_digit(d: int) -> char {
    if d < 10 {
        (('0' as int) + d) as char
    } else {
        (('a' as int) + d - 10) as char
    }
}

/// How `serde_json` writes one character inside a string literal: a quote
/// or a backslash gets a backslash before it; backspace, tab, line feed, form feed and carriage
/// return get their short escapes; the other characters below U+0020 get
/// `\u00XX`; every other character is written as it is.
pub open spec fn json_escape(c: char) -> Seq<char> {
    let n = c as u32;
    if c == '"' {
        seq!['\\', '"']
    } else if c == '\\' {
        seq!['\\', '\\']
    } else if n == 8 {
        seq!['\\', 'b']
    } else if n == 9 {
        seq!['\\', 't']
    } else if n == 10 {
        seq!['\\', 'n']
    } else if n == 12 {
        seq!['\\', 'f']
    } else if n == 13 {
        seq!['\\', 'r']
    } else if n < 32 {
        seq!['\\', 'u', '0', '0', hex_digit(n as int / 16), hex_digit(n as int % 16)]
    } else {
        seq![c]
    }
}

/// The escaped characters of `s`, in order.
pub open spec fn json_escaped(s: Seq<char>) -> Seq<char>
    decreases s.len(),
{
    if s.len() == 0 {
        Seq::empty()
    } else {
        json_escaped(s.drop_last()) + json_escape(s.last())
    }
}

/// The JSON string literal for the text `s`: its escaped characters between
/// double quotes.
pub open spec fn json_quoted(s: Seq<char>) -> Seq<char> {
    seq!['"'] + json_escaped(s) + seq!['"']
}

/// Relies on `serde_json::to_string` on a `str` (`format_escaped_str` and its
/// `ESCAPE` table): the text between double quotes, escaped as
/// `json_escape` says. Writing into a `Vec` cannot fail.
#[verifier::external_body]
fn quote(s: &str) -> (r: String)
    ensures
        r@ == json_quoted(s@),
{
    match serde_json::to_string(s) {
        Ok(t) => t,
        Err(_) => String::new(),
    }
}

/// The decimal text of an integer, with a leading `-` when negative.
pub open spec fn int_text(n: int) -> Seq<char> {
    if n < 0 {
        seq!['-'] + decimal((-n) as nat)
    } else {
        decimal(n as nat)
    }
}

fn i64_text(n: i64) -> (r: String)
    ensures
        r@ == int_text(n as int),
{
    if n < 0 {
        let magnitude: u64 = if n == i64::MIN {
            9223372036854775808u64
        } else {
            (-n) as u64
        };
        let digits = decimal_text(magnitude);
        let mut r = String::new();
        crate::text::push_char(&mut r, '-');
        r.append(digits.as_str());
        r
    } else {
        decimal_text(n as u64)
    }
}

/// Entries separated by commas.
pub open spec fn joined(items: Seq<Seq<char>>) -> Seq<char>
    decreases items.len(),
{
    if items.len() == 0 {
        Seq::empty()
    } else if items.len() == 1 {
        items[0]
    } else {
        joined(items.drop_last()) + seq![','] + items.last()
    }
}

/// A JSON array of the given JSON texts.
pub open spec fn array_text(items: Seq<Seq<char>>) -> Seq<char> {
    seq!['['] + joined(items) + seq![']']
}

pub open spec fn quoted_all(v: Seq<String>) -> Seq<Seq<char>> {
    v.map_values(|x: String| json_quoted(x@))
}

/// The JSON text of a property value.
pub open spec fn property_text(p: PropertyValue) -> Seq<char> {
    match p {
        PropertyValue::Null => "null"@,
        PropertyValue::Bool(b) => if b { "true"@ } else { "false"@ },
        PropertyValue::Int(n) => int_text(n as int),
        PropertyValue::Text(t) => json_quoted(t@),
    }
}

pub open spec fn property_texts(v: Seq<PropertyValue>) -> Seq<Seq<char>> {
    v.map_values(|p: PropertyValue| property_text(p))
}

/// The JSON name of a method.
pub open spec fn method_name(k: WSRequestKind) -> Seq<char> {
    match k {
        WSRequestKind::Subscribe(_) => "SUBSCRIBE"@,
        WSRequestKind::Unsubscribe(_) => "UNSUBSCRIBE"@,
        WSRequestKind::ListSubscriptions => "LIST_SUBSCRIPTIONS"@,
        WSRequestKind::SetProperty(_) => "SET_PROPERTY"@,
        WSRequestKind::GetProperty(_) => "GET_PROPERTY"@,
    }
}

/// The `"params"` member of a request, with its leading comma; methods
/// without parameters have none.
pub open spec fn params_text(k: WSRequestKind) -> Seq<char> {
    match k {
        WSRequestKind::Subscribe(v) => ",\"params\":"@ + array_text(quoted_all(v@)),
        WSRequestKind::Unsubscribe(v) => ",\"params\":"@ + array_text(quoted_all(v@)),
        WSRequestKind::ListSubscriptions => Seq::empty(),
        WSRequestKind::SetProperty(v) => ",\"params\":"@ + array_text(property_texts(v@)),
        WSRequestKind::GetProperty(v) => ",\"params\":"@ + array_text(quoted_all(v@)),
    }
}

/// The JSON text of a request id.
pub open spec fn id_text(id: Option<WSRequestId>) -> Seq<char> {
    match id {
        None => "null"@,
        Some(WSRequestId::Int(n)) => int_text(n as int),
        Some(WSRequestId::String(s)) => json_quoted(s@),
    }
}

/// The JSON text of a request: `{"method":M,"params":[...],"id":I}`.
pub open spec fn frame_text(r: WSRequest) -> Seq<char> {
    "{\"method\":\""@ + method_name(r.kind) + "\""@ + params_text(r.kind) + ",\"id\":"@ + id_text(r.id) + "}"@
}

fn property_json(p: &PropertyValue) -> (r: String)
    ensures
        r@ == property_text(*p),
{
    match p {
        PropertyValue::Null => String::from_str("null"),
        PropertyValue::Bool(b) => if *b {
            String::from_str("true")
        } else {
            String::from_str("false")
        },
        PropertyValue::Int(n) => i64_text(*n),
        PropertyValue::Text(t) => quote(t.as_str()),
    }
}

/// Appends `items` to `out` as a JSON array.
fn push_array(out: &mut String, items: &Vec<String>)
    ensures
        final(out)@ == old(out)@ + array_text(views(items@)),
{
    crate::text::push_char(out, '[');
    let ghost start = out@;
    let mut i: usize = 0;
    while i < items.len()
        invariant
            0 <= i <= items.len(),
            out@ == start + joined(views(items@).subrange(0, i as int)),
        decreases items.len() - i,
    {
        let ghost before = out@;
        if i > 0 {
            crate::text::push_char(out, ',');
        }
        out.append(items[i].as_str());
        proof {
            let s = views(items@).subrange(0, i + 1);
            assert(s.drop_last() =~= views(items@).subrange(0, i as int));
            assert(s.last() == items@[i as int]@);
            if i == 0 {
                assert(joined(s) == s[0]);
                assert(out@ =~= start + joined(s));
            } else {
                assert(out@ =~= start + joined(s));
            }
        }
        i = i + 1;
    }
    proof {
        assert(views(items@).subrange(0, i as int) =~= views(items@));
    }
    crate::text::push_char(out, ']');
    proof {
        assert(final(out)@ =~= old(out)@ + array_text(views(items@)));
    }
}

fn quote_all(v: &Vec<String>) -> (r: Vec<String>)
    ensures
        views(r@) == quoted_all(v@),
{
    let mut r: Vec<String> = Vec::new();
    let mut i: usize = 0;
    while i < v.len()
        invariant
            0 <= i <= v.len(),
            r@.len() == i,
            forall|k: int| 0 <= k < i ==> #[trigger] r@[k]@ == json_quoted(v@[k]@),
        decreases v.len() - i,
    {
        r.push(quote(v[i].as_str()));
        i = i + 1;
    }
    assert(views(r@) =~= quoted_all(v@));
    r
}

fn property_all(v: &Vec<PropertyValue>) -> (r: Vec<String>)
    ensures
        views(r@) == property_texts(v@),
{
    let mut r: Vec<String> = Vec::new();
    let mut i: usize = 0;
    while i < v.len()
        invariant
            0 <= i <= v.len(),
            r@.len() == i,
            forall|k: int| 0 <= k < i ==> #[trigger] r@[k]@ == property_text(v@[k]),
        decreases v.len() - i,
    {
        r.push(property_json(&v[i]));
        i = i + 1;
    }
    assert(views(r@) =~= property_texts(v@));
    r
}

impl WSRequest {
    /// The request's JSON text, as sent to the exchange.
    pub fn to_json(&self) -> (r: String)
        ensures
            r@ == frame_text(*self),
    {
        let mut out = String::from_str("{\"method\":\"");
        let name = match &self.kind {
            WSRequestKind::Subscribe(_) => "SUBSCRIBE",
            WSRequestKind::Unsubscribe(_) => "UNSUBSCRIBE",
            WSRequestKind::ListSubscriptions => "LIST_SUBSCRIPTIONS",
            WSRequestKind::SetProperty(_) => "SET_PROPERTY",
            WSRequestKind::GetProperty(_) => "GET_PROPERTY",
        };
        out.append(name);
        out.append("\"");
        let ghost head = out@;
        match &self.kind {
            WSRequestKind::Subscribe(v) | WSRequestKind::Unsubscribe(v) | WSRequestKind::GetProperty(v) => {
                out.append(",\"params\":");
                let q = quote_all(v);
                push_array(&mut out, &q);
            },
            WSRequestKind::SetProperty(v) => {
                out.append(",\"params\":");
                let q = property_all(v);
                push_array(&mut out, &q);
            },
            WSRequestKind::ListSubscriptions => {},
        }
        assert(out@ =~= head + params_text(self.kind));
        out.append(",\"id\":");
        let id = match &self.id {
            None => String::from_str("null"),
            Some(WSRequestId::Int(n)) => i64_text(*n),
            Some(WSRequestId::String(s)) => quote(s.as_str()),
        };
        out.append(id.as_str());
        out.append("}");
        assert(out@ =~= frame_text(*self));
        out
    }
}

} // verus!
