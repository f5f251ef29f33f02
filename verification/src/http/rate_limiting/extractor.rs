//! Deriving a client's identity from a request.

use vstd::prelude::*;

verus! {

/// How a client's identity is derived from a request.
#[derive(Clone, Copy, Debug, PartialEq, Eq, Structural)]
pub enum KeyExtractor {
    /// The address of the connection's peer.
    Direct,
    /// The client address that proxy headers report, and the peer's address
    /// where they report none.
    Smart,
}

/// What admission control reads of a request.
pub struct RequestMeta {
    /// The address of the connection's peer, as text; `None` where the
    /// transport does not tell.
    pub peer: Option<String>,
    /// The headers by which proxies report the client (`x-forwarded-for`,
    /// `x-real-ip` and `forwarded`), as name and value, in the order
    /// received. Other headers have no place here.
    pub proxy_headers: Vec<(String, String)>,
}

/// Headers as pairs of character sequences.
pub open spec fn header_views(headers: Seq<(String, String)>) -> Seq<(Seq<char>, Seq<char>)> {
    Seq::new(headers.len(), |i: int| (headers[i].0@, headers[i].1@))
}

/// A string that may be absent, as a character sequence that may be.
pub open spec fn text(s: Option<String>) -> Option<Seq<char>> {
    match s {
        Some(s) => Some(s@),
        None => None,
    }
}

/// The client address that `tower_governor`'s `SmartIpKeyExtractor` reads
/// from a request that carries exactly these headers and no connection
/// information.
pub uninterp spec fn forwarded_client(headers: Seq<(Seq<char>, Seq<char>)>) -> Option<Seq<char>>;

/// Whether the byte at `i` is a double quote that opens a quoted value and
/// is at once the value's end: it follows `=`, and the end of the text, a
/// blank or control byte, `,` or `;` follows it. The header parser that smart
/// extraction relies on cannot take such a value.
pub open spec fn dangling_quote_at(bytes: Seq<u8>, i: int) -> bool {
    &&& 0 < i < bytes.len()
    &&& bytes[i] == 34
    &&& bytes[i - 1] == 61
    &&& (i + 1 == bytes.len() || bytes[i + 1] <= 32 || bytes[i + 1] == 44 || bytes[i + 1] == 59)
}

/// Whether a header value holds no dangling quote.
pub open spec fn well_quoted(value: Seq<char>) -> bool {
    forall|i: int| !dangling_quote_at(vstd::utf8::encode_utf8(value), i)
}

/// Whether every header's value is well quoted.
pub open spec fn all_well_quoted(headers: Seq<(Seq<char>, Seq<char>)>) -> bool {
    forall|i: int| 0 <= i < headers.len() ==> well_quoted((#[trigger] headers[i]).1)
}

/// The client address that proxy headers report: none where there are no
/// headers or one of them is badly quoted, and otherwise whatever the
/// extractor reads from them.
pub open spec fn reported_client(headers: Seq<(Seq<char>, Seq<char>)>) -> Option<Seq<char>> {
    if headers.len() == 0 || !all_well_quoted(headers) {
        None
    } else {
        forwarded_client(headers)
    }
}

/// Calls `SmartIpKeyExtractor::extract` of `tower_governor` on a request
/// that carries `headers` and nothing else, and gives the address it finds
/// as text. The result depends on the headers alone. It is `None` where the
/// extractor finds no address, and also where a header cannot be put in a
/// request at all; with no headers there is nothing to find. The extractor's
/// parser of `Forwarded` values slices a quoted value between its quotes and
/// fails on a value that is one quote alone, so such values are kept out.
#[verifier::external_body]
fn smart_ip(headers: &Vec<(String, String)>) -> (r: Option<String>)
    requires
        all_well_quoted(header_views(headers@)),
    ensures
        headers@.len() == 0 ==> r is None,
        headers@.len() != 0 ==> text(r) == forwarded_client(header_views(headers@)),
{
    let mut builder = http::Request::builder();
    for (name, value) in headers {
        builder = builder.header(name.as_str(), value.as_str());
    }
    let request = builder.body(()).ok()?;
    let extractor = tower_governor::key_extractor::SmartIpKeyExtractor;
    tower_governor::key_extractor::KeyExtractor::extract(&extractor, &request).ok().map(
        |ip| ip.to_string(),
    )
}

/// Whether a header value holds no dangling quote.
pub fn is_well_quoted(value: &str) -> (ok: bool)
    ensures
        ok == well_quoted(value@),
{
    let bytes = value.as_bytes();
    let mut i: usize = 1;
    while i < bytes.len()
        invariant
            1 <= i,
            bytes@ == vstd::utf8::encode_utf8(value@),
            forall|j: int| 0 <= j < i ==> !dangling_quote_at(bytes@, j),
        decreases bytes@.len() - i,
    {
        if bytes[i] == 34 && bytes[i - 1] == 61 {
            if i + 1 == bytes.len() {
                assert(dangling_quote_at(bytes@, i as int));
                return false;
            }
            let next: u8 = bytes[i + 1];
            if next <= 32 || next == 44 || next == 59 {
                assert(dangling_quote_at(bytes@, i as int));
                return false;
            }
        }
        i += 1;
    }
    true
}

/// Whether every header's value is well quoted.
pub fn are_well_quoted(headers: &Vec<(String, String)>) -> (ok: bool)
    ensures
        ok == all_well_quoted(header_views(headers@)),
{
    let mut i: usize = 0;
    while i < headers.len()
        invariant
            i <= headers@.len(),
            forall|j: int| 0 <= j < i ==> well_quoted((#[trigger] header_views(headers@)[j]).1),
        decreases headers@.len() - i,
    {
        if !is_well_quoted(headers[i].1.as_str()) {
            assert(!well_quoted(header_views(headers@)[i as int].1));
            return false;
        }
        i += 1;
    }
    true
}

/// The client address that the proxy headers report, if they report one.
pub fn reported_address(headers: &Vec<(String, String)>) -> (r: Option<String>)
    ensures
        text(r) == reported_client(header_views(headers@)),
{
    if are_well_quoted(headers) {
        smart_ip(headers)
    } else {
        None
    }
}

/// The identity under `extractor` of a client whose connection peer is
/// `peer` and whose proxy headers report `forwarded`.
pub open spec fn selected_key(
    extractor: KeyExtractor,
    peer: Option<Seq<char>>,
    forwarded: Option<Seq<char>>,
) -> Option<Seq<char>> {
    match extractor {
        KeyExtractor::Direct => peer,
        KeyExtractor::Smart => if forwarded is Some {
            forwarded
        } else {
            peer
        },
    }
}

/// The identity of the client behind `meta`.
pub open spec fn key_of(extractor: KeyExtractor, meta: RequestMeta) -> Option<Seq<char>> {
    selected_key(
        extractor,
        text(meta.peer),
        reported_client(header_views(meta.proxy_headers@)),
    )
}

/// Chooses between the peer's address and the address that proxy headers
/// reported. Direct extraction takes the peer's. Smart extraction takes the
/// reported one and falls back to the peer's where none was reported.
pub fn select_key(extractor: KeyExtractor, peer: Option<String>, forwarded: Option<String>) -> (key:
    Option<String>)
    ensures
        text(key) == selected_key(extractor, text(peer), text(forwarded)),
{
    match extractor {
        KeyExtractor::Direct => peer,
        KeyExtractor::Smart => match forwarded {
            Some(address) => Some(address),
            None => peer,
        },
    }
}

/// Derives the identity of the client behind `meta`. It is `None` only where
/// the peer's address is unknown and, for smart extraction, the proxy headers
/// report no address either.
pub fn extract_key(extractor: KeyExtractor, meta: &RequestMeta) -> (key: Option<String>)
    ensures
        text(key) == key_of(extractor, *meta),
        extractor == KeyExtractor::Direct ==> text(key) == text(meta.peer),
        meta.peer is Some ==> key is Some,
{
    let peer = meta.peer.clone();
    match extractor {
        KeyExtractor::Direct => select_key(extractor, peer, None),
        KeyExtractor::Smart => {
            let forwarded = reported_address(&meta.proxy_headers);
            select_key(extractor, peer, forwarded)
        },
    }
}

/// Smart extraction on a request without proxy headers gives what direct
/// extraction gives for the same connection.
pub proof fn lemma_smart_falls_back(meta: RequestMeta)
    requires
        meta.proxy_headers@.len() == 0,
    ensures
        key_of(KeyExtractor::Smart, meta) == key_of(KeyExtractor::Direct, meta),
{
}

} // verus!
