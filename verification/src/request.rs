//! Preparing the request that goes upstream, and cleaning the response's
//! headers on the way back.

use vstd::prelude::*;
use vstd::string::*;
use vstd::utf8::*;
use http::Uri;
use crate::kube::{Kube, authority_result, text_of};
use crate::kube::state::IngressView;
use crate::text::{decimal, lemma_filter_push, to_decimal};

verus! {

/// The name of the header that carries the client's address upstream.
pub const FORWARDED_FOR: &'static str = "x-forwarded-for";

/// One header field.
#[derive(Debug, Clone, PartialEq, Eq)]
pub struct Header {
    pub name: String,
    pub value: Vec<u8>,
}

/// What a [`Header`] is.
pub struct HeaderView {
    pub name: Seq<char>,
    pub value: Seq<u8>,
}

impl View for Header {
    type V = HeaderView;

    open spec fn view(&self) -> HeaderView {
        HeaderView { name: self.name@, value: self.value@ }
    }
}

/// What a list of headers is.
pub open spec fn fields_of(headers: Vec<Header>) -> Seq<HeaderView> {
    headers@.map_values(|h: Header| h@)
}

/// Why a request did not go upstream.
#[derive(Debug, PartialEq, Eq)]
pub enum RequestError {
    /// The upstream URI could not be built.
    HttpBuild,
    /// The upstream could not be reached or did not answer.
    UpstreamTransport,
    /// The client's address is no header value.
    InvalidHeader,
    /// No snapshot is installed, or it has no backend for the request.
    IngressNotAvailable,
}

/// A request that is ready to go upstream over plain HTTP.
#[derive(Debug, Clone, PartialEq, Eq)]
pub struct UpstreamRequest {
    /// The upstream host, a colon and the port.
    pub authority: String,
    pub path_and_query: String,
    pub headers: Vec<Header>,
}

/// What an [`UpstreamRequest`] is.
pub struct UpstreamView {
    pub authority: Seq<char>,
    pub path_and_query: Seq<char>,
    pub headers: Seq<HeaderView>,
}

impl View for UpstreamRequest {
    type V = UpstreamView;

    open spec fn view(&self) -> UpstreamView {
        UpstreamView {
            authority: self.authority@,
            path_and_query: self.path_and_query@,
            headers: fields_of(self.headers),
        }
    }
}

/// Whether the HTTP library builds a URI of scheme `http` from an authority
/// and a path with its query.
pub uninterp spec fn uri_accepted(authority: Seq<char>, path_and_query: Seq<char>) -> bool;

/// Calls `http::uri::Builder` with the scheme `http`, the authority and the
/// path with its query, and tells whether `build` gave a URI. Trusted: the
/// answer is a function of the two texts alone, which `uri_accepted` names.
#[verifier::external_body]
pub(crate) fn accepts_uri(authority: &str, path_and_query: &str) -> (accepted: bool)
    ensures
        accepted == uri_accepted(authority@, path_and_query@),
{
    Uri::builder()
        .scheme("http")
        .authority(authority)
        .path_and_query(path_and_query)
        .build()
        .is_ok()
}

/// An ASCII capital letter as its small letter; any other byte as it is.
pub open spec fn lower_byte(b: u8) -> u8 {
    if 65 <= b <= 90 {
        (b + 32) as u8
    } else {
        b
    }
}

/// Whether two header names are the same but for the case of their ASCII
/// letters.
pub open spec fn same_name(a: Seq<char>, b: Seq<char>) -> bool {
    encode_utf8(a).map_values(|x: u8| lower_byte(x)) == encode_utf8(b).map_values(
        |x: u8| lower_byte(x),
    )
}

/// Whether a byte may stand in a header value: a tab, or anything from the
/// space on but the delete character.
pub open spec fn is_value_byte(b: u8) -> bool {
    b >= 32 && b != 127 || b == 9
}

/// Whether a text can be a header value.
pub open spec fn is_header_value(text: Seq<char>) -> bool {
    forall|i: int|
        0 <= i < encode_utf8(text).len() ==> is_value_byte(#[trigger] encode_utf8(text)[i])
}

/// Whether a header is meant for one connection only and must not travel on.
pub open spec fn is_hop_by_hop(name: Seq<char>) -> bool {
    ||| same_name(name, "connection"@)
    ||| same_name(name, "keep-alive"@)
    ||| same_name(name, "upgrade"@)
    ||| same_name(name, "transfer-encoding"@)
}

/// The headers that go upstream: the client's own but for any address header
/// it sent, in their order, and then the address of the peer.
pub open spec fn forwarded(headers: Seq<HeaderView>, peer: Seq<char>) -> Seq<HeaderView> {
    headers.filter(|h: HeaderView| !same_name(h.name, FORWARDED_FOR@)).push(
        HeaderView { name: FORWARDED_FOR@, value: encode_utf8(peer) },
    )
}

/// The authority of an upstream: its host, a colon and its port in decimal.
pub open spec fn authority_text(host: Seq<char>, port: u32) -> Seq<char> {
    host + seq![':'] + decimal(port as nat)
}

/// The path and query that go upstream: the request's own, and `/` where it
/// has none.
pub open spec fn kept_path_and_query(path_and_query: Option<Seq<char>>) -> Seq<char> {
    match path_and_query {
        Some(pq) => pq,
        None => seq!['/'],
    }
}

/// The request that goes upstream for a client's request, or why none does.
/// The peer's address is judged first, then the route, then the URI.
pub open spec fn prepared(
    snapshot: Option<IngressView>,
    host: Option<Seq<char>>,
    path: Seq<char>,
    path_and_query: Option<Seq<char>>,
    headers: Seq<HeaderView>,
    peer: Seq<char>,
) -> Result<UpstreamView, RequestError> {
    if !is_header_value(peer) {
        Err(RequestError::InvalidHeader)
    } else {
        match authority_result(snapshot, host, path) {
            Err(_) => Err(RequestError::IngressNotAvailable),
            Ok((upstream, port)) => {
                let authority = authority_text(upstream, port);
                let kept = kept_path_and_query(path_and_query);
                assembled(uri_accepted(authority, kept), authority, kept, forwarded(headers, peer))
            },
        }
    }
}

/// The request made of its parts where the URI was accepted, and the build
/// error where it was not.
pub open spec fn assembled(
    accepted: bool,
    authority: Seq<char>,
    path_and_query: Seq<char>,
    headers: Seq<HeaderView>,
) -> Result<UpstreamView, RequestError> {
    if accepted {
        Ok(UpstreamView { authority, path_and_query, headers })
    } else {
        Err(RequestError::HttpBuild)
    }
}

/// Folds the case of one byte.
fn to_lower(b: u8) -> (l: u8)
    ensures
        l == lower_byte(b),
{
    if 65 <= b && b <= 90 {
        b + 32
    } else {
        b
    }
}

/// Compares two header names without regard to the case of ASCII letters.
pub fn names_match(a: &str, b: &str) -> (same: bool)
    ensures
        same == same_name(a@, b@),
{
    let x = a.as_bytes();
    let y = b.as_bytes();
    let ghost fx = x@.map_values(|v: u8| lower_byte(v));
    let ghost fy = y@.map_values(|v: u8| lower_byte(v));
    if x.len() != y.len() {
        assert(fx.len() != fy.len());
        return false;
    }
    let mut i: usize = 0;
    while i < x.len()
        invariant
            i <= x.len(),
            x.len() == y.len(),
            x@ == encode_utf8(a@),
            y@ == encode_utf8(b@),
            fx == x@.map_values(|v: u8| lower_byte(v)),
            fy == y@.map_values(|v: u8| lower_byte(v)),
            forall|k: int| 0 <= k < i ==> fx[k] == fy[k],
        decreases x.len() - i,
    {
        if to_lower(x[i]) != to_lower(y[i]) {
            assert(fx[i as int] != fy[i as int]);
            return false;
        }
        i += 1;
    }
    assert(fx =~= fy);
    true
}

/// Tells whether a text can be a header value.
pub fn check_header_value(text: &str) -> (valid: bool)
    ensures
        valid == is_header_value(text@),
{
    let bytes = text.as_bytes();
    let mut i: usize = 0;
    while i < bytes.len()
        invariant
            i <= bytes.len(),
            bytes@ == encode_utf8(text@),
            forall|k: int| 0 <= k < i ==> is_value_byte(#[trigger] bytes@[k]),
        decreases bytes.len() - i,
    {
        let b = bytes[i];
        if !(b >= 32 && b != 127 || b == 9) {
            return false;
        }
        i += 1;
    }
    true
}

/// Tells whether a header must not travel beyond one connection.
pub fn hop_by_hop(name: &str) -> (hop: bool)
    ensures
        hop == is_hop_by_hop(name@),
{
    names_match(name, "connection") || names_match(name, "keep-alive") || names_match(
        name,
        "upgrade",
    ) || names_match(name, "transfer-encoding")
}

/// Removes the headers that are meant for one connection only, keeping the
/// others in their order.
pub fn strip_hop_by_hop(headers: Vec<Header>) -> (kept: Vec<Header>)
    ensures
        fields_of(kept) == fields_of(headers).filter(|h: HeaderView| !is_hop_by_hop(h.name)),
{
    let ghost all = fields_of(headers);
    let ghost travels = |h: HeaderView| !is_hop_by_hop(h.name);
    let mut kept: Vec<Header> = Vec::new();
    proof {
        reveal(Seq::filter);
        assert(all.take(0) == Seq::<HeaderView>::empty());
        assert(fields_of(kept) == Seq::<HeaderView>::empty());
    }
    for header in iter: headers
        invariant
            travels == |h: HeaderView| !is_hop_by_hop(h.name),
            iter.seq().len() == all.len(),
            forall|k: int| 0 <= k < all.len() ==> (#[trigger] iter.seq()[k])@ == all[k],
            fields_of(kept) == all.take(iter.index() as int).filter(travels),
    {
        proof {
            assert(all.take(iter.index() + 1) == all.take(iter.index() as int).push(header@));
            lemma_filter_push(all.take(iter.index() as int), header@, travels);
        }
        if !hop_by_hop(header.name.as_str()) {
            let ghost before = fields_of(kept);
            kept.push(header);
            assert(fields_of(kept) == before.push(header@));
        }
    }
    assert(all.take(all.len() as int) == all);
    kept
}

/// Makes the headers that go upstream: the client's own but for any address
/// header it sent, and then the address of the peer.
pub fn forward_headers(headers: Vec<Header>, peer: &str) -> (sent: Vec<Header>)
    ensures
        fields_of(sent) == forwarded(fields_of(headers), peer@),
{
    let ghost all = fields_of(headers);
    let ghost own = |h: HeaderView| !same_name(h.name, FORWARDED_FOR@);
    let mut sent: Vec<Header> = Vec::new();
    proof {
        reveal(Seq::filter);
        assert(all.take(0) == Seq::<HeaderView>::empty());
        assert(fields_of(sent) == Seq::<HeaderView>::empty());
    }
    for header in iter: headers
        invariant
            own == |h: HeaderView| !same_name(h.name, FORWARDED_FOR@),
            iter.seq().len() == all.len(),
            forall|k: int| 0 <= k < all.len() ==> (#[trigger] iter.seq()[k])@ == all[k],
            fields_of(sent) == all.take(iter.index() as int).filter(own),
    {
        proof {
            assert(all.take(iter.index() + 1) == all.take(iter.index() as int).push(header@));
            lemma_filter_push(all.take(iter.index() as int), header@, own);
        }
        if !names_match(header.name.as_str(), FORWARDED_FOR) {
            let ghost before = fields_of(sent);
            sent.push(header);
            assert(fields_of(sent) == before.push(header@));
        }
    }
    assert(all.take(all.len() as int) == all);
    let ghost before = fields_of(sent);
    let address = Header { name: FORWARDED_FOR.to_owned(), value: peer.as_bytes_vec() };
    sent.push(address);
    assert(fields_of(sent) == before.push(address@));
    sent
}

impl UpstreamRequest {
    /// Makes the request of its parts where the URI was accepted, and
    /// reports the build error where it was not.
    pub fn assemble(
        accepted: bool,
        authority: String,
        path_and_query: String,
        headers: Vec<Header>,
    ) -> (made: Result<UpstreamRequest, RequestError>)
        ensures
            match assembled(accepted, authority@, path_and_query@, fields_of(headers)) {
                Ok(view) => made matches Ok(request) && request@ == view,
                Err(e) => made == Err::<UpstreamRequest, _>(e),
            },
    {
        if accepted {
            Ok(UpstreamRequest { authority, path_and_query, headers })
        } else {
            Err(RequestError::HttpBuild)
        }
    }
}

/// Prepares the request that goes upstream for a client's request: the
/// backend is chosen by the request's host and path, the path and query are
/// kept (`/` where there is none), and the peer's address is added to the
/// headers.
pub fn prepare(
    kube: &Kube,
    host: Option<&str>,
    path: &str,
    path_and_query: Option<&str>,
    headers: Vec<Header>,
    peer: &str,
) -> (made: Result<UpstreamRequest, RequestError>)
    ensures
        match prepared(
            kube@.snapshot,
            text_of(host),
            path@,
            text_of(path_and_query),
            fields_of(headers),
            peer@,
        ) {
            Ok(view) => made matches Ok(request) && request@ == view,
            Err(e) => made == Err::<UpstreamRequest, _>(e),
        },
{
    if !check_header_value(peer) {
        return Err(RequestError::InvalidHeader);
    }
    let part_query = match path_and_query {
        Some(pq) => pq.to_owned(),
        None => {
            proof {
                reveal_strlit("/");
            }
            assert("/"@ =~= seq!['/']);
            "/".to_owned()
        },
    };
    let (upstream, port) = match kube.get_authority(host, path) {
        Ok(found) => found,
        Err(_) => {
            return Err(RequestError::IngressNotAvailable);
        },
    };
    let mut authority = upstream;
    authority.append(":");
    authority.append(to_decimal(port).as_str());
    proof {
        reveal_strlit(":");
        assert(":"@ =~= seq![':']);
    }
    let accepted = accepts_uri(authority.as_str(), part_query.as_str());
    let sent = forward_headers(headers, peer);
    UpstreamRequest::assemble(accepted, authority, part_query, sent)
}

} // verus!
