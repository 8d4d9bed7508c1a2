//! Protocol multiplexing of gRPC and HTTP on one port: the routing decision
//! made for each request, from its `content-type` header.
use vstd::prelude::*;
use vstd::utf8::encode_utf8;

verus! {

/// Where a request is served.
#[derive(Clone, Copy, PartialEq, Eq, Debug)]
pub enum Route {
    /// The gRPC service.
    Grpc,
    /// The HTTP router (health endpoints and the like).
    Http,
}

/// The bytes every gRPC content type starts with: `application/grpc`
/// (variants such as `application/grpc+proto` included).
pub open spec fn grpc_content_type_prefix() -> Seq<u8> {
    encode_utf8("application/grpc"@)
}

/// Whether the bytes of a `content-type` header mark a gRPC request.
pub open spec fn is_grpc_content_type(content_type: Option<Seq<u8>>) -> bool {
    match content_type {
        Some(ct) => grpc_content_type_prefix().len() <= ct.len() && ct.subrange(
            0,
            grpc_content_type_prefix().len() as int,
        ) == grpc_content_type_prefix(),
        None => false,
    }
}

/// The route of a request: gRPC when its `content-type` header starts with
/// `application/grpc`, HTTP otherwise (including without the header).
pub open spec fn route_spec(content_type: Option<Seq<u8>>) -> Route {
    if is_grpc_content_type(content_type) {
        Route::Grpc
    } else {
        Route::Http
    }
}

/// The bytes of an optional header value.
pub open spec fn header_bytes(content_type: Option<&[u8]>) -> Option<Seq<u8>> {
    match content_type {
        Some(b) => Some(b@),
        None => None,
    }
}

/// Whether `bytes` starts with `prefix`.
pub fn starts_with(bytes: &[u8], prefix: &[u8]) -> (r: bool)
    ensures
        r == (prefix@.len() <= bytes@.len() && bytes@.subrange(0, prefix@.len() as int) == prefix@),
{
    if prefix.len() > bytes.len() {
        return false;
    }
    let mut i: usize = 0;
    while i < prefix.len()
        invariant
            prefix@.len() <= bytes@.len(),
            i <= prefix@.len(),
            forall|j: int| 0 <= j < i ==> bytes@[j] == prefix@[j],
        decreases prefix@.len() - i,
    {
        if bytes[i] != prefix[i] {
            assert(bytes@.subrange(0, prefix@.len() as int)[i as int] != prefix@[i as int]);
            return false;
        }
        i = i + 1;
    }
    assert(bytes@.subrange(0, prefix@.len() as int) =~= prefix@);
    true
}

/// Routes a request by its `content-type` header value.
pub fn route(content_type: Option<&[u8]>) -> (r: Route)
    ensures
        r == route_spec(header_bytes(content_type)),
{
    let grpc = match content_type {
        Some(ct) => starts_with(ct, "application/grpc".as_bytes()),
        None => false,
    };
    if grpc {
        Route::Grpc
    } else {
        Route::Http
    }
}

/// Service that multiplexes between a gRPC service and an HTTP service.
#[derive(Clone)]
pub struct MultiplexedService<G, H> {
    grpc: G,
    http: H,
}

impl<G, H> MultiplexedService<G, H> {
    /// The gRPC service.
    pub closed spec fn spec_grpc(&self) -> G {
        self.grpc
    }

    /// The HTTP service.
    pub closed spec fn spec_http(&self) -> H {
        self.http
    }

    /// A multiplexed service from gRPC and HTTP services.
    pub fn new(grpc: G, http: H) -> (s: Self)
        ensures
            s.spec_grpc() == grpc,
            s.spec_http() == http,
    {
        MultiplexedService { grpc, http }
    }

    /// The gRPC service.
    pub fn grpc(&self) -> (g: &G)
        ensures
            *g == self.spec_grpc(),
    {
        &self.grpc
    }

    /// The HTTP service.
    pub fn http(&self) -> (h: &H)
        ensures
            *h == self.spec_http(),
    {
        &self.http
    }

    /// The service that serves a request with the given `content-type`
    /// header value: `Ok` the gRPC service, `Err` the HTTP service.
    pub fn select(&self, content_type: Option<&[u8]>) -> (r: Result<&G, &H>)
        ensures
            route_spec(header_bytes(content_type)) == Route::Grpc ==> r == Ok::<&G, &H>(&self.spec_grpc()),
            route_spec(header_bytes(content_type)) == Route::Http ==> r == Err::<&G, &H>(&self.spec_http()),
    {
        match route(content_type) {
            Route::Grpc => Ok(&self.grpc),
            Route::Http => Err(&self.http),
        }
    }
}

} // verus!
