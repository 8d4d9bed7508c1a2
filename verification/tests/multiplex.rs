use openshell::multiplex::{route, MultiplexedService, Route};

#[test]
fn grpc_content_types_route_to_grpc() {
    assert_eq!(route(Some(b"application/grpc")), Route::Grpc);
    assert_eq!(route(Some(b"application/grpc+proto")), Route::Grpc);
    assert_eq!(route(Some(b"application/grpc-web")), Route::Grpc);
}

#[test]
fn everything_else_routes_to_http() {
    assert_eq!(route(None), Route::Http);
    assert_eq!(route(Some(b"application/json")), Route::Http);
    assert_eq!(route(Some(b"application/grp")), Route::Http);
    assert_eq!(route(Some(b"Application/grpc")), Route::Http);
    assert_eq!(route(Some(b"")), Route::Http);
}

#[test]
fn service_selects_by_header() {
    let svc = MultiplexedService::new("grpc", "http");
    assert_eq!(*svc.grpc(), "grpc");
    assert_eq!(*svc.http(), "http");
    assert_eq!(svc.select(Some(b"application/grpc")), Ok(&"grpc"));
    assert_eq!(svc.select(Some(b"text/plain")), Err(&"http"));
    assert_eq!(svc.select(None), Err(&"http"));
}
