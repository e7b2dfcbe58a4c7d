use ghost::internal_error_backend::{InternalErrorBackend, InternalErrorBody};
use ghost::not_found_backend::{NotFoundBackend, NotFoundBody};

#[test]
fn test_internal_error_body_new() {
    let body = InternalErrorBody::new();
    assert_eq!(body.cursor, 0);
    assert_eq!(body.data, b"{\"error\":\"no backends available\"}");
}

#[test]
fn test_internal_error_body_len() {
    let body = InternalErrorBody::new();
    assert_eq!(body.len(), Some(33));
}

#[test]
fn test_internal_error_body_read() {
    let mut body = InternalErrorBody::new();
    let out = body.read(100);
    assert_eq!(out.len(), 33);
    assert_eq!(out, b"{\"error\":\"no backends available\"}");
    let out = body.read(100);
    assert_eq!(out.len(), 0);
}

#[test]
fn test_not_found_body_new() {
    let body = NotFoundBody::new();
    assert_eq!(body.cursor, 0);
    assert_eq!(body.data, b"vhost not found");
}

#[test]
fn test_not_found_body_len() {
    let body = NotFoundBody::new();
    assert_eq!(body.len(), Some(15));
}

#[test]
fn test_not_found_body_read() {
    let mut body = NotFoundBody::new();
    let out = body.read(100);
    assert_eq!(out.len(), 15);
    assert_eq!(out, b"vhost not found");
    let out = body.read(100);
    assert_eq!(out.len(), 0);
}

#[test]
fn test_not_found_body_read_partial() {
    let mut body = NotFoundBody::new();
    let out = body.read(10);
    assert_eq!(out.len(), 10);
    assert_eq!(out, b"vhost not ");
    let out = body.read(10);
    assert_eq!(out.len(), 5);
    assert_eq!(out, b"found");
    let out = body.read(10);
    assert_eq!(out.len(), 0);
}

#[test]
fn test_synthetic_statuses() {
    assert_eq!(NotFoundBackend.status_code(), 404);
    assert_eq!(NotFoundBackend.content_type(), "text/plain");
    assert_eq!(InternalErrorBackend.status_code(), 500);
    assert_eq!(InternalErrorBackend.content_type(), "application/json");
}
