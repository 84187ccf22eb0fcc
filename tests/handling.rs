use file_server::handler::{
    classify_file, index_response, route_decoded, route_request, target_response, Route,
    TargetKind,
};
use file_server::mime::{content_type_of, mime_or_default};
use file_server::path::{has_valid_escapes, resolve, resolve_decoded, PathError};
use file_server::request::{is_white_char, request_target};
use file_server::response::{push_decimal, HttpResponse, Status};

const ROOT: &str = "/srv/www";

const NOT_FOUND: &[u8] =
    b"HTTP/1.1 404 NOT FOUND\r\nContent-Length: 13\r\nContent-Type: text/plain\r\n\r\n404 Not Found";
const BAD_REQUEST: &[u8] =
    b"HTTP/1.1 400 BAD REQUEST\r\nContent-Length: 11\r\nContent-Type: text/plain\r\n\r\nBad Request";

fn respond_bytes(r: Route) -> Vec<u8> {
    match r {
        Route::Respond(resp) => resp.to_bytes(),
        Route::ServeIndex(p) => panic!("index route to {}", p),
        Route::Inspect(p) => panic!("inspect {}", p),
    }
}

fn inspected(r: Route) -> String {
    match r {
        Route::Inspect(p) => p,
        _ => panic!("not an inspect route"),
    }
}

#[test]
fn target_is_second_token_of_first_line() {
    assert_eq!(request_target("GET /a/b.txt HTTP/1.1\r\nHost: x\r\n\r\n"), Some("/a/b.txt"));
    assert_eq!(request_target("  POST\t/x   HTTP/1.1"), Some("/x"));
    assert_eq!(request_target("GET /only"), Some("/only"));
}

#[test]
fn target_missing_cases() {
    assert_eq!(request_target(""), None);
    assert_eq!(request_target("GET"), None);
    assert_eq!(request_target("GET\n/a HTTP/1.1"), None);
    assert_eq!(request_target("GET   \r\n"), None);
}

#[test]
fn white_space_characters() {
    assert!(is_white_char(' '));
    assert!(is_white_char('\t'));
    assert!(is_white_char('\u{3000}'));
    assert!(!is_white_char('a'));
    assert!(!is_white_char('\0'));
}

#[test]
fn missing_target_gives_exact_bad_request() {
    assert_eq!(respond_bytes(route_request("GET", ROOT)), BAD_REQUEST.to_vec());
    assert_eq!(respond_bytes(route_request("", ROOT)), BAD_REQUEST.to_vec());
    assert_eq!(respond_bytes(route_request("GET\r\n/x HTTP/1.1", ROOT)), BAD_REQUEST.to_vec());
}

#[test]
fn malformed_escape_gives_bad_request() {
    assert!(!has_valid_escapes("/a%zz"));
    assert!(!has_valid_escapes("/a%4"));
    assert!(has_valid_escapes("/a%4F%2f"));
    assert_eq!(resolve("/a%zz", ROOT), Err(PathError::Malformed));
    assert_eq!(respond_bytes(route_request("GET /a%2 HTTP/1.1", ROOT)), BAD_REQUEST.to_vec());
}

#[test]
fn traversal_outside_root_is_not_found() {
    for line in [
        "GET /../../etc/passwd HTTP/1.1",
        "GET /..%2f..%2fsecret HTTP/1.1",
        "GET /a/../../x HTTP/1.1",
        "GET //etc/passwd HTTP/1.1",
        "GET /%2fetc/passwd HTTP/1.1",
    ] {
        assert_eq!(respond_bytes(route_request(line, ROOT)), NOT_FOUND.to_vec(), "{}", line);
    }
    assert_eq!(resolve_decoded("/../x", ROOT), Err(PathError::OutsideRoot));
}

#[test]
fn paths_are_normalized_under_root() {
    assert_eq!(resolve_decoded("/", ROOT), Ok("/srv/www".to_string()));
    assert_eq!(resolve_decoded("/a/./b/../c", ROOT), Ok("/srv/www/a/c".to_string()));
    assert_eq!(resolve_decoded("/a//b/", ROOT), Ok("/srv/www/a/b".to_string()));
    assert_eq!(resolve_decoded("/a/..", ROOT), Ok("/srv/www".to_string()));
    assert_eq!(resolve_decoded("/...", ROOT), Ok("/srv/www/...".to_string()));
    assert_eq!(inspected(route_request("GET /docs/../img/a.png HTTP/1.1", ROOT)), "/srv/www/img/a.png");
}

#[test]
fn climbing_out_and_back_in_stays_inside() {
    assert_eq!(inspected(route_request("GET /../www/a.txt HTTP/1.1", ROOT)), "/srv/www/a.txt");
    assert_eq!(inspected(route_request("GET /../www/d HTTP/1.1", ROOT)), "/srv/www/d");
    assert_eq!(resolve_decoded("/../www", ROOT), Ok("/srv/www".to_string()));
    assert_eq!(resolve_decoded("/../../srv/www/x/../y", ROOT), Ok("/srv/www/y".to_string()));
    assert_eq!(resolve("/..%2fwww%2fa.txt", ROOT), Ok("/srv/www/a.txt".to_string()));
    assert_eq!(resolve_decoded("/../wwwx/a", ROOT), Err(PathError::OutsideRoot));
    assert_eq!(resolve_decoded("/..", ROOT), Err(PathError::OutsideRoot));
}

#[test]
fn root_itself_is_normalized_with_the_target() {
    assert_eq!(resolve_decoded("/../www/a", "/srv/./www"), Ok("/srv/./www/a".to_string()));
    assert_eq!(resolve_decoded("/../srv/www/a", ROOT), Err(PathError::OutsideRoot));
    assert_eq!(resolve_decoded("/a/b", "/srv/www/"), Ok("/srv/www//a/b".to_string()));
    assert_eq!(resolve_decoded("/../../etc", "/"), Ok("//etc".to_string()));
}

#[test]
fn target_is_percent_decoded() {
    assert_eq!(resolve("/a%20b/c%2Ed", ROOT), Ok("/srv/www/a b/c.d".to_string()));
    assert_eq!(inspected(route_request("GET /%E4%B8%AD.txt HTTP/1.1", ROOT)), "/srv/www/\u{4e2d}.txt");
}

#[test]
fn index_route_is_distinguished() {
    match route_request("GET /index.html HTTP/1.1", ROOT) {
        Route::ServeIndex(p) => assert_eq!(p, "/srv/www/index.html"),
        _ => panic!("expected the index route"),
    }
    match route_decoded("/index.html", ROOT) {
        Route::ServeIndex(p) => assert_eq!(p, "/srv/www/index.html"),
        _ => panic!("expected the index route"),
    }
    match route_request("GET /%69ndex.html HTTP/1.1", ROOT) {
        Route::ServeIndex(p) => assert_eq!(p, "/srv/www/index.html"),
        _ => panic!("expected the index route"),
    }
    assert_eq!(inspected(route_request("GET /a/index.html HTTP/1.1", ROOT)), "/srv/www/a/index.html");
}

#[test]
fn index_file_present_and_absent() {
    let r = index_response(Some("<p>h\u{e9}</p>".to_string()));
    assert_eq!(r.status, Status::Success);
    assert_eq!(
        r.to_bytes(),
        b"HTTP/1.1 200 OK\r\nContent-Length: 10\r\nContent-Type: text/html\r\n\r\n<p>h\xc3\xa9</p>".to_vec()
    );
    assert_eq!(index_response(None).to_bytes(), NOT_FOUND.to_vec());
}

#[test]
fn file_is_sent_whole() {
    let content: Vec<u8> = (0..3000u32).map(|i| (i % 251) as u8).collect();
    let kind = classify_file(content.clone());
    let r = target_response("/srv/www/blob", kind);
    let bytes = r.to_bytes();
    let head = b"HTTP/1.1 200 OK\r\nContent-Length: 3000\r\nContent-Type: application/octet-stream\r\n\r\n";
    assert_eq!(&bytes[..head.len()], &head[..]);
    assert_eq!(&bytes[head.len()..], &content[..]);
}

#[test]
fn png_is_sniffed() {
    let mut content = vec![0x89, b'P', b'N', b'G', 0x0D, 0x0A, 0x1A, 0x0A];
    content.extend_from_slice(&[0u8; 20000]);
    assert_eq!(content_type_of(&content), "image/png");
    match classify_file(content.clone()) {
        TargetKind::File { mime_type, content: c } => {
            assert_eq!(mime_type, "image/png");
            assert_eq!(c, content);
        }
        _ => panic!("expected a file"),
    }
}

#[test]
fn unknown_bytes_fall_back_to_octet_stream() {
    assert_eq!(content_type_of(b"plain words"), "application/octet-stream");
    assert_eq!(content_type_of(b""), "application/octet-stream");
    assert_eq!(mime_or_default(None), "application/octet-stream");
    assert_eq!(mime_or_default(Some("image/gif".to_string())), "image/gif");
}

#[test]
fn directory_lists_each_child() {
    let entries = vec!["a.txt".to_string(), "sub".to_string()];
    let r = target_response("/srv/www/d", TargetKind::Directory { entries });
    assert_eq!(r.status, Status::Success);
    assert_eq!(r.content_type, "text/html");
    let body = String::from_utf8(r.body.clone()).unwrap();
    assert_eq!(
        body,
        "<!DOCTYPE html><html><head><meta charset=\"utf-8\"></head><body>\
         <h1>Directory listing for /srv/www/d</h1><ul>\
         <li><a href=\"/a.txt\">a.txt</a></li><li><a href=\"/sub\">sub</a></li>\
         </ul></body></html>"
    );
    let bytes = r.to_bytes();
    let head = format!(
        "HTTP/1.1 200 OK\r\nContent-Length: {}\r\nContent-Type: text/html\r\n\r\n",
        body.len()
    );
    assert_eq!(bytes, [head.as_bytes(), body.as_bytes()].concat());
}

#[test]
fn empty_directory_lists_nothing() {
    let r = HttpResponse::directory_listing("/srv/www", &Vec::new());
    let body = String::from_utf8(r.body).unwrap();
    assert!(body.contains("<ul></ul>"));
    assert!(!body.contains("<li>"));
}

#[test]
fn missing_target_is_not_found() {
    assert_eq!(target_response("/srv/www/nope", TargetKind::Missing).to_bytes(), NOT_FOUND.to_vec());
    assert_eq!(HttpResponse::not_found().to_bytes(), NOT_FOUND.to_vec());
    assert_eq!(HttpResponse::bad_request().to_bytes(), BAD_REQUEST.to_vec());
}

#[test]
fn repeated_requests_are_identical() {
    let line = "GET /../secret HTTP/1.1\r\n\r\n";
    assert_eq!(respond_bytes(route_request(line, ROOT)), respond_bytes(route_request(line, ROOT)));
    let entries = vec!["x".to_string(), "y".to_string()];
    let a = target_response("/srv/www", TargetKind::Directory { entries: entries.clone() }).to_bytes();
    let b = target_response("/srv/www", TargetKind::Directory { entries }).to_bytes();
    assert_eq!(a, b);
    let f1 = target_response("/srv/www/f", classify_file(b"GIF89a...".to_vec())).to_bytes();
    let f2 = target_response("/srv/www/f", classify_file(b"GIF89a...".to_vec())).to_bytes();
    assert_eq!(f1, f2);
}

#[test]
fn decimal_numerals() {
    let mut s = String::from("n=");
    push_decimal(&mut s, 0);
    assert_eq!(s, "n=0");
    let mut t = String::new();
    push_decimal(&mut t, 1234567890);
    assert_eq!(t, "1234567890");
    let mut u = String::new();
    push_decimal(&mut u, u64::MAX);
    assert_eq!(u, u64::MAX.to_string());
}

#[test]
fn status_lines() {
    assert_eq!(Status::Success.code_number(), 200);
    assert_eq!(Status::BadRequest.code_number(), 400);
    assert_eq!(Status::NotFound.code_number(), 404);
    assert_eq!(Status::NotFound.reason_phrase(), "NOT FOUND");
    let r = HttpResponse::file(vec![1, 2, 3], "image/x".to_string());
    assert_eq!(
        r.to_bytes(),
        b"HTTP/1.1 200 OK\r\nContent-Length: 3\r\nContent-Type: image/x\r\n\r\n\x01\x02\x03".to_vec()
    );
}
