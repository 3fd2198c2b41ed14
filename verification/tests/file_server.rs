use std::path::PathBuf;

use uhttp::file_server::{
    determine_file, etag_for, file_reply, has_modified, negotiate_encoding, try_extension, ETagStrategy, Encoding,
    EtagSource, FileReply, FileServerOptions, Opened,
};
use uhttp::response::{HandlerResponse, Response, ResponseBody};

fn options(compress: bool) -> FileServerOptions {
    FileServerOptions {
        dir: PathBuf::from("/srv"),
        compress,
        etag: ETagStrategy::Hash,
        custom_headers: vec![("X-Served-By".to_string(), "uhttp".to_string())],
        fallback_route: None,
        fallback_status: None,
    }
}

fn headers(r: &HandlerResponse) -> Vec<(String, Vec<u8>)> {
    r.headers.iter().map(|h| (h.name.clone(), h.value.clone())).collect()
}

#[test]
fn request_paths_name_files() {
    assert_eq!(determine_file("/"), "index.html");
    assert_eq!(determine_file("/app.js"), "app.js");
    assert_eq!(determine_file("//docs/guide.pdf"), "docs/guide.pdf");
    assert_eq!(determine_file("/about"), "about.html");
    assert_eq!(determine_file("/a.b/c"), "a.b/c.html");
    assert_eq!(determine_file("/.hidden"), ".hidden.html");
}

#[test]
fn parent_segments_never_leave_the_directory() {
    assert_eq!(determine_file("/../secret.txt"), "secret.txt");
    assert_eq!(determine_file("/a/../b.txt"), "b.txt");
    assert_eq!(determine_file("/a/b/../c.txt"), "a/c.txt");
    assert_eq!(determine_file("/a/../../b.txt"), "b.txt");
    assert_eq!(determine_file("/..//etc/passwd"), "etc/passwd.html");
    assert_eq!(determine_file("/docs/.."), "docs/...html");
    assert_eq!(determine_file("/.."), "...html");
    assert_eq!(determine_file("/a/.../b.txt"), "a/.../b.txt");
    assert_eq!(determine_file("/dir/"), "dir/.html");
}

#[test]
fn extensions_of_paths() {
    assert_eq!(try_extension("index.html"), "html");
    assert_eq!(try_extension("archive.tar.gz"), "gz");
    assert_eq!(try_extension("README"), "");
    assert_eq!(try_extension(".bashrc"), "");
    assert_eq!(try_extension(""), "");
}

#[test]
fn encodings_are_preferred_in_order() {
    assert_eq!(negotiate_encoding(Some(b"gzip, deflate, br, zstd"), true), Encoding::Zstd);
    assert_eq!(negotiate_encoding(Some(b"gzip, br"), true), Encoding::Brotli);
    assert_eq!(negotiate_encoding(Some(b"gzip"), true), Encoding::Gzip);
    assert_eq!(negotiate_encoding(Some(b"deflate"), true), Encoding::Identity);
    assert_eq!(negotiate_encoding(Some(b"zstd"), false), Encoding::Identity);
    assert_eq!(negotiate_encoding(None, true), Encoding::Identity);
    assert_eq!(negotiate_encoding(Some(b"zstd\xff"), true), Encoding::Identity);
}

#[test]
fn encoding_names_and_etag_suffixes() {
    assert_eq!(Encoding::Zstd.header_value(), Some("zstd"));
    assert_eq!(Encoding::Brotli.header_value(), Some("br"));
    assert_eq!(Encoding::Gzip.header_value(), Some("gzip"));
    assert_eq!(Encoding::Identity.header_value(), None);
    assert_eq!(Encoding::Gzip.etag_suffix(), "gzip");
    assert_eq!(Encoding::Identity.etag_suffix(), "");
}

#[test]
fn entity_tags() {
    assert_eq!(etag_for(&EtagSource::Hash(0xabc), "br"), Some("0000000000000abcbr".to_string()));
    assert_eq!(etag_for(&EtagSource::Hash(u64::MAX), ""), Some("ffffffffffffffff".to_string()));
    assert_eq!(etag_for(&EtagSource::LastModified(0x1f, 0), "gzip"), Some("1f0gzip".to_string()));
    assert_eq!(etag_for(&EtagSource::Disabled, "gzip"), None);
}

#[test]
fn if_none_match_must_match_exactly() {
    assert!(!has_modified(Some(b"abc"), "abc"));
    assert!(has_modified(Some(b"abd"), "abc"));
    assert!(has_modified(Some(b"\"abc\""), "abc"));
    assert!(has_modified(None, "abc"));
}

#[test]
fn a_file_is_streamed_with_its_head() {
    let reply = file_reply(
        &options(true),
        Response::new(),
        "/style.css",
        "/srv/404.html",
        Opened::Requested,
        Some(b"gzip"),
        None,
        &EtagSource::Hash(1),
    );
    match reply {
        FileReply::Stream(res, encoding) => {
            assert_eq!(encoding, Encoding::Gzip);
            let r = res.body(ResponseBody::empty()).unwrap();
            assert_eq!(r.status, 200);
            assert_eq!(
                headers(&r),
                vec![
                    ("x-served-by".to_string(), b"uhttp".to_vec()),
                    ("content-type".to_string(), b"text/css".to_vec()),
                    ("content-encoding".to_string(), b"gzip".to_vec()),
                    ("etag".to_string(), b"0000000000000001gzip".to_vec()),
                ]
            );
        }
        FileReply::Done(_) => panic!("expected the file"),
    }
}

#[test]
fn the_fallback_file_carries_the_fallback_status() {
    let mut o = options(false);
    o.fallback_status = Some(http::StatusCode::OK);
    o.etag = ETagStrategy::Disabled;
    let reply = file_reply(&o, Response::new(), "/missing", "/srv/404.html", Opened::Fallback, None, None, &EtagSource::Disabled);
    match reply {
        FileReply::Stream(res, encoding) => {
            assert_eq!(encoding, Encoding::Identity);
            let r = res.body(ResponseBody::empty()).unwrap();
            assert_eq!(r.status, 200);
            assert_eq!(headers(&r)[1], ("content-type".to_string(), b"text/html".to_vec()));
        }
        FileReply::Done(_) => panic!("expected the fallback file"),
    }
    assert_eq!(options(false).fallback_status(), 404);
    assert_eq!(options(false).fallback_route(), "404.html");
}

#[test]
fn nothing_to_serve_is_404() {
    let reply = file_reply(&options(true), Response::new(), "/x", "/srv/404.html", Opened::Neither, None, None, &EtagSource::Disabled);
    match reply {
        FileReply::Done(r) => {
            let r = r.unwrap();
            assert_eq!(r.status, 404);
            assert_eq!(headers(&r), vec![("x-served-by".to_string(), b"uhttp".to_vec())]);
        }
        FileReply::Stream(..) => panic!("nothing was opened"),
    }
}

#[test]
fn a_client_holding_the_tag_gets_304() {
    let reply = file_reply(
        &options(true),
        Response::new(),
        "/",
        "/srv/404.html",
        Opened::Requested,
        Some(b"br"),
        Some(b"00000000000000ffbr"),
        &EtagSource::Hash(255),
    );
    match reply {
        FileReply::Done(r) => {
            let r = r.unwrap();
            assert_eq!(r.status, 304);
            assert!(matches!(r.body, ResponseBody::Bytes(ref b) if b.is_empty()));
        }
        FileReply::Stream(..) => panic!("the client holds this version"),
    }
}

#[test]
fn unknown_extensions_are_octet_streams() {
    let reply = file_reply(&options(false), Response::new(), "/blob.zzzz", "", Opened::Requested, None, None, &EtagSource::Disabled);
    match reply {
        FileReply::Stream(res, _) => {
            let r = res.body(ResponseBody::empty()).unwrap();
            assert_eq!(headers(&r)[1], ("content-type".to_string(), b"application/octet-stream".to_vec()));
        }
        FileReply::Done(_) => panic!("expected the file"),
    }
}
