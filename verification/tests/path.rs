use file_server::http::path::file_name_of;
use file_server::http::path::file_extension;
use file_server::http::path::resolve;
use file_server::http::request::HttpRequest;

#[test]
fn resolve_joins_with_one_slash() {
    assert_eq!(resolve("/srv", "/index.html"), "/srv/index.html");
    assert_eq!(resolve("/srv", "index.html"), "/srv/index.html");
    assert_eq!(resolve("/srv/", "/index.html"), "/srv/index.html");
    assert_eq!(resolve("/", "/index.html"), "/index.html");
    assert_eq!(resolve("/srv", "/a/b/c"), "/srv/a/b/c");
}

#[test]
fn resolve_of_empty_parts() {
    assert_eq!(resolve("/srv", ""), "/srv/");
    assert_eq!(resolve("/srv", "/"), "/srv/");
    assert_eq!(resolve("", "/x"), "x");
    assert_eq!(resolve("", ""), "");
}

#[test]
fn resolve_strips_one_slash_only() {
    assert_eq!(resolve("/srv", "//x"), "/srv//x");
    assert_eq!(resolve("/srv", "///"), "/srv///");
}

#[test]
fn resolve_keeps_parent_segments() {
    assert_eq!(resolve("/srv", "/../etc/passwd"), "/srv/../etc/passwd");
}

#[test]
fn resolve_counts_characters_not_bytes() {
    assert_eq!(resolve("/\u{4e2d}", "/\u{e9}t\u{e9}"), "/\u{4e2d}/\u{e9}t\u{e9}");
    assert_eq!(resolve("/srv\u{e9}", "\u{e9}"), "/srv\u{e9}/\u{e9}");
}

#[test]
fn file_name_is_the_last_segment() {
    assert_eq!(file_name_of("/srv/docs"), "docs");
    assert_eq!(file_name_of("/srv/docs/"), "docs");
    assert_eq!(file_name_of("/srv/docs///"), "docs");
    assert_eq!(file_name_of("docs"), "docs");
    assert_eq!(file_name_of("/srv"), "srv");
    assert_eq!(file_name_of("/srv/a b/\u{4e2d}\u{6587}/"), "\u{4e2d}\u{6587}");
    assert_eq!(file_name_of("/srv/index.html"), "index.html");
}

#[test]
fn file_name_sets_trailing_dot_segments_aside() {
    assert_eq!(file_name_of("/srv/docs/."), "docs");
    assert_eq!(file_name_of("/srv/docs/./"), "docs");
    assert_eq!(file_name_of("/srv/docs/./."), "docs");
    assert_eq!(file_name_of("/srv/docs//.//./"), "docs");
    assert_eq!(file_name_of("docs/."), "docs");
    assert_eq!(file_name_of("./docs"), "docs");
    assert_eq!(file_name_of("/srv/./docs"), "docs");
}

#[test]
fn file_name_keeps_dots_that_are_part_of_a_name() {
    assert_eq!(file_name_of("/srv/.hidden"), ".hidden");
    assert_eq!(file_name_of("/srv/docs."), "docs.");
    assert_eq!(file_name_of("/srv/docs./"), "docs.");
    assert_eq!(file_name_of("/srv/..."), "...");
    assert_eq!(file_name_of("/srv/a.."), "a..");
    assert_eq!(file_name_of("/srv/..a"), "..a");
    assert_eq!(file_name_of("..."), "...");
}

#[test]
fn file_name_of_parent_segment_is_empty() {
    assert_eq!(file_name_of("/srv/docs/.."), "");
    assert_eq!(file_name_of("/srv/docs/../"), "");
    assert_eq!(file_name_of("/srv/docs/../."), "");
    assert_eq!(file_name_of(".."), "");
    assert_eq!(file_name_of("/.."), "");
}

#[test]
fn file_name_of_slashes_and_dots_is_empty() {
    assert_eq!(file_name_of("/"), "");
    assert_eq!(file_name_of("///"), "");
    assert_eq!(file_name_of(""), "");
    assert_eq!(file_name_of("."), "");
    assert_eq!(file_name_of("./"), "");
    assert_eq!(file_name_of("/."), "");
    assert_eq!(file_name_of("/./."), "");
}

#[test]
fn file_name_agrees_with_std_paths() {
    let pieces = ["", "/", ".", "..", "a", "a.b", ".a", "docs", "//", "/.", "/..", "./", "b."];
    let mut paths: Vec<String> = vec![String::new()];
    for _ in 0..4 {
        let mut next = Vec::new();
        for path in &paths {
            for piece in pieces {
                next.push(format!("{}{}", path, piece));
            }
        }
        paths.extend(next);
        paths.sort();
        paths.dedup();
    }
    assert!(paths.len() > 2000);
    for path in paths {
        let expected = std::path::Path::new(&path)
            .file_name()
            .map(|name| name.to_str().unwrap().to_string())
            .unwrap_or_default();
        assert_eq!(file_name_of(&path), expected, "for the path {:?}", path);
        let extension = std::path::Path::new(&path)
            .extension()
            .map(|ext| ext.to_str().unwrap().to_string());
        assert_eq!(file_extension(&path).map(|ext| ext.to_string()), extension, "for the path {:?}", path);
    }
}

#[test]
fn extension_is_what_follows_the_last_dot() {
    assert_eq!(file_extension("/srv/index.html"), Some("html"));
    assert_eq!(file_extension("/srv/a.tar.gz"), Some("gz"));
    assert_eq!(file_extension("index.HTML"), Some("HTML"));
    assert_eq!(file_extension("/srv/a."), Some(""));
    assert_eq!(file_extension("/srv/dir.d/"), Some("d"));
    assert_eq!(file_extension("/srv/a.html/."), Some("html"));
    assert_eq!(file_extension("/srv/.a.b"), Some("b"));
    assert_eq!(file_extension("/srv/\u{e9}.\u{4e2d}"), Some("\u{4e2d}"));
}

#[test]
fn extension_is_absent_where_the_name_has_none() {
    assert_eq!(file_extension("/srv/README"), None);
    assert_eq!(file_extension("/srv/.hidden"), None);
    assert_eq!(file_extension("/srv/dir.d/file"), None);
    assert_eq!(file_extension("/srv/dir/"), None);
    assert_eq!(file_extension("/srv/a.html/.."), None);
    assert_eq!(file_extension(".."), None);
    assert_eq!(file_extension(""), None);
    assert_eq!(file_extension("/"), None);
}

fn model_decode(bytes: &[u8]) -> Vec<u8> {
    fn hex(b: u8) -> Option<u8> {
        match b {
            b'0'..=b'9' => Some(b - b'0'),
            b'A'..=b'F' => Some(b - b'A' + 10),
            b'a'..=b'f' => Some(b - b'a' + 10),
            _ => None,
        }
    }
    let mut out = Vec::new();
    let mut i = 0;
    while i < bytes.len() {
        if bytes[i] == b'%' && i + 2 < bytes.len() + 0 && hex(bytes[i + 1]).is_some() && hex(bytes[i + 2]).is_some() {
            out.push(hex(bytes[i + 1]).unwrap() * 16 + hex(bytes[i + 2]).unwrap());
            i += 3;
        } else {
            out.push(bytes[i]);
            i += 1;
        }
    }
    out
}

fn model_path(target: &str) -> String {
    let decoded = String::from_utf8_lossy(&model_decode(target.as_bytes())).into_owned();
    let relative = decoded.strip_prefix('/').unwrap_or(&decoded).to_string();
    format!("/srv/{}", relative)
}

#[test]
fn decoding_agrees_with_its_model_on_short_targets() {
    let alphabet = ['%', '4', '1', 'a', 'F', 'g', '/', 'z', '2', 'e', '\u{e9}'];
    let mut targets: Vec<String> = vec![String::new()];
    let mut all: Vec<String> = Vec::new();
    for _ in 0..4 {
        let mut next = Vec::new();
        for target in &targets {
            for c in alphabet {
                let mut longer = target.clone();
                longer.push(c);
                next.push(longer);
            }
        }
        all.extend(next.iter().cloned());
        targets = next;
    }
    assert_eq!(all.len(), 11 + 121 + 1331 + 14641);
    for target in all {
        let line = format!("GET {} HTTP/1.1\r\n", target);
        let request = HttpRequest::from_buffer(line.as_bytes(), "/srv").unwrap();
        assert_eq!(request.raw_target, target);
        assert_eq!(request.path, model_path(&target));
    }
}

#[test]
fn every_escaped_byte_is_decoded() {
    for b in 0..=255u8 {
        for upper in [true, false] {
            let escape = if upper { format!("%{:02X}", b) } else { format!("%{:02x}", b) };
            let line = format!("GET /x{}y HTTP/1.1\r\n", escape);
            let request = HttpRequest::from_buffer(line.as_bytes(), "/srv").unwrap();
            let expected = String::from_utf8_lossy(&[b'x', b, b'y']).into_owned();
            assert_eq!(request.path, format!("/srv/{}", expected));
        }
    }
}

fn escape_all(text: &str) -> String {
    let mut out = String::new();
    for b in text.bytes() {
        out.push_str(&format!("%{:02X}", b));
    }
    out
}

#[test]
fn percent_encoding_round_trips_through_the_parser() {
    let segments = [
        "index.html",
        "a b",
        "100%",
        "%41",
        "\u{4e2d}\u{6587}\u{5b57}",
        "caf\u{e9} \u{1f496}.txt",
        "tab\there",
        "line\nfeed",
        "a/b",
        "",
    ];
    for segment in segments {
        let line = format!("GET /{} HTTP/1.1\r\nHost: x\r\n\r\n", escape_all(segment));
        let request = HttpRequest::from_buffer(line.as_bytes(), "/srv").unwrap();
        assert_eq!(request.path, format!("/srv/{}", segment));
        assert_eq!(request.raw_target, format!("/{}", escape_all(segment)));
    }
}
