use file_server::http::content::choose_content_type;
use file_server::http::content::content_type;
use file_server::http::content::type_of_extension;
use file_server::http::response::serve_file;

#[test]
fn table_maps_each_known_extension() {
    assert_eq!(type_of_extension("html"), "text/html");
    assert_eq!(type_of_extension("css"), "text/css");
    assert_eq!(type_of_extension("js"), "application/javascript");
    assert_eq!(type_of_extension("png"), "image/png");
    assert_eq!(type_of_extension("jpg"), "image/jpeg");
    assert_eq!(type_of_extension("jpeg"), "image/jpeg");
    assert_eq!(type_of_extension("mp4"), "video/mp4");
    assert_eq!(type_of_extension("gif"), "image/gif");
    assert_eq!(type_of_extension("pdf"), "application/pdf");
    assert_eq!(type_of_extension("txt"), "text/plain");
}

#[test]
fn table_defaults_to_plain_text() {
    assert_eq!(type_of_extension(""), "text/plain");
    assert_eq!(type_of_extension("rs"), "text/plain");
    assert_eq!(type_of_extension("HTML"), "text/plain");
    assert_eq!(type_of_extension("htm"), "text/plain");
    assert_eq!(type_of_extension("html "), "text/plain");
    assert_eq!(type_of_extension("jpegx"), "text/plain");
}

#[test]
fn sniffed_type_wins_over_the_name() {
    assert_eq!(choose_content_type(Some("image/png".to_string()), "/srv/a.txt"), "image/png");
    assert_eq!(choose_content_type(Some("x/y".to_string()), "/srv/a"), "x/y");
}

#[test]
fn name_decides_where_nothing_was_sniffed() {
    assert_eq!(choose_content_type(None, "/srv/a.css"), "text/css");
    assert_eq!(choose_content_type(None, "/srv/a.tar.pdf"), "application/pdf");
    assert_eq!(choose_content_type(None, "/srv/a"), "text/plain");
    assert_eq!(choose_content_type(None, "/srv/.html"), "text/plain");
    assert_eq!(choose_content_type(None, "/srv/a.html/b"), "text/plain");
    assert_eq!(choose_content_type(None, "/srv/a.unknown"), "text/plain");
}

#[test]
fn plain_content_is_typed_by_extension() {
    assert_eq!(content_type("/srv/notes.txt", b"hello"), "text/plain");
    assert_eq!(content_type("/srv/style.css", b"body { margin: 0 }"), "text/css");
    assert_eq!(content_type("/srv/app.js", b"console.log(1)"), "application/javascript");
    assert_eq!(content_type("/srv/page.html", b"plain words"), "text/html");
    assert_eq!(content_type("/srv/a.png", b"no image"), "image/png");
    assert_eq!(content_type("/srv/a.jpg", b"no image"), "image/jpeg");
    assert_eq!(content_type("/srv/a.jpeg", b"no image"), "image/jpeg");
    assert_eq!(content_type("/srv/a.mp4", b"no video"), "video/mp4");
    assert_eq!(content_type("/srv/a.gif", b"no image"), "image/gif");
    assert_eq!(content_type("/srv/a.pdf", b"no document"), "application/pdf");
    assert_eq!(content_type("/srv/README", b"hello"), "text/plain");
    assert_eq!(content_type("/srv/empty.css", b""), "text/css");
}

#[test]
fn signature_is_found_whatever_the_name() {
    let png = [0x89u8, 0x50, 0x4e, 0x47, 0x0d, 0x0a, 0x1a, 0x0a, 0, 0, 0, 0x0d];
    assert_eq!(content_type("/srv/a.txt", &png), "image/png");
    assert_eq!(content_type("/srv/a", &png), "image/png");
    assert_eq!(content_type("/srv/a.txt", &[0xff, 0xd8, 0xff, 0xe0, 0, 0]), "image/jpeg");
    assert_eq!(content_type("/srv/a.txt", b"GIF89a\x01\x00\x01\x00"), "image/gif");
    assert_eq!(content_type("/srv/a.txt", b"%PDF-1.7\n"), "application/pdf");
    assert_eq!(content_type("/srv/a.txt", b"<html ><body></body></html>"), "text/html");
    assert_eq!(content_type("/srv/a.css", b"<p>hi</p>"), "text/html");
}

#[test]
fn signature_is_found_in_long_content() {
    let mut content = vec![0x89u8, 0x50, 0x4e, 0x47, 0x0d, 0x0a, 0x1a, 0x0a];
    content.resize(8192, 0);
    assert_eq!(content_type("/srv/a.txt", &content), "image/png");
    content.resize(8193, 0);
    assert_eq!(content_type("/srv/a.txt", &content), "image/png");
    content.resize(100_000, 7);
    assert_eq!(content_type("/srv/a.txt", &content), "image/png");
}

#[test]
fn only_the_leading_bytes_are_looked_at() {
    // A tar archive is known by the word `ustar` at offset 257; white space
    // before it keeps every other signature from matching.
    let mut early = vec![b'x'; 9000];
    early[257..262].copy_from_slice(b"ustar");
    assert_eq!(content_type("/srv/a.txt", &early), "application/x-tar");
    let whole = early.clone();
    assert_eq!(content_type("/srv/a.txt", &whole[..8192]), content_type("/srv/a.txt", &whole));
    assert_eq!(content_type("/srv/a.txt", &whole[..200]), "text/plain");
}

#[test]
fn served_file_carries_the_chosen_type() {
    let response = serve_file("/srv/a.css", b"body {}".to_vec());
    assert_eq!(response.status_line, "HTTP/1.1 200 OK");
    assert_eq!(response.headers[0].name, "Content-Length");
    assert_eq!(response.headers[0].value, "7");
    assert_eq!(response.headers[1].name, "Content-Type");
    assert_eq!(response.headers[1].value, "text/css");
    assert_eq!(response.body, b"body {}".to_vec());
    let png = vec![0x89u8, 0x50, 0x4e, 0x47, 0x0d, 0x0a, 0x1a, 0x0a, 0, 0, 0, 0x0d];
    let response = serve_file("/srv/a.css", png.clone());
    assert_eq!(response.headers[1].value, "image/png");
    assert_eq!(response.headers[0].value, "12");
    assert_eq!(response.body, png);
}

#[test]
fn empty_file_is_served_with_length_zero() {
    let response = serve_file("/srv/empty", Vec::new());
    assert_eq!(
        response.to_bytes(),
        b"HTTP/1.1 200 OK\r\nContent-Length: 0\r\nContent-Type: text/plain\r\n\r\n".to_vec()
    );
}
