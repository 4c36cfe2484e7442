use cvpn::DownloadError;
use cvpn::VolumeID;
use cvpn::download::classify_download;
use cvpn::download::download_url;
use cvpn::download::encode_filename;
use cvpn::download::encode_path_component;
use cvpn::download::split_file_path;

const NOT_FOUND: &str = "The file or folder does not exist on the server.";
const NO_PERMISSION: &str = "You do not have permission to access this file server.";

#[test]
fn html_body_with_missing_file_phrase_is_not_found() {
    let body = format!("<html><body>{}</body></html>", NOT_FOUND).into_bytes();
    assert_eq!(
        classify_download(200, "text/html", body),
        Err(DownloadError::NotFound)
    );
}

#[test]
fn html_body_with_permission_phrase_is_permission_denied() {
    let body = format!("<html><body>{}</body></html>", NO_PERMISSION).into_bytes();
    assert_eq!(
        classify_download(200, "text/html", body),
        Err(DownloadError::PermissionDenied)
    );
}

#[test]
fn non_html_body_is_returned_unchanged_whatever_it_holds() {
    let body = format!("junk {} junk", NOT_FOUND).into_bytes();
    let expected = body.clone();
    assert_eq!(
        classify_download(200, "application/octet-stream", body),
        Ok(expected)
    );
}

#[test]
fn html_body_without_phrases_is_returned_unchanged() {
    let body = b"<html><body>a real page-like file</body></html>".to_vec();
    let expected = body.clone();
    assert_eq!(classify_download(200, "text/html", body), Ok(expected));
}

#[test]
fn non_success_status_is_unexpected_status() {
    assert_eq!(
        classify_download(404, "text/html", Vec::new()),
        Err(DownloadError::UnexpectedStatus(200, 404))
    );
}

#[test]
fn filename_encoding_escapes_plus_controls_and_non_ascii() {
    assert_eq!(encode_filename("a+b c.txt".as_bytes()), "a%2Bb c.txt");
    assert_eq!(encode_filename("\u{3042}".as_bytes()), "%E3%81%82");
    assert_eq!(encode_filename("\t".as_bytes()), "%09");
}

#[test]
fn path_encoding_escapes_everything_but_alphanumerics() {
    assert_eq!(encode_path_component("class\\2022".as_bytes()), "class%5C2022");
    assert_eq!(encode_path_component("a b".as_bytes()), "a%20b");
    assert_eq!(encode_path_component("AZaz09".as_bytes()), "AZaz09");
}

#[test]
fn download_url_uses_the_two_encodings() {
    let url = download_url("/class/2022", "a+b.pptx", &VolumeID::FSShare);
    assert_eq!(
        url,
        "https://vpn.inf.shizuoka.ac.jp/dana/download/a%2Bb.pptx?url=/dana-cached/fb/smb/wfv.cgi?t=p&v=resource_1423533946.487706.3&si=&ri=&pi=&ignoreDfs=1&dir=class%5C2022&file=a%2Bb.pptx"
    );
}

#[test]
fn split_file_path_cases() {
    assert_eq!(
        split_file_path("/class/2022/sym.pptx"),
        Some(("/class/2022".to_string(), "sym.pptx".to_string()))
    );
    assert_eq!(
        split_file_path("file.txt"),
        Some(("".to_string(), "file.txt".to_string()))
    );
    assert_eq!(
        split_file_path("a/b/"),
        Some(("a".to_string(), "b".to_string()))
    );
    assert_eq!(split_file_path("/"), None);
    assert_eq!(split_file_path(""), None);
}
