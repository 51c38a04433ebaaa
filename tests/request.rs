use web_snapshot::request::{classify, split_media_type, starts_with, MediaKind};
use web_snapshot::{Element, SpiderError};

fn text_element(status: u16, content_type: Option<&str>, body: &str) -> Result<Element, SpiderError> {
    let kind = classify(status, content_type)?;
    assert!(kind.reads_text());
    Ok(kind.with_text(body.to_string()))
}

fn bytes_element(status: u16, content_type: Option<&str>, body: &[u8]) -> Result<Element, SpiderError> {
    let kind = classify(status, content_type)?;
    assert!(!kind.reads_text());
    Ok(kind.with_bytes(bytes::Bytes::from(body.to_vec())))
}

#[test]
fn html_is_markup() {
    match text_element(200, Some("text/html"), "<p>hi</p>") {
        Ok(Element::HTML(s)) => assert_eq!(s, "<p>hi</p>"),
        other => panic!("unexpected {:?}", other),
    }
}

#[test]
fn html_with_charset_is_markup() {
    assert!(matches!(classify(200, Some("text/html; charset=utf-8")), Ok(MediaKind::Html)));
}

#[test]
fn json_is_structured() {
    match text_element(200, Some("application/json"), "{\"a\":1}") {
        Ok(Element::JSON(s)) => assert_eq!(s, "{\"a\":1}"),
        other => panic!("unexpected {:?}", other),
    }
}

#[test]
fn png_is_image() {
    match bytes_element(200, Some("image/png"), &[137, 80, 78, 71]) {
        Ok(Element::IMAGE { body, subtype }) => {
            assert_eq!(subtype, "png");
            assert_eq!(&body[..], &[137u8, 80, 78, 71][..]);
        }
        other => panic!("unexpected {:?}", other),
    }
}

#[test]
fn plain_text_is_text() {
    match text_element(200, Some("text/plain"), "hello") {
        Ok(Element::TEXT { body, subtype }) => {
            assert_eq!(body, "hello");
            assert_eq!(subtype, "plain");
        }
        other => panic!("unexpected {:?}", other),
    }
}

#[test]
fn missing_content_type_is_other() {
    match bytes_element(200, None, b"raw") {
        Ok(Element::OTHER { body, c_type, subtype }) => {
            assert_eq!(c_type, "");
            assert_eq!(subtype, "");
            assert_eq!(&body[..], b"raw");
        }
        other => panic!("unexpected {:?}", other),
    }
}

#[test]
fn other_type_is_split_at_first_slash() {
    assert_eq!(
        classify(201, Some("application/octet-stream")),
        Ok(MediaKind::Other { c_type: "application".to_string(), subtype: "octet-stream".to_string() })
    );
    assert_eq!(
        classify(200, Some("a/b/c")),
        Ok(MediaKind::Other { c_type: "a".to_string(), subtype: "b/c".to_string() })
    );
    assert_eq!(
        classify(200, Some("garbage")),
        Ok(MediaKind::Other { c_type: String::new(), subtype: String::new() })
    );
}

#[test]
fn not_found_is_status_error_whatever_the_type() {
    assert_eq!(classify(404, Some("text/html")), Err(SpiderError::HttpStatus(404)));
    assert_eq!(classify(404, None), Err(SpiderError::HttpStatus(404)));
    assert_eq!(classify(500, Some("image/png")), Err(SpiderError::HttpStatus(500)));
    assert_eq!(classify(199, Some("text/html")), Err(SpiderError::HttpStatus(199)));
    assert_eq!(classify(300, Some("text/html")), Err(SpiderError::HttpStatus(300)));
    assert!(classify(299, Some("text/html")).is_ok());
}

#[test]
fn prefixes_match_case_sensitively() {
    assert!(starts_with("text/html", "text/"));
    assert!(!starts_with("Text/html", "text/"));
    assert!(!starts_with("tex", "text/"));
    assert!(starts_with("anything", ""));
    assert!(matches!(classify(200, Some("TEXT/HTML")), Ok(MediaKind::Other { .. })));
}

#[test]
fn split_media_type_parts() {
    assert_eq!(split_media_type("video/mp4"), ("video".to_string(), "mp4".to_string()));
    assert_eq!(split_media_type("/x"), (String::new(), "x".to_string()));
    assert_eq!(split_media_type("none"), (String::new(), String::new()));
}
