use http_server::{HttpHeaderValue, UploadedData, UploadedDataParsingError};

fn form(boundary_header: &str, body: &str) -> UploadedData {
    UploadedData::new(HttpHeaderValue::new(String::from(boundary_header)), None, body.as_bytes().to_vec())
}

#[test]
fn multipart_with_zero_parts_is_empty() {
    let data = form("multipart/form-data; boundary=XyZ", "preamble\r\n--XyZ\r\n--XyZ--\r\n");
    let parts = data.as_multipart_form_data().unwrap();
    assert_eq!(parts.len(), 0);
}

#[test]
fn multipart_with_only_closing_boundary_is_empty() {
    let data = form("multipart/form-data; boundary=XyZ", "preamble\r\n--XyZ--\r\n");
    assert_eq!(data.as_multipart_form_data().unwrap().len(), 0);
}

#[test]
fn multipart_empty_body_is_empty() {
    let data = form("multipart/form-data; boundary=XyZ", "");
    assert_eq!(data.as_multipart_form_data().unwrap().len(), 0);
}

#[test]
fn multipart_with_two_named_parts() {
    let body = "--XyZ\r\n\
Content-Disposition: form-data; name=\"field1\"\r\n\
\r\n\
value one\r\n\
--XyZ\r\n\
Content-Disposition: form-data; name=\"file1\"; filename=\"a.txt\"\r\n\
Content-Type: text/plain\r\n\
\r\n\
line1\r\nline2\r\n\
--XyZ--\r\n";
    let data = form("multipart/form-data; boundary=\"XyZ\"", body);
    let parts = data.as_multipart_form_data().unwrap();
    assert_eq!(parts.len(), 2);
    let field = parts.get("field1").unwrap();
    assert_eq!(field.as_buffer(), b"value one".to_vec());
    assert_eq!(field.content_type().as_string(), "application/octet-stream");
    let file = parts.get("file1").unwrap();
    assert_eq!(file.as_buffer(), b"line1\r\nline2".to_vec());
    assert_eq!(file.as_text().unwrap(), "line1\r\nline2");
    assert_eq!(
        file.content_disposition().unwrap().as_string(),
        "form-data; name=\"file1\"; filename=\"a.txt\""
    );
}

#[test]
fn multipart_duplicate_names_overwrite() {
    let body = "--b\r\nContent-Disposition: form-data; name=x\r\n\r\n1\r\n--b\r\nContent-Disposition: form-data; name=x\r\n\r\n2\r\n--b--";
    let parts = form("multipart/form-data; boundary=b", body).as_multipart_form_data().unwrap();
    assert_eq!(parts.len(), 1);
    assert_eq!(parts.get("x").unwrap().as_buffer(), b"2".to_vec());
}

#[test]
fn multipart_needs_multipart_type() {
    let data = form("text/plain; boundary=b", "--b\r\n--b--");
    assert_eq!(data.as_multipart_form_data().err(), Some(UploadedDataParsingError::InvalidMimeType));
}

#[test]
fn multipart_needs_boundary() {
    let data = form("multipart/form-data", "--b\r\n--b--");
    assert_eq!(data.as_multipart_form_data().err(), Some(UploadedDataParsingError::InvalidMimeType));
}

#[test]
fn multipart_part_needs_content_disposition() {
    let data = form("multipart/form-data; boundary=b", "--b\r\nContent-Type: text/plain\r\n\r\nx\r\n--b--");
    assert_eq!(data.as_multipart_form_data().err(), Some(UploadedDataParsingError::InvalidContentDispositionHeader));
}

#[test]
fn multipart_part_needs_name() {
    let data = form("multipart/form-data; boundary=b", "--b\r\nContent-Disposition: form-data\r\n\r\nx\r\n--b--");
    assert_eq!(data.as_multipart_form_data().err(), Some(UploadedDataParsingError::InvalidContentDispositionHeader));
}

#[test]
fn multipart_part_headers_must_be_utf8() {
    let mut body = b"--b\r\nContent-Disposition: form-data; name=\xff\r\n\r\nx\r\n--b--".to_vec();
    body.push(b'\n');
    let data = UploadedData::new(HttpHeaderValue::new(String::from("multipart/form-data; boundary=b")), None, body);
    assert_eq!(data.as_multipart_form_data().err(), Some(UploadedDataParsingError::InvalidEncoding));
}

#[test]
fn as_text_needs_text_plain() {
    let data = form("application/json", "{}");
    assert_eq!(data.as_text().err(), Some(UploadedDataParsingError::InvalidMimeType));
    let data = form("text/plain; charset=utf-8", "hi");
    assert_eq!(data.as_text().unwrap(), "hi");
}

#[test]
fn as_text_rejects_invalid_utf8() {
    let data = UploadedData::new(HttpHeaderValue::new(String::from("text/plain")), None, vec![0xc3]);
    assert_eq!(data.as_text().err(), Some(UploadedDataParsingError::InvalidEncoding));
}
