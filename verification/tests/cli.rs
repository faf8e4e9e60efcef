use esindex_exporter::cli::{content_or_path, rejection, ContentOrPath};

#[test]
fn existing_file_is_a_path() {
    match content_or_path("esindex_exporter.yaml", true).unwrap() {
        ContentOrPath::Path(path) => assert_eq!(path, "esindex_exporter.yaml"),
        other => panic!("unexpected: {:?}", other),
    }
}

#[test]
fn existing_file_is_a_path_even_if_it_reads_as_base64() {
    match content_or_path("aGVsbG8=", true).unwrap() {
        ContentOrPath::Path(path) => assert_eq!(path, "aGVsbG8="),
        other => panic!("unexpected: {:?}", other),
    }
}

#[test]
fn base64_is_decoded_to_content() {
    match content_or_path("aGVsbG8=", false).unwrap() {
        ContentOrPath::Content(content) => assert_eq!(content, b"hello".to_vec()),
        other => panic!("unexpected: {:?}", other),
    }
    match content_or_path("YmFzZV91cmw6IGh0dHA6Ly9sb2NhbGhvc3Q6OTIwMAo=", false).unwrap() {
        ContentOrPath::Content(content) => {
            assert_eq!(content, b"base_url: http://localhost:9200\n".to_vec())
        }
        other => panic!("unexpected: {:?}", other),
    }
}

#[test]
fn empty_argument_is_empty_content() {
    match content_or_path("", false).unwrap() {
        ContentOrPath::Content(content) => assert!(content.is_empty()),
        other => panic!("unexpected: {:?}", other),
    }
}

#[test]
fn neither_file_nor_base64_is_refused() {
    let message = content_or_path("esindex_exporter.yaml", false).unwrap_err();
    assert_eq!(
        message,
        "path does not exist or is not a file, or content provided is not valid base64 (base64-decode error: Invalid symbol 95, offset 7.)"
    );
}

#[test]
fn base64_without_padding_is_refused() {
    let message = content_or_path("aGVsbG8", false).unwrap_err();
    assert!(message.starts_with(
        "path does not exist or is not a file, or content provided is not valid base64 (base64-decode error: "
    ));
    assert!(message.ends_with(")"));
}

#[test]
fn rejection_wraps_the_detail() {
    assert_eq!(
        rejection("why"),
        "path does not exist or is not a file, or content provided is not valid base64 (base64-decode error: why)"
    );
}
