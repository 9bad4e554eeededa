use csv_render::payload::{data_url, DATA_URL_PREFIX};

#[test]
fn data_url_starts_with_the_prefix() {
    assert_eq!(DATA_URL_PREFIX, "data:text;charset=utf-8,");
    assert_eq!(data_url(""), "data:text;charset=utf-8,");
}

#[test]
fn data_url_keeps_unreserved_characters() {
    assert_eq!(data_url("AZaz09-._~"), "data:text;charset=utf-8,AZaz09-._~");
}

#[test]
fn data_url_encodes_every_other_byte() {
    assert_eq!(
        data_url("# tiggers's adventures\n"),
        "data:text;charset=utf-8,%23%20tiggers%27s%20adventures%0A"
    );
}

#[test]
fn data_url_encodes_the_utf8_bytes_in_upper_case_hex() {
    assert_eq!(data_url("é/"), "data:text;charset=utf-8,%C3%A9%2F");
}
