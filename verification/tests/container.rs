use std::io::Write;
use itcoolmcplang1c::container::{inflate, is_container, parse, read_block, walk, EMPTY, HDR};

fn block(data: &[u8], next: u32) -> Vec<u8> {
    let mut out = Vec::new();
    out.extend_from_slice(b"\r\n");
    out.extend_from_slice(format!("{:08x} {:08x} {:08x} ", data.len(), data.len(), next).as_bytes());
    out.extend_from_slice(b"\r\n");
    out.extend_from_slice(data);
    out
}

fn element_header(name: &str) -> Vec<u8> {
    let mut out = vec![0u8; 20];
    for unit in name.encode_utf16() {
        out.extend_from_slice(&unit.to_le_bytes());
    }
    out.extend_from_slice(&[0, 0, 0, 0]);
    out
}

fn container(items: &[(&str, &[u8])]) -> Vec<u8> {
    let mut heads = Vec::new();
    let mut bodies = Vec::new();
    for (name, data) in items {
        heads.push(block(&element_header(name), EMPTY));
        bodies.push(block(data, EMPTY));
    }

    let toc_len = items.len() * 12;
    let toc_block_len = HDR + toc_len;
    let mut addr = 16 + toc_block_len;

    let mut toc = Vec::new();
    for i in 0..items.len() {
        let h_addr = addr as u32;
        addr += heads[i].len();
        let d_addr = addr as u32;
        addr += bodies[i].len();
        toc.extend_from_slice(&h_addr.to_le_bytes());
        toc.extend_from_slice(&d_addr.to_le_bytes());
        toc.extend_from_slice(&EMPTY.to_le_bytes());
    }

    let mut out = Vec::new();
    out.extend_from_slice(&EMPTY.to_le_bytes());
    out.extend_from_slice(&[0u8; 12]);
    out.extend_from_slice(&block(&toc, EMPTY));
    for i in 0..items.len() {
        out.extend_from_slice(&heads[i]);
        out.extend_from_slice(&bodies[i]);
    }
    out
}

#[test]
fn parses_names_and_data() {
    let buf = container(&[("FileStorage", b"PK\x03\x04data"), ("MainData", b"xyz")]);

    let items = parse(&buf).unwrap();

    assert_eq!(items.len(), 2);
    assert_eq!(items[0].0, "FileStorage");
    assert_eq!(items[0].1, b"PK\x03\x04data");
    assert_eq!(items[1].0, "MainData");
}

#[test]
fn synthetic_container_is_recognized() {
    let buf = container(&[("A", b"1")]);

    assert!(is_container(&buf));
    assert!(!is_container(b"PK\x03\x04"));
}

#[test]
fn walk_descends_into_nested_container() {
    let inner = container(&[("leaf", b"payload")]);
    let outer = container(&[("branch", inner.as_slice())]);

    let items = walk(&outer, "").unwrap();

    assert_eq!(items.len(), 1);
    assert_eq!(items[0].0, "branch/leaf");
    assert_eq!(items[0].1, b"payload");
}

#[test]
fn empty_addresses_are_skipped() {
    let mut buf = container(&[("A", b"1"), ("B", b"2")]);
    let toc_at = 16 + HDR;
    buf[toc_at..toc_at + 4].copy_from_slice(&EMPTY.to_le_bytes());

    let items = parse(&buf).unwrap();

    assert_eq!(items.len(), 1);
    assert_eq!(items[0].0, "B");
}

#[test]
fn read_block_joins_continuation_pages() {
    let mut buf = vec![0u8; 0];
    let first_at = 0;
    buf.extend_from_slice(b"\r\n");
    buf.extend_from_slice(format!("{:08x} {:08x} {:08x} ", 6, 3, 40).as_bytes());
    buf.extend_from_slice(b"\r\n");
    buf.extend_from_slice(b"abc");
    buf.resize(40, 0);
    buf.extend_from_slice(b"\r\n");
    buf.extend_from_slice(format!("{:08x} {:08x} {:08x} ", 3, 3, EMPTY).as_bytes());
    buf.extend_from_slice(b"\r\n");
    buf.extend_from_slice(b"def");

    assert_eq!(read_block(&buf, first_at).unwrap(), b"abcdef");
}

#[test]
fn broken_address_is_an_error_not_a_panic() {
    let buf = container(&[("A", b"1")]);

    assert!(read_block(&buf, buf.len() + 1000).is_err());
}

#[test]
fn inflate_returns_source_on_failure() {
    assert_eq!(inflate(b"not deflate at all"), b"not deflate at all");
}

#[test]
fn inflate_unpacks_raw_deflate() {
    let mut enc = flate2::write::DeflateEncoder::new(Vec::new(), flate2::Compression::default());
    enc.write_all(b"hello hello hello").unwrap();
    let packed = enc.finish().unwrap();

    assert_ne!(packed, b"hello hello hello");
    assert_eq!(inflate(&packed), b"hello hello hello");
}

#[test]
fn non_hex_header_is_an_error() {
    let mut buf = Vec::new();
    buf.extend_from_slice(b"\r\nzzzzzzzz 00000001 7fffffff \r\nx");
    assert!(read_block(&buf, 0).is_err());
}

#[test]
fn refusals_name_what_is_broken() {
    let buf = container(&[("A", b"1")]);
    let far = buf.len() + 1000;
    assert_eq!(
        read_block(&buf, far).unwrap_err().message(),
        format!("ru: Не заголовок блока по адресу {far}, en: Not a block header at address {far}")
    );

    let mut bad = Vec::new();
    bad.extend_from_slice(b"\r\nzzzzzzzz 00000001 7fffffff \r\nx");
    assert_eq!(
        read_block(&bad, 0).unwrap_err().message(),
        "ru: Не hex в заголовке блока: \"zzzzzzzz\", en: Block header is not hex: \"zzzzzzzz\""
    );

    let mut cut = Vec::new();
    cut.extend_from_slice(b"\r\n");
    cut.extend_from_slice(format!("{:08x} {:08x} {:08x} ", 6, 3, 40).as_bytes());
    cut.extend_from_slice(b"\r\nabc");
    assert_eq!(
        read_block(&cut, 0).unwrap_err().message(),
        "ru: Обрыв цепочки страниц на адресе 40, en: Page chain truncated at address 40"
    );

    let mut not_container = vec![0xffu8, 0xff, 0xff, 0x7f];
    not_container.resize(64, 0);
    assert_eq!(
        parse(&not_container).unwrap_err().message(),
        "ru: Не заголовок блока по адресу 16, en: Not a block header at address 16"
    );
}
