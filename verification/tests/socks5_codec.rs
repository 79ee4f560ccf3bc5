use socks5_proxy::socks5::Socks5;

fn domain_request(name: &[u8], port: u16) -> Vec<u8> {
    let mut data = vec![5u8, 1, 0, 3, name.len() as u8];
    data.extend_from_slice(name);
    data.push((port >> 8) as u8);
    data.push((port & 0xff) as u8);
    data
}

#[test]
fn new_reads_domain_and_port() {
    let data = domain_request(b"Example.COM", 443);
    let s = Socks5::new(&data);
    assert_eq!(s.get_addr(), "example.com");
    assert_eq!(s.get_port(), 443);
}

#[test]
fn encrypt_writes_type_length_name_port() {
    let data = domain_request(b"Example.COM", 443);
    let s = Socks5::new(&data);
    let mut expected = vec![3u8, 11];
    expected.extend_from_slice(b"example.com");
    expected.push(1);
    expected.push(187);
    assert_eq!(s.encrypt(), expected);
}

#[test]
fn new_leaves_other_address_types_empty() {
    let data = [5u8, 1, 0, 1, 127, 0, 0, 1, 0, 80];
    let s = Socks5::new(&data);
    assert_eq!(s.get_addr(), "");
    assert_eq!(s.get_port(), 0);
    assert_eq!(s.encrypt(), vec![1u8, 0, 0, 0]);
}

#[test]
fn port_is_big_endian() {
    let data = domain_request(b"a", 0x1f90);
    let s = Socks5::new(&data);
    assert_eq!(s.get_port(), 8080);
}

#[test]
fn empty_domain_name() {
    let data = [5u8, 1, 0, 3, 0, 0, 22];
    let s = Socks5::new(&data);
    assert_eq!(s.get_addr(), "");
    assert_eq!(s.get_port(), 22);
    assert_eq!(s.encrypt(), vec![3u8, 0, 0, 22]);
}

#[test]
fn invalid_utf8_is_replaced() {
    let data = domain_request(&[0xff, b'A'], 80);
    let s = Socks5::new(&data);
    assert_eq!(s.get_addr(), "\u{FFFD}a");
    // the length byte keeps the two bytes that were read, the text is now four
    assert_eq!(s.encrypt(), vec![3u8, 2, 0xef, 0xbf, 0xbd, b'a', 0, 80]);
}

#[test]
fn utf8_domain_is_decoded() {
    let data = domain_request("Bücher.DE".as_bytes(), 80);
    let s = Socks5::new(&data);
    assert_eq!(s.get_addr(), "bücher.de");
}

#[test]
fn request_fits_cases() {
    assert!(!Socks5::request_fits(&[]));
    assert!(!Socks5::request_fits(&[5, 1, 0]));
    assert!(Socks5::request_fits(&[5, 1, 0, 1]));
    assert!(!Socks5::request_fits(&[5, 1, 0, 3]));
    assert!(!Socks5::request_fits(&[5, 1, 0, 3, 2, b'a', b'b', 0]));
    assert!(Socks5::request_fits(&[5, 1, 0, 3, 2, b'a', b'b', 0, 80]));
    let mut long = vec![5u8, 1, 0, 3, 250];
    long.extend(std::iter::repeat(b'a').take(252));
    assert!(!Socks5::request_fits(&long));
    let mut ok = vec![5u8, 1, 0, 3, 249];
    ok.extend(std::iter::repeat(b'a').take(251));
    assert!(Socks5::request_fits(&ok));
}

#[test]
fn frame_fits_cases() {
    assert!(!Socks5::frame_fits(&[]));
    assert!(Socks5::frame_fits(&[1]));
    assert!(!Socks5::frame_fits(&[3]));
    assert!(!Socks5::frame_fits(&[3, 1, b'a', 0]));
    assert!(Socks5::frame_fits(&[3, 1, b'a', 0, 80]));
}

#[test]
fn decrypt_reads_frame() {
    let frame = [3u8, 3, b'A', b'b', b'c', 0x01, 0xbb];
    let s = Socks5::decrypt(&frame);
    assert_eq!(s.get_addr(), "abc");
    assert_eq!(s.get_port(), 443);
    assert_eq!(s.encrypt(), vec![3u8, 3, b'a', b'b', b'c', 1, 187]);
}

#[test]
fn decrypt_other_type_is_empty() {
    let s = Socks5::decrypt(&[1u8, 9, 9, 9]);
    assert_eq!(s.get_addr(), "");
    assert_eq!(s.get_port(), 0);
    assert_eq!(s.encrypt(), vec![1u8, 0, 0, 0]);
}

#[test]
fn frame_round_trip() {
    let data = domain_request("Bücher.example".as_bytes(), 8443);
    let sent = Socks5::new(&data);
    let frame = sent.encrypt();
    assert!(Socks5::frame_fits(&frame));
    let read = Socks5::decrypt(&frame);
    assert_eq!(read.get_addr(), sent.get_addr());
    assert_eq!(read.get_port(), sent.get_port());
    assert_eq!(read.encrypt(), frame);
}
