use vstd::prelude::*;
use vstd::slice::slice_subrange;
use vstd::utf8::*;

verus! {

/// Names the text that `String::from_utf8_lossy` makes of a byte sequence.
pub uninterp spec fn utf8_lossy(bytes: Seq<u8>) -> Seq<char>;

/// Calls `String::from_utf8_lossy` and takes the text as an owned `String`.
/// Trusted: the text is `utf8_lossy` of the bytes, and bytes that are valid
/// UTF-8 come back as their decoding, as std documents. How an invalid
/// sequence is replaced by U+FFFD is left to the name.
#[verifier::external_body]
fn decode_lossy(bytes: &[u8]) -> (text: String)
    ensures
        text@ == utf8_lossy(bytes@),
        valid_utf8(bytes@) ==> text@ == decode_utf8(bytes@),
{
    String::from_utf8_lossy(bytes).into_owned()
}

/// The ASCII lower-case form of one character.
pub open spec fn ascii_lower_char(c: char) -> char {
    if 'A' <= c && c <= 'Z' {
        ((c as u32) + 32) as char
    } else {
        c
    }
}

/// Every character of `s` put through `ascii_lower_char`.
pub open spec fn ascii_lowercase(s: Seq<char>) -> Seq<char> {
    s.map_values(|c: char| ascii_lower_char(c))
}

/// Calls `str::to_ascii_lowercase`. Trusted: std documents that the letters
/// 'A' to 'Z' become 'a' to 'z' and that every other character is kept.
#[verifier::external_body]
fn to_ascii_lower(text: &str) -> (lower: String)
    ensures
        lower@ == ascii_lowercase(text@),
{
    text.to_ascii_lowercase()
}

/// The fields of a request, as plain values.
pub struct Socks5View {
    pub mode: u8,
    pub addr_type: u8,
    pub addr: Seq<char>,
    pub port: u32,
    pub port_high8: u8,
    pub port_low8: u8,
    pub addr_len: u8,
}

/// The address type of a domain name in a SOCKS5 request.
pub open spec fn domain_type() -> u8 {
    3
}

/// A client request `[ver, cmd, rsv, atyp, ...]` is long enough to be read:
/// four bytes, and for a domain name its length byte, the name and the two
/// port bytes, with a name of at most 249 bytes (the offsets are computed in
/// one byte).
pub open spec fn request_fits(d: Seq<u8>) -> bool {
    &&& d.len() >= 4
    &&& d[3] == domain_type() ==> {
        &&& d.len() >= 5
        &&& d[4] <= 249
        &&& d.len() >= d[4] + 7
    }
}

/// The text a domain name becomes: decoded (lossily, where the bytes are
/// not valid UTF-8), then lower-cased.
pub open spec fn domain_text(raw: Seq<u8>) -> Seq<char> {
    if valid_utf8(raw) {
        ascii_lowercase(decode_utf8(raw))
    } else {
        ascii_lowercase(utf8_lossy(raw))
    }
}

/// The port number of its two big-endian bytes.
pub open spec fn port_of(high: u8, low: u8) -> u32 {
    (high * 256 + low) as u32
}

/// What a client request holds. Only domain names are read: for any other
/// address type the address, its length and the port stay empty.
pub open spec fn request_view(d: Seq<u8>) -> Socks5View {
    if d[3] == domain_type() {
        let len = d[4];
        let high = d[5 + len];
        let low = d[6 + len];
        Socks5View {
            mode: d[1],
            addr_type: d[3],
            addr: domain_text(d.subrange(5, 5 + len)),
            port: port_of(high, low),
            port_high8: high,
            port_low8: low,
            addr_len: len,
        }
    } else {
        Socks5View {
            mode: d[1],
            addr_type: d[3],
            addr: Seq::empty(),
            port: 0,
            port_high8: 0,
            port_low8: 0,
            addr_len: 0,
        }
    }
}

/// The bytes that go to the relay server: `[atyp, len]`, the address in
/// UTF-8, then the two port bytes.
pub open spec fn wire_bytes(v: Socks5View) -> Seq<u8> {
    seq![v.addr_type, v.addr_len] + encode_utf8(v.addr) + seq![v.port_high8, v.port_low8]
}

/// A frame from the front end is long enough to be read: its type byte, and
/// for a domain name the length byte, the name and the two port bytes.
pub open spec fn frame_fits(d: Seq<u8>) -> bool {
    &&& d.len() >= 1
    &&& d[0] == domain_type() ==> d.len() >= 2 && d.len() >= d[1] + 4
}

/// What a frame from the front end holds. The frame carries no command, so
/// the mode is 0; types other than a domain name leave the address empty.
pub open spec fn frame_view(d: Seq<u8>) -> Socks5View {
    if d[0] == domain_type() {
        let len = d[1];
        let high = d[2 + len];
        let low = d[3 + len];
        Socks5View {
            mode: 0,
            addr_type: d[0],
            addr: domain_text(d.subrange(2, 2 + len)),
            port: port_of(high, low),
            port_high8: high,
            port_low8: low,
            addr_len: len,
        }
    } else {
        Socks5View {
            mode: 0,
            addr_type: d[0],
            addr: Seq::empty(),
            port: 0,
            port_high8: 0,
            port_low8: 0,
            addr_len: 0,
        }
    }
}

/// A parsed SOCKS5 connect request.
#[derive(Debug)]
pub struct Socks5 {
    mode: u8,
    addr_type: u8,
    addr: String,
    port: u32,
    port_high8: u8,
    port_low8: u8,
    addr_len: u8,
}

impl View for Socks5 {
    type V = Socks5View;

    closed spec fn view(&self) -> Socks5View {
        Socks5View {
            mode: self.mode,
            addr_type: self.addr_type,
            addr: self.addr@,
            port: self.port,
            port_high8: self.port_high8,
            port_low8: self.port_low8,
            addr_len: self.addr_len,
        }
    }
}

fn port_from_bytes(high: u8, low: u8) -> (port: u32)
    ensures
        port == port_of(high, low),
{
    let h = high as u32;
    let l = low as u32;
    assert((h << 8) == h * 256) by (bit_vector)
        requires
            h < 256,
    ;
    (h << 8) + l
}

impl Socks5 {
    /// Whether `data` is a client request that `new` can read.
    pub fn request_fits(data: &[u8]) -> (fits: bool)
        ensures
            fits == request_fits(data@),
    {
        if data.len() < 4 {
            return false;
        }
        if data[3] != 3 {
            return true;
        }
        data.len() >= 5 && data[4] <= 249 && data.len() >= data[4] as usize + 7
    }

    /// Reads a client request `[ver, cmd, rsv, atyp, ...]`.
    pub fn new(data: &[u8]) -> (s: Self)
        requires
            request_fits(data@),
        ensures
            s@ == request_view(data@),
    {
        let mode = data[1];
        let addr_type = data[3];
        if addr_type == 3 {
            let addr_len = data[4];
            let end = 5 + addr_len as usize;
            let raw = slice_subrange(data, 5, end);
            let text = decode_lossy(raw);
            let addr = to_ascii_lower(text.as_str());
            let port_high8 = data[end];
            let port_low8 = data[end + 1];
            let port = port_from_bytes(port_high8, port_low8);
            Socks5 { mode, addr_type, addr, port, port_high8, port_low8, addr_len }
        } else {
            let addr = String::new();
            Socks5 { mode, addr_type, addr, port: 0, port_high8: 0, port_low8: 0, addr_len: 0 }
        }
    }
    /// The bytes sent to the relay server: `[atyp, len]`, the address in
    /// UTF-8, then the two port bytes.
    pub fn encrypt(&self) -> (res: Vec<u8>)
        ensures
            res@ == wire_bytes(self@),
    {
        let mut res: Vec<u8> = Vec::new();
        res.push(self.addr_type);
        res.push(self.addr_len);
        res.extend_from_slice(self.addr.as_str().as_bytes());
        res.push(self.port_high8);
        res.push(self.port_low8);
        proof {
            assert(res@ =~= wire_bytes(self@));
        }
        res
    }

    /// The address, a copy of it.
    pub fn get_addr(&self) -> (addr: String)
        ensures
            addr@ == self@.addr,
    {
        self.addr.clone()
    }

    /// The port number.
    pub fn get_port(&self) -> (port: u32)
        ensures
            port == self@.port,
    {
        self.port
    }

    /// Whether `data` is a frame that `decrypt` can read.
    pub fn frame_fits(data: &[u8]) -> (fits: bool)
        ensures
            fits == frame_fits(data@),
    {
        if data.len() < 1 {
            return false;
        }
        if data[0] != 3 {
            return true;
        }
        data.len() >= 2 && data.len() >= data[1] as usize + 4
    }

    /// Reads a frame that `encrypt` wrote: `[atyp, len]`, the address, then
    /// the two port bytes.
    pub fn decrypt(data: &[u8]) -> (s: Self)
        requires
            frame_fits(data@),
        ensures
            s@ == frame_view(data@),
    {
        let addr_type = data[0];
        if addr_type == 3 {
            let addr_len = data[1];
            let end = 2 + addr_len as usize;
            let raw = slice_subrange(data, 2, end);
            let text = decode_lossy(raw);
            let addr = to_ascii_lower(text.as_str());
            let port_high8 = data[end];
            let port_low8 = data[end + 1];
            let port = port_from_bytes(port_high8, port_low8);
            Socks5 { mode: 0, addr_type, addr, port, port_high8, port_low8, addr_len }
        } else {
            let addr = String::new();
            Socks5 { mode: 0, addr_type, addr, port: 0, port_high8: 0, port_low8: 0, addr_len: 0 }
        }
    }
}

/// The request that the relay server reads back: that of the client with
/// no command, which the frame does not carry.
pub open spec fn forwarded_view(v: Socks5View) -> Socks5View {
    Socks5View {
        mode: 0,
        addr_type: v.addr_type,
        addr: v.addr,
        port: v.port,
        port_high8: v.port_high8,
        port_low8: v.port_low8,
        addr_len: v.addr_len,
    }
}

/// The domain name of a client request, where it carries one, is valid UTF-8.
pub open spec fn domain_is_utf8(d: Seq<u8>) -> bool {
    d[3] == domain_type() ==> valid_utf8(d.subrange(5, 5 + d[4]))
}

proof fn lemma_lower_char_width(c: char)
    ensures
        (ascii_lower_char(c) as u32) < 0x80 <==> (c as u32) < 0x80,
        ascii_lower_char(ascii_lower_char(c)) == ascii_lower_char(c),
{
    if 'A' <= c && c <= 'Z' {
        let u = (c as u32) + 32;
        assert(0x61 <= u <= 0x7a);
        assert((u as char) as u32 == u);
    }
}

proof fn lemma_lowercase_idempotent(s: Seq<char>)
    ensures
        ascii_lowercase(ascii_lowercase(s)) == ascii_lowercase(s),
{
    assert forall|i: int| 0 <= i < s.len() implies #[trigger] ascii_lowercase(
        ascii_lowercase(s),
    )[i] == ascii_lowercase(s)[i] by {
        lemma_lower_char_width(s[i]);
    }
    assert(ascii_lowercase(ascii_lowercase(s)) =~= ascii_lowercase(s));
}

proof fn lemma_lowercase_encoded_len(s: Seq<char>)
    ensures
        encode_utf8(ascii_lowercase(s)).len() == encode_utf8(s).len(),
    decreases s.len(),
{
    if s.len() > 0 {
        let t = ascii_lowercase(s);
        assert(t.drop_first() =~= ascii_lowercase(s.drop_first()));
        lemma_lowercase_encoded_len(s.drop_first());
        lemma_lower_char_width(s[0]);
        assert(t[0] == ascii_lower_char(s[0]));
        broadcast use char_is_scalar;
        assert(is_scalar(s[0] as u32));
        assert(is_scalar(t[0] as u32));
        assert(encode_scalar(t[0] as u32).len() == encode_scalar(s[0] as u32).len());
    }
}

/// What the relay server reads back of a frame is what the front end sent:
/// for a client request whose domain name, if any, is valid UTF-8, the frame
/// `encrypt` writes of it can be read by `decrypt`, and gives back the request
/// without its command. (On a name that is not valid UTF-8 the lossy decoding
/// changes its length in bytes, and the frame no longer matches its length
/// byte.)
pub proof fn lemma_frame_round_trip(d: Seq<u8>)
    requires
        request_fits(d),
        domain_is_utf8(d),
    ensures
        frame_fits(wire_bytes(request_view(d))),
        frame_view(wire_bytes(request_view(d))) == forwarded_view(request_view(d)),
{
    let v = request_view(d);
    let w = wire_bytes(v);
    if d[3] == domain_type() {
        let len = d[4];
        let raw = d.subrange(5, 5 + len);
        let chars = decode_utf8(raw);
        decode_utf8_encode_utf8(raw);
        lemma_lowercase_encoded_len(chars);
        let enc = encode_utf8(v.addr);
        assert(enc.len() == len);
        assert(w.subrange(2, 2 + len) =~= enc);
        encode_utf8_valid_utf8(v.addr);
        encode_utf8_decode_utf8(v.addr);
        lemma_lowercase_idempotent(chars);
        assert(w[2 + len] == v.port_high8);
        assert(w[3 + len] == v.port_low8);
    } else {
        assert(encode_utf8(Seq::<char>::empty()) =~= Seq::<u8>::empty());
        assert(w =~= seq![v.addr_type, 0u8, 0u8, 0u8]);
    }
}

/// A request for any address type other than a domain name needs nothing
/// past its first four bytes: every such sequence of four bytes or more can
/// be read, whatever follows.
pub proof fn lemma_non_domain_request_fits(d: Seq<u8>)
    requires
        d.len() >= 4,
        d[3] != 3,
    ensures
        request_fits(d),
{
}

/// A frame for any address type other than a domain name needs only its type
/// byte: every such non-empty sequence can be read, whatever follows.
pub proof fn lemma_non_domain_frame_fits(d: Seq<u8>)
    requires
        d.len() >= 1,
        d[0] != 3,
    ensures
        frame_fits(d),
{
}

/// A domain-name request can be read as soon as it holds its name of at most
/// 249 bytes and the two port bytes after it.
pub proof fn lemma_domain_request_fits(d: Seq<u8>)
    requires
        d.len() >= 5,
        d[3] == 3,
        d[4] <= 249,
        d.len() >= 5 + d[4] + 2,
    ensures
        request_fits(d),
{
}

/// The ASCII lower-case form of one byte: 'A' to 'Z' become 'a' to 'z'.
pub open spec fn ascii_lower_byte(b: u8) -> u8 {
    if 65 <= b && b <= 90 {
        (b + 32) as u8
    } else {
        b
    }
}

/// The characters of bytes below 0x80, one for each byte.
pub open spec fn ascii_chars(b: Seq<u8>) -> Seq<char> {
    b.map_values(|x: u8| x as char)
}

proof fn lemma_ascii_bytes_text(b: Seq<u8>)
    requires
        forall|i: int| 0 <= i < b.len() ==> #[trigger] b[i] < 0x80,
    ensures
        valid_utf8(b),
        domain_text(b) == ascii_lowercase(ascii_chars(b)),
        encode_utf8(domain_text(b)) == b.map_values(|x: u8| ascii_lower_byte(x)),
        domain_text(b).len() == b.len(),
        forall|i: int| 0 <= i < b.len() ==> (#[trigger] domain_text(b)[i] as u32) == ascii_lower_byte(b[i]) as u32,
{
    let chars = ascii_chars(b);
    assert forall|i: int| 0 <= i < chars.len() implies '\0' <= #[trigger] chars[i] <= '\u{7f}' by {
        let x = b[i];
        assert((x as char) as u32 == x as u32);
    }
    assert(is_ascii_chars(chars));
    is_ascii_chars_encode_utf8(chars);
    assert forall|i: int| 0 <= i < b.len() implies encode_utf8(chars)[i] == b[i] by {
        let x = b[i];
        assert((x as char) as u32 == x as u32);
        assert(chars[i] as u8 == encode_utf8(chars)[i]);
    }
    assert(encode_utf8(chars) =~= b);
    encode_utf8_valid_utf8(chars);
    encode_utf8_decode_utf8(chars);
    let lower = ascii_lowercase(chars);
    assert forall|i: int| 0 <= i < lower.len() implies (#[trigger] lower[i] as u32) == ascii_lower_byte(b[i]) as u32 by {
        let x = b[i];
        assert((x as char) as u32 == x as u32);
        if 65 <= x && x <= 90 {
            let u = (x as u32) + 32;
            assert((u as char) as u32 == u);
        }
    }
    assert forall|i: int| 0 <= i < lower.len() implies '\0' <= #[trigger] lower[i] <= '\u{7f}' by {
        let x = b[i];
        assert((lower[i] as u32) == ascii_lower_byte(x) as u32);
    }
    assert(is_ascii_chars(lower));
    is_ascii_chars_encode_utf8(lower);
    assert forall|i: int| 0 <= i < b.len() implies encode_utf8(lower)[i] == ascii_lower_byte(b[i]) by {
        assert(lower[i] as u8 == encode_utf8(lower)[i]);
        assert((lower[i] as u32) == ascii_lower_byte(b[i]) as u32);
    }
    assert(encode_utf8(lower) =~= b.map_values(|x: u8| ascii_lower_byte(x)));
}

/// For a domain name in ASCII, the front end reads the request's command,
/// its name with capitals made small, and its big-endian port; and the frame
/// it sends on is `[3, len]`, that lower-case name byte for byte, then the
/// request's two port bytes.
pub proof fn lemma_ascii_domain_request(d: Seq<u8>)
    requires
        request_fits(d),
        d[3] == 3,
        forall|i: int| 5 <= i < 5 + d[4] ==> #[trigger] d[i] < 0x80,
    ensures
        ({
            let len = d[4] as int;
            let v = request_view(d);
            &&& v.mode == d[1]
            &&& v.addr_len == d[4]
            &&& v.port == d[5 + len] * 256 + d[6 + len]
            &&& v.addr.len() == len
            &&& forall|i: int| 0 <= i < len ==> (#[trigger] v.addr[i] as u32) == ascii_lower_byte(d[5 + i]) as u32
            &&& wire_bytes(v) == seq![3u8, d[4]] + d.subrange(5, 5 + len).map_values(
                |x: u8| ascii_lower_byte(x),
            ) + seq![d[5 + len], d[6 + len]]
        }),
{
    let len = d[4] as int;
    let raw = d.subrange(5, 5 + len);
    assert forall|i: int| 0 <= i < raw.len() implies #[trigger] raw[i] < 0x80 by {
        assert(raw[i] == d[5 + i]);
    }
    lemma_ascii_bytes_text(raw);
    let v = request_view(d);
    assert forall|i: int| 0 <= i < len implies (#[trigger] v.addr[i] as u32) == ascii_lower_byte(d[5 + i]) as u32 by {
        assert(raw[i] == d[5 + i]);
    }
}

/// A request for any other address type is read with an empty address and
/// port 0, and its frame is `[atyp, 0, 0, 0]`.
pub proof fn lemma_non_domain_request(d: Seq<u8>)
    requires
        request_fits(d),
        d[3] != 3,
    ensures
        request_view(d).mode == d[1],
        request_view(d).addr.len() == 0,
        request_view(d).port == 0,
        wire_bytes(request_view(d)) == seq![d[3], 0u8, 0u8, 0u8],
{
    assert(encode_utf8(Seq::<char>::empty()) =~= Seq::<u8>::empty());
    assert(wire_bytes(request_view(d)) =~= seq![d[3], 0u8, 0u8, 0u8]);
}

/// For a frame naming a domain in ASCII, the relay server reads the name with
/// capitals made small and the big-endian port that follows it.
pub proof fn lemma_ascii_domain_frame(d: Seq<u8>)
    requires
        frame_fits(d),
        d[0] == 3,
        forall|i: int| 2 <= i < 2 + d[1] ==> #[trigger] d[i] < 0x80,
    ensures
        ({
            let len = d[1] as int;
            let v = frame_view(d);
            &&& v.addr_type == 3
            &&& v.addr_len == d[1]
            &&& v.port == d[2 + len] * 256 + d[3 + len]
            &&& v.addr.len() == len
            &&& forall|i: int| 0 <= i < len ==> (#[trigger] v.addr[i] as u32) == ascii_lower_byte(d[2 + i]) as u32
        }),
{
    let len = d[1] as int;
    let raw = d.subrange(2, 2 + len);
    assert forall|i: int| 0 <= i < raw.len() implies #[trigger] raw[i] < 0x80 by {
        assert(raw[i] == d[2 + i]);
    }
    lemma_ascii_bytes_text(raw);
    let v = frame_view(d);
    assert forall|i: int| 0 <= i < len implies (#[trigger] v.addr[i] as u32) == ascii_lower_byte(d[2 + i]) as u32 by {
        assert(raw[i] == d[2 + i]);
    }
}

} // verus!
