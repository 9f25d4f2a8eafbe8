//! QUIC wire formats: variable-length integers, the long header, the Initial
//! packet and the CRYPTO frame. Nothing here decrypts; the decoders recover
//! structure for inspection.
use vstd::prelude::*;
use vstd::arithmetic::div_mod::{lemma_fundamental_div_mod, lemma_small_mod};
use crate::wire::{
    be_bytes, be_value, copy_range, lemma_be_bytes_value, lemma_be_value_bound,
    lemma_pow256_monotone, lemma_pow256_positive, lemma_pow256_small, pow256, put_be, read_be,
};

verus! {

/// A variable-length integer: how many bytes its encoding takes (1, 2, 4 or 8)
/// and its value.
#[derive(Debug, Clone, Copy, PartialEq, Eq, Structural)]
pub struct QUICInteger {
    pub length: u8,
    pub value: u64,
}

/// The length class that the two most significant bits of a first byte select.
pub open spec fn varint_class(first: u8) -> nat {
    let sel = first / 64;
    if sel == 0 {
        1
    } else if sel == 1 {
        2
    } else if sel == 2 {
        4
    } else {
        8
    }
}

/// Whether `length` is one of the four length classes.
pub open spec fn is_varint_class(length: nat) -> bool {
    length == 1 || length == 2 || length == 4 || length == 8
}

/// The two-bit selector that announces a length class.
pub open spec fn class_selector(length: nat) -> nat {
    if length == 1 {
        0
    } else if length == 2 {
        1
    } else if length == 4 {
        2
    } else {
        3
    }
}

/// One more than the largest value a class can carry: 6 bits of the first
/// byte and 8 of each further byte.
pub open spec fn varint_bound(length: nat) -> nat {
    64 * pow256((length - 1) as nat)
}

/// The variable-length integer at the start of `s`; `None` when `s` is empty or
/// shorter than the class its first byte announces.
pub open spec fn decode_varint(s: Seq<u8>) -> Option<QUICInteger> {
    if s.len() == 0 || s.len() < varint_class(s[0]) {
        None
    } else {
        Some(
            QUICInteger {
                length: varint_class(s[0]) as u8,
                value: be_value(seq![(s[0] % 64) as u8] + s.subrange(1, varint_class(s[0]) as int))
                    as u64,
            },
        )
    }
}

/// The encoding of `value` in the class of `length` bytes: the value big-endian,
/// with the class selector in the top two bits of the first byte.
pub open spec fn encode_varint(length: nat, value: nat) -> Seq<u8> {
    let b = be_bytes(value, length);
    b.update(0, (class_selector(length) * 64 + b[0]) as u8)
}

impl QUICInteger {
    /// A class that exists and a value that fits in it.
    pub open spec fn wf(&self) -> bool {
        is_varint_class(self.length as nat) && self.value < varint_bound(self.length as nat)
    }

    /// The largest number of bytes a variable-length integer takes.
    pub fn max_length() -> (r: u8)
        ensures
            r == 8,
    {
        8
    }

    /// Decodes the variable-length integer at the start of `octets`.
    pub fn parse(octets: &[u8]) -> (r: Result<QUICInteger, ()>)
        ensures
            r == match decode_varint(octets@) {
                Some(q) => Ok::<QUICInteger, ()>(q),
                None => Err(()),
            },
    {
        let len = octets.len();
        if len == 0 {
            return Err(());
        }
        let first = octets[0];
        let sel = first / 64;
        let length: u8 = if sel == 0 {
            1
        } else if sel == 1 {
            2
        } else if sel == 2 {
            4
        } else {
            8
        };
        assert(length == varint_class(first));
        if len < length as usize {
            return Err(());
        }
        let ghost s = octets@;
        let ghost x = (first % 64) as u8;
        let mut value: u64 = (first % 64) as u64;
        let mut i: usize = 1;
        proof {
            let h = seq![x] + s.subrange(1, 1);
            assert(h.drop_last() =~= Seq::<u8>::empty());
            assert(be_value(h.drop_last()) == 0);
            assert(h.last() == x);
            assert(be_value(h) == x);
            lemma_pow256_small();
        }
        while i < length as usize
            invariant
                s == octets@,
                len == s.len(),
                1 <= i <= length <= 8,
                length <= len,
                value == be_value(seq![x] + s.subrange(1, i as int)),
                value < 64 * pow256((i - 1) as nat),
            decreases length - i,
        {
            proof {
                let h = seq![x] + s.subrange(1, i as int);
                assert((seq![x] + s.subrange(1, i + 1)).drop_last() =~= h);
                lemma_pow256_monotone(i as nat, 7);
                lemma_pow256_small();
                assert(value * 256 + 255 < 64 * pow256(i as nat)) by (nonlinear_arith)
                    requires
                        value < 64 * pow256((i - 1) as nat),
                        pow256(i as nat) == 256 * pow256((i - 1) as nat),
                ;
            }
            value = value * 256 + octets[i] as u64;
            i = i + 1;
        }
        Ok(QUICInteger { length, value })
    }

    /// The encoding of this integer in its own length class.
    pub fn to_binary(&self) -> (r: Vec<u8>)
        requires
            self.wf(),
        ensures
            r@ == encode_varint(self.length as nat, self.value as nat),
    {
        let n = self.length as usize;
        let mut out: Vec<u8> = vec![0u8; n];
        put_be(&mut out, 0, self.value, n);
        proof {
            lemma_varint_first_byte(self.length as nat, self.value as nat);
        }
        let sel: u8 = if n == 1 {
            0
        } else if n == 2 {
            1
        } else if n == 4 {
            2
        } else {
            3
        };
        let first = out[0];
        out.set(0, sel * 64 + first);
        assert(out@ =~= encode_varint(self.length as nat, self.value as nat));
        out
    }
}

/// A value below its class bound leaves the top two bits of the first byte free.
proof fn lemma_varint_first_byte(length: nat, value: nat)
    requires
        is_varint_class(length),
        value < varint_bound(length),
    ensures
        be_bytes(value, length)[0] < 64,
        be_bytes(value, length)[0] == value / pow256((length - 1) as nat),
{
    let p = pow256((length - 1) as nat);
    lemma_pow256_positive((length - 1) as nat);
    lemma_fundamental_div_mod(value as int, p as int);
    let q = value / p;
    assert(q < 64) by (nonlinear_arith)
        requires
            value == p * q + value % p,
            value % p >= 0,
            value < 64 * p,
            p > 0,
    ;
    lemma_small_mod(q, 256);
}

/// Decoding the encoding of a value in a length class that can carry it gives
/// back that class and that value.
pub proof fn lemma_varint_round_trip(length: u8, value: u64)
    requires
        is_varint_class(length as nat),
        value < varint_bound(length as nat),
    ensures
        decode_varint(encode_varint(length as nat, value as nat)) == Some(
            QUICInteger { length, value },
        ),
{
    let l = length as nat;
    let v = value as nat;
    let b = be_bytes(v, l);
    let e = encode_varint(l, v);
    lemma_varint_first_byte(l, v);
    let b0 = b[0];
    let sel = class_selector(l);
    assert(e[0] == sel * 64 + b0);
    assert(e[0] / 64 == sel && e[0] % 64 == b0) by (nonlinear_arith)
        requires
            e[0] == sel * 64 + b0,
            b0 < 64,
            sel < 4,
    ;
    assert(varint_class(e[0]) == l);
    assert(seq![(e[0] % 64) as u8] + e.subrange(1, l as int) =~= b);
    lemma_be_bytes_value(v, l);
    lemma_pow256_positive((l - 1) as nat);
    assert(pow256(l) == 256 * pow256((l - 1) as nat));
    lemma_small_mod(v, pow256(l));
}

/// What a variable-length integer converts to when its value fits the target
/// width and its encoding is no longer than `max_length` bytes.
pub open spec fn narrowed(q: QUICInteger, max_length: nat, limit: nat) -> Result<u64, ()> {
    if q.length as nat <= max_length && q.value as nat <= limit {
        Ok(q.value)
    } else {
        Err(())
    }
}

impl<'a> TryFrom<&'a [u8]> for QUICInteger {
    type Error = ();

    fn try_from(octets: &'a [u8]) -> (r: Result<QUICInteger, ()>) {
        QUICInteger::parse(octets)
    }
}

impl<'a> vstd::std_specs::convert::TryFromSpecImpl<&'a [u8]> for QUICInteger {
    open spec fn obeys_try_from_spec() -> bool {
        true
    }

    open spec fn try_from_spec(octets: &'a [u8]) -> Result<QUICInteger, ()> {
        match decode_varint(octets@) {
            Some(q) => Ok(q),
            None => Err(()),
        }
    }
}

impl From<u8> for QUICInteger {
    fn from(value: u8) -> (r: QUICInteger) {
        QUICInteger { length: 1, value: value as u64 }
    }
}

impl vstd::std_specs::convert::FromSpecImpl<u8> for QUICInteger {
    open spec fn obeys_from_spec() -> bool {
        true
    }

    open spec fn from_spec(value: u8) -> QUICInteger {
        QUICInteger { length: 1, value: value as u64 }
    }
}

impl From<u16> for QUICInteger {
    fn from(value: u16) -> (r: QUICInteger) {
        QUICInteger { length: 2, value: value as u64 }
    }
}

impl vstd::std_specs::convert::FromSpecImpl<u16> for QUICInteger {
    open spec fn obeys_from_spec() -> bool {
        true
    }

    open spec fn from_spec(value: u16) -> QUICInteger {
        QUICInteger { length: 2, value: value as u64 }
    }
}

impl From<u32> for QUICInteger {
    fn from(value: u32) -> (r: QUICInteger) {
        QUICInteger { length: 4, value: value as u64 }
    }
}

impl vstd::std_specs::convert::FromSpecImpl<u32> for QUICInteger {
    open spec fn obeys_from_spec() -> bool {
        true
    }

    open spec fn from_spec(value: u32) -> QUICInteger {
        QUICInteger { length: 4, value: value as u64 }
    }
}

impl From<u64> for QUICInteger {
    fn from(value: u64) -> (r: QUICInteger) {
        QUICInteger { length: 8, value }
    }
}

impl vstd::std_specs::convert::FromSpecImpl<u64> for QUICInteger {
    open spec fn obeys_from_spec() -> bool {
        true
    }

    open spec fn from_spec(value: u64) -> QUICInteger {
        QUICInteger { length: 8, value }
    }
}

impl TryFrom<QUICInteger> for u8 {
    type Error = ();

    fn try_from(q: QUICInteger) -> (r: Result<u8, ()>) {
        if q.length != 1 || q.value > 0xff {
            Err(())
        } else {
            Ok(q.value as u8)
        }
    }
}

impl vstd::std_specs::convert::TryFromSpecImpl<QUICInteger> for u8 {
    open spec fn obeys_try_from_spec() -> bool {
        true
    }

    open spec fn try_from_spec(q: QUICInteger) -> Result<u8, ()> {
        if q.length != 1 || q.value > 0xff {
            Err(())
        } else {
            Ok(q.value as u8)
        }
    }
}

impl TryFrom<QUICInteger> for u16 {
    type Error = ();

    fn try_from(q: QUICInteger) -> (r: Result<u16, ()>) {
        if q.length > 2 || q.value > 0xffff {
            Err(())
        } else {
            Ok(q.value as u16)
        }
    }
}

impl vstd::std_specs::convert::TryFromSpecImpl<QUICInteger> for u16 {
    open spec fn obeys_try_from_spec() -> bool {
        true
    }

    open spec fn try_from_spec(q: QUICInteger) -> Result<u16, ()> {
        if q.length > 2 || q.value > 0xffff {
            Err(())
        } else {
            Ok(q.value as u16)
        }
    }
}

impl TryFrom<QUICInteger> for u32 {
    type Error = ();

    fn try_from(q: QUICInteger) -> (r: Result<u32, ()>) {
        if q.length > 4 || q.value > 0xffff_ffff {
            Err(())
        } else {
            Ok(q.value as u32)
        }
    }
}

impl vstd::std_specs::convert::TryFromSpecImpl<QUICInteger> for u32 {
    open spec fn obeys_try_from_spec() -> bool {
        true
    }

    open spec fn try_from_spec(q: QUICInteger) -> Result<u32, ()> {
        if q.length > 4 || q.value > 0xffff_ffff {
            Err(())
        } else {
            Ok(q.value as u32)
        }
    }
}

impl TryFrom<QUICInteger> for u64 {
    type Error = ();

    fn try_from(q: QUICInteger) -> (r: Result<u64, ()>) {
        if q.length > 8 {
            Err(())
        } else {
            Ok(q.value)
        }
    }
}

impl vstd::std_specs::convert::TryFromSpecImpl<QUICInteger> for u64 {
    open spec fn obeys_try_from_spec() -> bool {
        true
    }

    open spec fn try_from_spec(q: QUICInteger) -> Result<u64, ()> {
        if q.length > 8 {
            Err(())
        } else {
            Ok(q.value)
        }
    }
}

/// Decoding from raw bytes.
pub trait FromBinary: Sized {
    type Error;

    fn from_binary(bytes: &[u8]) -> Result<Self, Self::Error>;
}

/// The payload of an Initial packet, before decryption.
#[derive(Debug, Clone, PartialEq)]
pub struct Initial {
    pub token_len: QUICInteger,
    pub token: Vec<u8>,
    pub length: QUICInteger,
    pub packet_num: QUICInteger,
    pub payload: Vec<u8>,
}

/// The fields of an Initial packet laid out in `b`: a token length, a token of
/// that many bytes, a length, a packet number (all three variable-length
/// integers), and the rest as payload. `None` when `b` holds fewer than two
/// bytes or runs out before the packet number ends.
pub open spec fn parse_initial(b: Seq<u8>) -> Option<
    (QUICInteger, Seq<u8>, QUICInteger, QUICInteger, Seq<u8>),
> {
    if b.len() < 2 {
        None
    } else {
        match decode_varint(b) {
            None => None,
            Some(t) => {
                let a = t.length + t.value;
                if a > b.len() {
                    None
                } else {
                    match decode_varint(b.subrange(a, b.len() as int)) {
                        None => None,
                        Some(l) => {
                            let c = a + l.length;
                            match decode_varint(b.subrange(c, b.len() as int)) {
                                None => None,
                                Some(p) => Some(
                                    (
                                        t,
                                        b.subrange(t.length as int, a),
                                        l,
                                        p,
                                        b.subrange(c + p.length, b.len() as int),
                                    ),
                                ),
                            }
                        },
                    }
                }
            },
        }
    }
}

/// Decodes the variable-length integer that starts at `at` in `bytes`.
fn varint_at(bytes: &[u8], at: usize) -> (r: Result<QUICInteger, ()>)
    requires
        at <= bytes@.len(),
    ensures
        r == match decode_varint(bytes@.subrange(at as int, bytes@.len() as int)) {
            Some(q) => Ok::<QUICInteger, ()>(q),
            None => Err(()),
        },
        r matches Ok(q) ==> at + q.length <= bytes@.len(),
{
    let rest = vstd::slice::slice_subrange(bytes, at, bytes.len());
    QUICInteger::parse(rest)
}

impl FromBinary for Initial {
    type Error = ();

    fn from_binary(bytes: &[u8]) -> (r: Result<Initial, ()>)
        ensures
            match parse_initial(bytes@) {
                Some((t, token, l, p, payload)) => r matches Ok(i) && i.token_len == t
                    && i.token@ == token && i.length == l && i.packet_num == p && i.payload@
                    == payload,
                None => r is Err,
            },
    {
        let len = bytes.len();
        if len < 2 {
            return Err(());
        }
        let token_len = varint_at(bytes, 0)?;
        assert(bytes@.subrange(0, len as int) =~= bytes@);
        let start = token_len.length as usize;
        if token_len.value > (len - start) as u64 {
            return Err(());
        }
        let end = start + token_len.value as usize;
        let token = copy_range(bytes, start, end);
        let length = varint_at(bytes, end)?;
        let c = end + length.length as usize;
        let packet_num = varint_at(bytes, c)?;
        let rest = c + packet_num.length as usize;
        let payload = copy_range(bytes, rest, len);
        Ok(Initial { token_len, token, length, packet_num, payload })
    }
}

/// A QUIC long header: the bit fields of the first byte, the version, both
/// length-prefixed connection IDs, and what follows as payload.
#[derive(Debug, Clone, PartialEq)]
pub struct QUIC {
    pub header_form: u8,
    pub fixed_bit: u8,
    pub packet_type: u8,
    pub reserved: u8,
    pub packet_num_len: u8,
    pub version: u32,
    pub dst_connection_id_len: u8,
    pub dst_connection_id: Vec<u8>,
    pub src_connection_id_len: u8,
    pub src_connection_id: Vec<u8>,
    pub payload: Vec<u8>,
}

/// Whether `b` holds a whole long header: seven fixed bytes and both connection IDs.
pub open spec fn long_header_fits(b: Seq<u8>) -> bool {
    b.len() >= 7 && b.len() >= 7 + b[5] && b.len() >= 7 + b[5] + b[6 + b[5]]
}

impl QUIC {
    /// Whether this header holds exactly the fields laid out in `b`.
    pub open spec fn decodes(&self, b: Seq<u8>) -> bool {
        let d = b[5] as int;
        let s = b[6 + d] as int;
        &&& self.header_form == b[0] / 128
        &&& self.fixed_bit == (b[0] / 64) % 2
        &&& self.packet_type == (b[0] / 16) % 4
        &&& self.reserved == (b[0] / 4) % 4
        &&& self.packet_num_len == b[0] % 4
        &&& self.version == be_value(b.subrange(1, 5))
        &&& self.dst_connection_id_len == b[5]
        &&& self.dst_connection_id@ == b.subrange(6, 6 + d)
        &&& self.src_connection_id_len == b[6 + d]
        &&& self.src_connection_id@ == b.subrange(7 + d, 7 + d + s)
        &&& self.payload@ == b.subrange(7 + d + s, b.len() as int)
    }

    /// Decodes a long header; `None` when `bytes` stops before the source connection ID ends.
    pub fn parse(bytes: &[u8]) -> (r: Option<QUIC>)
        ensures
            r is Some <==> long_header_fits(bytes@),
            r matches Some(q) ==> q.decodes(bytes@),
    {
        let len = bytes.len();
        if len < 7 {
            return None;
        }
        let d = bytes[5] as usize;
        if len < 7 + d {
            return None;
        }
        let s = bytes[6 + d] as usize;
        if len < 7 + d + s {
            return None;
        }
        let first = bytes[0];
        let version = read_be(bytes, 1, 4);
        proof {
            lemma_pow256_small();
            lemma_be_value_bound(bytes@.subrange(1, 5));
        }
        Some(
            QUIC {
                header_form: first / 128,
                fixed_bit: (first / 64) % 2,
                packet_type: (first / 16) % 4,
                reserved: (first / 4) % 4,
                packet_num_len: first % 4,
                version: version as u32,
                dst_connection_id_len: bytes[5],
                dst_connection_id: copy_range(bytes, 6, 6 + d),
                src_connection_id_len: bytes[6 + d],
                src_connection_id: copy_range(bytes, 7 + d, 7 + d + s),
                payload: copy_range(bytes, 7 + d + s, len),
            },
        )
    }
}

/// A CRYPTO frame: frame type, offset and length (variable-length integers)
/// and the data after them.
#[derive(Debug, Clone, PartialEq)]
pub struct Crypto {
    pub frame_type: QUICInteger,
    pub offset: QUICInteger,
    pub length: QUICInteger,
    pub payload: Vec<u8>,
}

/// The fields of a CRYPTO frame laid out in `b`: three variable-length integers
/// in a row, then the rest.
pub open spec fn parse_crypto(b: Seq<u8>) -> Option<(QUICInteger, QUICInteger, QUICInteger, Seq<u8>)> {
    match decode_varint(b) {
        None => None,
        Some(f) => match decode_varint(b.subrange(f.length as int, b.len() as int)) {
            None => None,
            Some(o) => {
                let a = f.length + o.length;
                match decode_varint(b.subrange(a, b.len() as int)) {
                    None => None,
                    Some(l) => Some((f, o, l, b.subrange(a + l.length, b.len() as int))),
                }
            },
        },
    }
}

impl Crypto {
    /// Decodes a CRYPTO frame.
    pub fn parse(octets: &[u8]) -> (r: Result<Crypto, ()>)
        ensures
            match parse_crypto(octets@) {
                Some((f, o, l, payload)) => r matches Ok(c) && c.frame_type == f && c.offset == o
                    && c.length == l && c.payload@ == payload,
                None => r is Err,
            },
    {
        let len = octets.len();
        let frame_type = varint_at(octets, 0)?;
        assert(octets@.subrange(0, len as int) =~= octets@);
        let a = frame_type.length as usize;
        let offset = varint_at(octets, a)?;
        let b = a + offset.length as usize;
        let length = varint_at(octets, b)?;
        let c = b + length.length as usize;
        let payload = copy_range(octets, c, len);
        Ok(Crypto { frame_type, offset, length, payload })
    }
}

/// The initial salt of each supported QUIC version (1, and drafts 27 to 29).
pub open spec fn quic_salt(version: u32) -> Option<Seq<u8>> {
    if version == 0x1 {
        Some(
            seq![
                0x38u8, 0x76, 0x2c, 0xf7, 0xf5, 0x59, 0x34, 0xb3, 0x4d, 0x17, 0x9a, 0xe6, 0xa4,
                0xc8, 0x0c, 0xad, 0xcc, 0xbb, 0x7f, 0x0a,
            ],
        )
    } else if version == 0xff00001d {
        Some(
            seq![
                0xafu8, 0xbf, 0xec, 0x28, 0x99, 0x93, 0xd2, 0x4c, 0x9e, 0x97, 0x86, 0xf1, 0x9c,
                0x61, 0x11, 0xe0, 0x43, 0x90, 0xa8, 0x99,
            ],
        )
    } else if version == 0xff00001b || version == 0xff00001c {
        Some(
            seq![
                0xc3u8, 0xee, 0xf7, 0x12, 0xc7, 0x2e, 0xbb, 0x5a, 0x11, 0xa7, 0xd2, 0x43, 0x2b,
                0xb4, 0x63, 0x65, 0xbe, 0xf9, 0xf5, 0x02,
            ],
        )
    } else {
        None
    }
}

/// The initial salt for `version`; `None` for a version without one.
pub fn get_quic_salt(version: u32) -> (r: Option<[u8; 20]>)
    ensures
        r is Some <==> quic_salt(version) is Some,
        r matches Some(salt) ==> quic_salt(version) == Some(salt@),
{
    if version == 0x1 {
        let salt: [u8; 20] = [
            0x38, 0x76, 0x2c, 0xf7, 0xf5, 0x59, 0x34, 0xb3, 0x4d, 0x17, 0x9a, 0xe6, 0xa4, 0xc8,
            0x0c, 0xad, 0xcc, 0xbb, 0x7f, 0x0a,
        ];
        assert(salt@ =~= quic_salt(version).unwrap());
        Some(salt)
    } else if version == 0xff00001d {
        let salt: [u8; 20] = [
            0xaf, 0xbf, 0xec, 0x28, 0x99, 0x93, 0xd2, 0x4c, 0x9e, 0x97, 0x86, 0xf1, 0x9c, 0x61,
            0x11, 0xe0, 0x43, 0x90, 0xa8, 0x99,
        ];
        assert(salt@ =~= quic_salt(version).unwrap());
        Some(salt)
    } else if version == 0xff00001b || version == 0xff00001c {
        let salt: [u8; 20] = [
            0xc3, 0xee, 0xf7, 0x12, 0xc7, 0x2e, 0xbb, 0x5a, 0x11, 0xa7, 0xd2, 0x43, 0x2b, 0xb4,
            0x63, 0x65, 0xbe, 0xf9, 0xf5, 0x02,
        ];
        assert(salt@ =~= quic_salt(version).unwrap());
        Some(salt)
    } else {
        None
    }
}

} // verus!
