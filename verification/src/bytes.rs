//! Byte helpers and lowercase hexadecimal text.
use vstd::prelude::*;
use vstd::string::*;

verus! {

/// Appends every byte of `src` to `out`.
pub fn append_bytes(out: &mut Vec<u8>, src: &[u8])
    ensures
        final(out)@ == old(out)@ + src@,
{
    let ghost start = out@;
    let n = src.len();
    let mut i: usize = 0;
    while i < n
        invariant
            n == src@.len(),
            i <= n,
            out@ == start + src@.subrange(0, i as int),
        decreases n - i,
    {
        out.push(src[i]);
        i = i + 1;
        assert(out@ =~= start + src@.subrange(0, i as int));
    }
    assert(src@.subrange(0, n as int) =~= src@);
}

/// A fresh vector holding the bytes of `src`.
pub fn bytes_to_vec(src: &[u8]) -> (r: Vec<u8>)
    ensures
        r@ == src@,
{
    let mut out: Vec<u8> = Vec::new();
    append_bytes(&mut out, src);
    assert(out@ =~= src@);
    out
}

/// The 32 bytes of `src` as an array.
pub fn to_array32(src: &[u8]) -> (r: [u8; 32])
    requires
        src@.len() == 32,
    ensures
        r@ == src@,
{
    let mut a: [u8; 32] = [0u8; 32];
    let mut i: usize = 0;
    while i < 32
        invariant
            src@.len() == 32,
            i <= 32,
            forall|j: int| 0 <= j < i ==> a@[j] == src@[j],
        decreases 32 - i,
    {
        a[i] = src[i];
        i = i + 1;
    }
    assert(a@ =~= src@);
    a
}

/// The 12 bytes of `src` as an array.
pub fn to_array12(src: &[u8]) -> (r: [u8; 12])
    requires
        src@.len() == 12,
    ensures
        r@ == src@,
{
    let mut a: [u8; 12] = [0u8; 12];
    let mut i: usize = 0;
    while i < 12
        invariant
            src@.len() == 12,
            i <= 12,
            forall|j: int| 0 <= j < i ==> a@[j] == src@[j],
        decreases 12 - i,
    {
        a[i] = src[i];
        i = i + 1;
    }
    assert(a@ =~= src@);
    a
}

/// The 64 bytes of `src` as an array.
pub fn to_array64(src: &[u8]) -> (r: [u8; 64])
    requires
        src@.len() == 64,
    ensures
        r@ == src@,
{
    let mut a: [u8; 64] = [0u8; 64];
    let mut i: usize = 0;
    while i < 64
        invariant
            src@.len() == 64,
            i <= 64,
            forall|j: int| 0 <= j < i ==> a@[j] == src@[j],
        decreases 64 - i,
    {
        a[i] = src[i];
        i = i + 1;
    }
    assert(a@ =~= src@);
    a
}

/// Big-endian bytes of a 32-bit integer.
pub open spec fn be_bytes_u32(n: u32) -> Seq<u8> {
    seq![(n / 16777216) as u8, ((n / 65536) % 256) as u8, ((n / 256) % 256) as u8, (n % 256) as u8]
}

/// Big-endian bytes of `n`.
pub fn u32_to_be_bytes(n: u32) -> (r: [u8; 4])
    ensures
        r@ == be_bytes_u32(n),
{
    let a: [u8; 4] = [(n / 16777216) as u8, ((n / 65536) % 256) as u8, ((n / 256) % 256) as u8, (n % 256) as u8];
    assert(a@ =~= be_bytes_u32(n));
    a
}

/// The lowercase hexadecimal digit of a value below 16.
pub open spec fn hex_digit(v: int) -> char {
    if v < 10 {
        (48 + v) as char
    } else {
        (87 + v) as char
    }
}

/// Lowercase hexadecimal text of a byte string: two digits per byte, high half first.
pub open spec fn hex_encode_spec(b: Seq<u8>) -> Seq<char> {
    Seq::new(
        2 * b.len(),
        |i: int|
            if i % 2 == 0 {
                hex_digit(b[i / 2] as int / 16)
            } else {
                hex_digit(b[i / 2] as int % 16)
            },
    )
}

/// The value of a hexadecimal digit byte, either case; `None` for any other byte.
pub open spec fn hex_value(c: u8) -> Option<u8> {
    if 48 <= c <= 57 {
        Some((c - 48) as u8)
    } else if 97 <= c <= 102 {
        Some((c - 87) as u8)
    } else if 65 <= c <= 70 {
        Some((c - 55) as u8)
    } else {
        None
    }
}

/// Bytes written as hexadecimal text: `None` for an odd length or a byte that is no hex digit.
pub open spec fn hex_decode_spec(t: Seq<u8>) -> Option<Seq<u8>> {
    if t.len() % 2 != 0 {
        None
    } else if exists|i: int| 0 <= i < t.len() && (#[trigger] hex_value(t[i])) is None {
        None
    } else {
        Some(
            Seq::new(
                t.len() / 2,
                |i: int| (hex_value(t[2 * i])->0 * 16 + hex_value(t[2 * i + 1])->0) as u8,
            ),
        )
    }
}

fn hex_digit_str(v: u8) -> (r: &'static str)
    requires
        v < 16,
    ensures
        r@ == seq![hex_digit(v as int)],
{
    if v == 0 {
        proof { reveal_strlit("0"); }
        "0"
    } else if v == 1 {
        proof { reveal_strlit("1"); }
        "1"
    } else if v == 2 {
        proof { reveal_strlit("2"); }
        "2"
    } else if v == 3 {
        proof { reveal_strlit("3"); }
        "3"
    } else if v == 4 {
        proof { reveal_strlit("4"); }
        "4"
    } else if v == 5 {
        proof { reveal_strlit("5"); }
        "5"
    } else if v == 6 {
        proof { reveal_strlit("6"); }
        "6"
    } else if v == 7 {
        proof { reveal_strlit("7"); }
        "7"
    } else if v == 8 {
        proof { reveal_strlit("8"); }
        "8"
    } else if v == 9 {
        proof { reveal_strlit("9"); }
        "9"
    } else if v == 10 {
        proof { reveal_strlit("a"); }
        "a"
    } else if v == 11 {
        proof { reveal_strlit("b"); }
        "b"
    } else if v == 12 {
        proof { reveal_strlit("c"); }
        "c"
    } else if v == 13 {
        proof { reveal_strlit("d"); }
        "d"
    } else if v == 14 {
        proof { reveal_strlit("e"); }
        "e"
    } else {
        proof { reveal_strlit("f"); }
        "f"
    }
}

/// Lowercase hexadecimal text of `data`.
pub fn hex_encode(data: &[u8]) -> (r: String)
    ensures
        r@ == hex_encode_spec(data@),
{
    let mut s = String::new();
    let n = data.len();
    let mut i: usize = 0;
    while i < n
        invariant
            n == data@.len(),
            i <= n,
            s@ == hex_encode_spec(data@.subrange(0, i as int)),
        decreases n - i,
    {
        let b = data[i];
        let ghost before = s@;
        s.append(hex_digit_str(b / 16));
        s.append(hex_digit_str(b % 16));
        i = i + 1;
        assert(s@ =~= hex_encode_spec(data@.subrange(0, i as int))) by {
            let t = hex_encode_spec(data@.subrange(0, i as int));
            assert(t.len() == before.len() + 2);
            assert forall|k: int| 0 <= k < t.len() implies #[trigger] s@[k] == t[k] by {
                if k < before.len() {
                    assert(data@.subrange(0, i as int)[k / 2] == data@.subrange(0, i - 1)[k / 2]);
                }
            }
        }
    }
    assert(data@.subrange(0, n as int) =~= data@);
    s
}

/// Decodes hexadecimal text (either case) into bytes; `None` for an odd length or a non-hex character.
pub fn hex_decode(text: &str) -> (r: Option<Vec<u8>>)
    ensures
        match r {
            Some(v) => hex_decode_spec(text.spec_bytes()) == Some(v@),
            None => hex_decode_spec(text.spec_bytes()) is None,
        },
{
    let t = text.as_bytes();
    let n = t.len();
    if n % 2 != 0 {
        return None;
    }
    let mut out: Vec<u8> = Vec::new();
    let mut i: usize = 0;
    while i < n / 2
        invariant
            n == t@.len(),
            n % 2 == 0,
            t@ == text.spec_bytes(),
            i <= n / 2,
            out@.len() == i,
            forall|j: int| 0 <= j < 2 * i ==> (#[trigger] hex_value(t@[j])) is Some,
            forall|j: int|
                0 <= j < i ==> #[trigger] out@[j] == (hex_value(t@[2 * j])->0 * 16 + hex_value(
                    t@[2 * j + 1],
                )->0) as u8,
        decreases n / 2 - i,
    {
        let hi = hex_byte_value(t[2 * i]);
        let lo = hex_byte_value(t[2 * i + 1]);
        match (hi, lo) {
            (Some(h), Some(l)) => {
                out.push(h * 16 + l);
            },
            _ => {
                assert(hex_value(t@[2 * i as int]) is None || hex_value(t@[2 * i + 1]) is None);
                return None;
            },
        }
        i = i + 1;
    }
    assert(out@ =~= hex_decode_spec(t@)->0);
    Some(out)
}

fn hex_byte_value(c: u8) -> (r: Option<u8>)
    ensures
        r == hex_value(c),
        r matches Some(v) ==> v < 16,
{
    if 48 <= c && c <= 57 {
        Some(c - 48)
    } else if 97 <= c && c <= 102 {
        Some(c - 87)
    } else if 65 <= c && c <= 70 {
        Some(c - 55)
    } else {
        None
    }
}

/// Decoding the hexadecimal text of any byte string gives that byte string back.
pub proof fn lemma_hex_roundtrip(b: Seq<u8>)
    ensures
        hex_decode_spec(vstd::utf8::encode_utf8(hex_encode_spec(b))) == Some(b),
{
    let cs = hex_encode_spec(b);
    let t = vstd::utf8::encode_utf8(cs);
    vstd::utf8::is_ascii_chars_encode_utf8(cs);
    assert forall|i: int| 0 <= i < t.len() implies (#[trigger] hex_value(t[i])) is Some by {
        assert(cs[i] as u8 == t[i]);
    }
    let d = Seq::new(
        t.len() / 2,
        |i: int| (hex_value(t[2 * i])->0 * 16 + hex_value(t[2 * i + 1])->0) as u8,
    );
    assert forall|i: int| 0 <= i < b.len() implies d[i] == b[i] by {
        assert(cs[2 * i] as u8 == t[2 * i]);
        assert(cs[2 * i + 1] as u8 == t[2 * i + 1]);
        assert((2 * i) % 2 == 0);
        assert((2 * i + 1) % 2 == 1);
        assert((2 * i) / 2 == i);
        assert((2 * i + 1) / 2 == i);
    }
    assert(d =~= b);
}

} // verus!
