//! Encodings: how one symbol becomes bytes, and how wide it is.

use vstd::prelude::*;
use vstd::utf8::*;

verus! {

/// The encoding of the output.
#[derive(Debug, Clone, Copy, PartialEq, Eq, Structural)]
pub enum Encoding {
    /// One byte per symbol: the low eight bits of its code.
    RawByte,
    /// One to four bytes per symbol.
    Utf8,
    /// Two or four bytes per symbol, each 16-bit unit least significant byte first.
    Utf16LE,
    /// Four bytes per symbol, least significant byte first.
    Utf32LE,
    /// A stream of items, one per line; units are items, not bytes.
    ScalarStream,
}

/// Number of symbols that one 64-bit draw yields on the batched raw-byte path.
pub const BATCH: usize = 8;

impl Encoding {
    /// The smallest number of units that is never split between two buffers.
    pub open spec fn unit(self) -> int {
        match self {
            Encoding::RawByte => 1,
            Encoding::Utf8 => 1,
            Encoding::Utf16LE => 2,
            Encoding::Utf32LE => 4,
            Encoding::ScalarStream => 1,
        }
    }

    /// The granularity at which work is dealt to workers: the batch width for
    /// raw bytes, the atomic unit otherwise.
    pub open spec fn deal_unit(self) -> int {
        if self == Encoding::RawByte {
            BATCH as int
        } else {
            self.unit()
        }
    }

    /// Whether symbols of an alphabet are encoded (as opposed to items rendered).
    pub open spec fn is_text(self) -> bool {
        self != Encoding::ScalarStream
    }

    pub fn atomic_unit(&self) -> (r: usize)
        ensures
            r == self.unit(),
    {
        match self {
            Encoding::RawByte => 1,
            Encoding::Utf8 => 1,
            Encoding::Utf16LE => 2,
            Encoding::Utf32LE => 4,
            Encoding::ScalarStream => 1,
        }
    }

    pub fn dealing_unit(&self) -> (r: usize)
        ensures
            r == self.deal_unit(),
    {
        match self {
            Encoding::RawByte => BATCH,
            _ => self.atomic_unit(),
        }
    }
}

/// The byte that stands for a symbol in raw-byte output.
pub open spec fn raw_byte(c: char) -> u8 {
    (c as u32 % 256) as u8
}

/// A 16-bit unit, least significant byte first.
pub open spec fn le16(u: int) -> Seq<u8> {
    seq![(u % 256) as u8, (u / 256 % 256) as u8]
}

/// A 32-bit value, least significant byte first.
pub open spec fn le32(v: int) -> Seq<u8> {
    seq![
        (v % 256) as u8,
        (v / 256 % 256) as u8,
        (v / 65536 % 256) as u8,
        (v / 16777216 % 256) as u8,
    ]
}

/// The high (first) surrogate of a code above the basic plane.
pub open spec fn high_surrogate(v: int) -> int {
    0xD800 + (v - 0x10000) / 0x400
}

/// The low (second) surrogate of a code above the basic plane.
pub open spec fn low_surrogate(v: int) -> int {
    0xDC00 + (v - 0x10000) % 0x400
}

/// UTF-16, little endian, of one symbol.
pub open spec fn utf16le_bytes(c: char) -> Seq<u8> {
    let v = c as u32 as int;
    if v < 0x10000 {
        le16(v)
    } else {
        le16(high_surrogate(v)) + le16(low_surrogate(v))
    }
}

/// The bytes of one symbol. A scalar stream has no symbols to encode.
pub open spec fn symbol_bytes(enc: Encoding, c: char) -> Seq<u8> {
    match enc {
        Encoding::RawByte => seq![raw_byte(c)],
        Encoding::Utf8 => encode_scalar(c as u32),
        Encoding::Utf16LE => utf16le_bytes(c),
        Encoding::Utf32LE => le32(c as u32 as int),
        Encoding::ScalarStream => Seq::empty(),
    }
}

/// The number of bytes of one symbol.
pub open spec fn symbol_width(enc: Encoding, c: char) -> int {
    let v = c as u32;
    match enc {
        Encoding::RawByte => 1,
        Encoding::Utf8 => if v < 0x80 {
            1
        } else if v < 0x800 {
            2
        } else if v < 0x10000 {
            3
        } else {
            4
        },
        Encoding::Utf16LE => if v < 0x10000 {
            2
        } else {
            4
        },
        Encoding::Utf32LE => 4,
        Encoding::ScalarStream => 0,
    }
}

/// The bytes of a run of symbols, one after the other.
pub open spec fn encode_all(enc: Encoding, syms: Seq<char>) -> Seq<u8>
    decreases syms.len(),
{
    if syms.len() == 0 {
        Seq::empty()
    } else {
        encode_all(enc, syms.drop_last()) + symbol_bytes(enc, syms.last())
    }
}

/// A symbol's encoding is as long as its width, and the width of a text
/// symbol is a positive multiple of the encoding's atomic unit, at most four.
pub proof fn lemma_symbol_width(enc: Encoding, c: char)
    ensures
        symbol_bytes(enc, c).len() == symbol_width(enc, c),
        enc.is_text() ==> enc.unit() <= symbol_width(enc, c) <= 4,
        symbol_width(enc, c) % enc.unit() == 0,
{
    char_is_scalar(c);
}

/// The number of bytes that `c` takes in `enc`.
pub fn symbol_len(enc: Encoding, c: char) -> (n: usize)
    ensures
        n == symbol_width(enc, c),
{
    let v: u32 = c as u32;
    match enc {
        Encoding::RawByte => 1,
        Encoding::Utf8 => {
            if v < 0x80 {
                1
            } else if v < 0x800 {
                2
            } else if v < 0x10000 {
                3
            } else {
                4
            }
        },
        Encoding::Utf16LE => {
            if v < 0x10000 {
                2
            } else {
                4
            }
        },
        Encoding::Utf32LE => 4,
        Encoding::ScalarStream => 0,
    }
}

fn push_le16(u: u32, buf: &mut Vec<u8>)
    requires
        u < 0x10000,
    ensures
        final(buf)@ == old(buf)@ + le16(u as int),
{
    buf.push((u % 256) as u8);
    buf.push((u / 256) as u8);
    assert(final(buf)@ =~= old(buf)@ + le16(u as int));
}

fn push_utf8(v: u32, buf: &mut Vec<u8>)
    requires
        is_scalar(v),
    ensures
        final(buf)@ == old(buf)@ + encode_scalar(v),
{
    if v < 0x80 {
        assert(v & 0x7F < 0x100) by (bit_vector);
        buf.push((v & 0x7F) as u8);
    } else if v < 0x800 {
        assert((v >> 6) & 0x1F < 0x100 && v & 0x3F < 0x100) by (bit_vector);
        buf.push(0xC0 | ((v >> 6) & 0x1F) as u8);
        buf.push(0x80 | (v & 0x3F) as u8);
    } else if v < 0x10000 {
        assert((v >> 12) & 0x0F < 0x100 && (v >> 6) & 0x3F < 0x100 && v & 0x3F < 0x100)
            by (bit_vector);
        buf.push(0xE0 | ((v >> 12) & 0x0F) as u8);
        buf.push(0x80 | ((v >> 6) & 0x3F) as u8);
        buf.push(0x80 | (v & 0x3F) as u8);
    } else {
        assert((v >> 18) & 0x7 < 0x100 && (v >> 12) & 0x3F < 0x100 && (v >> 6) & 0x3F < 0x100 && v
            & 0x3F < 0x100) by (bit_vector);
        buf.push(0xF0 | ((v >> 18) & 0x7) as u8);
        buf.push(0x80 | ((v >> 12) & 0x3F) as u8);
        buf.push(0x80 | ((v >> 6) & 0x3F) as u8);
        buf.push(0x80 | (v & 0x3F) as u8);
    }
    assert(final(buf)@ =~= old(buf)@ + encode_scalar(v));
}

/// Appends the bytes of `c` in `enc` to `buf`.
pub fn push_symbol(enc: Encoding, c: char, buf: &mut Vec<u8>)
    ensures
        final(buf)@ == old(buf)@ + symbol_bytes(enc, c),
{
    let v: u32 = c as u32;
    proof {
        char_is_scalar(c);
    }
    match enc {
        Encoding::RawByte => {
            buf.push((v % 256) as u8);
        },
        Encoding::Utf8 => {
            push_utf8(v, buf);
        },
        Encoding::Utf16LE => {
            if v < 0x10000 {
                push_le16(v, buf);
            } else {
                let w: u32 = v - 0x10000;
                push_le16(0xD800 + w / 0x400, buf);
                push_le16(0xDC00 + w % 0x400, buf);
            }
        },
        Encoding::Utf32LE => {
            buf.push((v % 256) as u8);
            buf.push((v / 256 % 256) as u8);
            buf.push((v / 65536 % 256) as u8);
            buf.push((v / 16777216 % 256) as u8);
        },
        Encoding::ScalarStream => {},
    }
    assert(final(buf)@ =~= old(buf)@ + symbol_bytes(enc, c));
}

/// Appends `c` if its bytes still fit under `budget`, and says whether it did.
/// A symbol that does not fit leaves the buffer as it was.
pub fn place_symbol(enc: Encoding, c: char, budget: usize, buf: &mut Vec<u8>) -> (placed: bool)
    requires
        old(buf)@.len() <= budget,
    ensures
        placed == (old(buf)@.len() + symbol_width(enc, c) <= budget),
        placed ==> final(buf)@ == old(buf)@ + symbol_bytes(enc, c),
        !placed ==> final(buf)@ == old(buf)@,
{
    let width: usize = symbol_len(enc, c);
    if width <= budget - buf.len() {
        push_symbol(enc, c, buf);
        true
    } else {
        false
    }
}

/// Every symbol of `syms` is a symbol of `alphabet`.
pub open spec fn members(syms: Seq<char>, alphabet: Seq<char>) -> bool {
    forall|i: int| 0 <= i < syms.len() ==> alphabet.contains(#[trigger] syms[i])
}

/// `bytes` is a run of whole symbols of `alphabet`: nothing before, between
/// or after them, and no symbol cut short.
pub open spec fn whole(enc: Encoding, alphabet: Seq<char>, bytes: Seq<u8>) -> bool {
    exists|syms: Seq<char>| #[trigger] members(syms, alphabet) && bytes == encode_all(enc, syms)
}

/// All symbols of `alphabet` are equally wide in `enc`.
pub open spec fn uniform(enc: Encoding, alphabet: Seq<char>) -> bool {
    forall|i: int|
        0 <= i < alphabet.len() ==> symbol_width(enc, #[trigger] alphabet[i]) == symbol_width(
            enc,
            alphabet[0],
        )
}

/// In raw-byte output and in UTF-32 all symbols of any alphabet are equally
/// wide: as wide as the encoding's atomic unit.
pub proof fn lemma_fixed_width(enc: Encoding, alphabet: Seq<char>)
    requires
        enc == Encoding::RawByte || enc == Encoding::Utf32LE,
    ensures
        uniform(enc, alphabet),
        forall|c: char| symbol_width(enc, c) == enc.unit(),
{
}

/// The bytes of one more symbol follow the bytes of those before it.
pub proof fn lemma_encode_push(enc: Encoding, syms: Seq<char>, c: char)
    ensures
        encode_all(enc, syms.push(c)) == encode_all(enc, syms) + symbol_bytes(enc, c),
{
    assert(syms.push(c).drop_last() =~= syms);
}

/// The bytes of two runs, one after the other, are the bytes of the joined run.
pub proof fn lemma_encode_concat(enc: Encoding, a: Seq<char>, b: Seq<char>)
    ensures
        encode_all(enc, a + b) == encode_all(enc, a) + encode_all(enc, b),
    decreases b.len(),
{
    if b.len() == 0 {
        assert(a + b =~= a);
        assert(encode_all(enc, a) + encode_all(enc, b) =~= encode_all(enc, a));
    } else {
        lemma_encode_concat(enc, a, b.drop_last());
        assert((a + b).drop_last() =~= a + b.drop_last());
        assert((a + b).last() == b.last());
        assert(encode_all(enc, a) + (encode_all(enc, b.drop_last()) + symbol_bytes(
            enc,
            b.last(),
        )) =~= (encode_all(enc, a) + encode_all(enc, b.drop_last())) + symbol_bytes(
            enc,
            b.last(),
        ));
    }
}

/// Buffers of whole symbols may reach the output in any order: joined either
/// way they are a run of whole symbols again.
pub proof fn lemma_whole_concat(enc: Encoding, alphabet: Seq<char>, a: Seq<u8>, b: Seq<u8>)
    requires
        whole(enc, alphabet, a),
        whole(enc, alphabet, b),
    ensures
        whole(enc, alphabet, a + b),
        whole(enc, alphabet, b + a),
{
    let sa = choose|syms: Seq<char>| #[trigger]
        members(syms, alphabet) && a == encode_all(enc, syms);
    let sb = choose|syms: Seq<char>| #[trigger]
        members(syms, alphabet) && b == encode_all(enc, syms);
    lemma_encode_concat(enc, sa, sb);
    lemma_encode_concat(enc, sb, sa);
    assert(members(sa + sb, alphabet));
    assert(members(sb + sa, alphabet));
}

proof fn lemma_utf8_push(syms: Seq<char>, c: char)
    ensures
        encode_utf8(syms.push(c)) == encode_utf8(syms) + encode_scalar(c as u32),
    decreases syms.len(),
{
    if syms.len() == 0 {
        let one = syms.push(c);
        assert(one.drop_first() =~= Seq::<char>::empty());
        assert(one[0] == c);
        assert(encode_utf8(one.drop_first()) =~= Seq::<u8>::empty());
        assert(encode_utf8(one) == encode_scalar(one[0] as u32) + encode_utf8(one.drop_first()));
        assert(encode_utf8(syms.push(c)) =~= encode_scalar(c as u32));
        assert(encode_utf8(syms) + encode_scalar(c as u32) =~= encode_scalar(c as u32));
    } else {
        lemma_utf8_push(syms.drop_first(), c);
        assert(syms.push(c).drop_first() =~= syms.drop_first().push(c));
        assert(encode_utf8(syms.push(c)) =~= encode_utf8(syms) + encode_scalar(c as u32));
    }
}

/// UTF-8 output is UTF-8 as the standard defines it: valid, and decoding to
/// the symbols that were encoded.
pub proof fn lemma_utf8_decodes(syms: Seq<char>)
    ensures
        encode_all(Encoding::Utf8, syms) == encode_utf8(syms),
        valid_utf8(encode_all(Encoding::Utf8, syms)),
        decode_utf8(encode_all(Encoding::Utf8, syms)) == syms,
    decreases syms.len(),
{
    if syms.len() > 0 {
        lemma_utf8_decodes(syms.drop_last());
        lemma_utf8_push(syms.drop_last(), syms.last());
        assert(syms.drop_last().push(syms.last()) =~= syms);
    }
    encode_utf8_valid_utf8(syms);
    encode_utf8_decode_utf8(syms);
}

/// A run of whole UTF-8 symbols of an alphabet is valid UTF-8, and every
/// symbol it decodes to is a symbol of the alphabet.
pub proof fn lemma_whole_utf8(alphabet: Seq<char>, bytes: Seq<u8>)
    requires
        whole(Encoding::Utf8, alphabet, bytes),
    ensures
        valid_utf8(bytes),
        members(decode_utf8(bytes), alphabet),
{
    let syms = choose|syms: Seq<char>| #[trigger]
        members(syms, alphabet) && bytes == encode_all(Encoding::Utf8, syms);
    lemma_utf8_decodes(syms);
}

/// Raw-byte output has one byte for each symbol: the symbol's raw byte.
pub proof fn lemma_raw_bytes(syms: Seq<char>)
    ensures
        encode_all(Encoding::RawByte, syms).len() == syms.len(),
        forall|k: int|
            0 <= k < syms.len() ==> #[trigger] encode_all(Encoding::RawByte, syms)[k] == raw_byte(
                syms[k],
            ),
    decreases syms.len(),
{
    if syms.len() > 0 {
        lemma_raw_bytes(syms.drop_last());
    }
}

/// A run of symbols takes at least as many bytes as it has symbols, in any
/// text encoding.
proof fn lemma_encoded_len(enc: Encoding, syms: Seq<char>)
    requires
        enc.is_text(),
    ensures
        encode_all(enc, syms).len() >= syms.len(),
    decreases syms.len(),
{
    if syms.len() > 0 {
        lemma_encoded_len(enc, syms.drop_last());
        lemma_symbol_width(enc, syms.last());
    }
}

/// Two 16-bit units with the same bytes are the same unit.
proof fn lemma_le16_unique(u: int, v: int)
    requires
        0 <= u < 0x10000,
        0 <= v < 0x10000,
        le16(u)[0] == le16(v)[0],
        le16(u)[1] == le16(v)[1],
    ensures
        u == v,
{
}

/// Two 32-bit values with the same bytes are the same value.
proof fn lemma_le32_unique(u: int, v: int)
    requires
        0 <= u < 0x1_0000_0000,
        0 <= v < 0x1_0000_0000,
        le32(u) == le32(v),
    ensures
        u == v,
{
    assert(le32(u)[0] == le32(v)[0]);
    assert(le32(u)[1] == le32(v)[1]);
    assert(le32(u)[2] == le32(v)[2]);
    assert(le32(u)[3] == le32(v)[3]);
}

/// The last 16-bit unit of a symbol in UTF-16: the symbol's code, or its low
/// surrogate.
spec fn last_unit(c: char) -> int {
    let v = c as u32 as int;
    if v < 0x10000 {
        v
    } else {
        low_surrogate(v)
    }
}

/// The shape of a symbol in UTF-16: one unit that is no surrogate, or a high
/// surrogate and a low one, from which the code can be had again.
proof fn lemma_utf16_shape(c: char)
    ensures
        ({
            let v = c as u32 as int;
            let b = utf16le_bytes(c);
            let n = b.len() as int;
            &&& n == symbol_width(Encoding::Utf16LE, c)
            &&& b[n - 2] == le16(last_unit(c))[0]
            &&& b[n - 1] == le16(last_unit(c))[1]
            &&& 0 <= last_unit(c) < 0x10000
            &&& (n == 2 <==> !(0xDC00 <= last_unit(c) <= 0xDFFF))
            &&& n == 4 ==> {
                &&& b[0] == le16(high_surrogate(v))[0]
                &&& b[1] == le16(high_surrogate(v))[1]
                &&& 0xD800 <= high_surrogate(v) <= 0xDBFF
                &&& v == 0x10000 + (high_surrogate(v) - 0xD800) * 0x400 + (last_unit(c) - 0xDC00)
            }
        }),
{
    char_is_scalar(c);
}

/// Two runs of bytes that end alike: what ends the one ends the other.
proof fn lemma_same_end(x: Seq<u8>, p: Seq<u8>, y: Seq<u8>, q: Seq<u8>, k: int)
    requires
        x + p == y + q,
        1 <= k <= p.len(),
        k <= q.len(),
    ensures
        p[p.len() - k] == q[q.len() - k],
{
    let all = x + p;
    assert(p[p.len() - k] == all[all.len() - k]);
    assert(q[q.len() - k] == (y + q)[all.len() - k]);
}

/// Two runs of bytes that are equal and end in equally long parts begin alike.
proof fn lemma_same_start(x: Seq<u8>, p: Seq<u8>, y: Seq<u8>, q: Seq<u8>)
    requires
        x + p == y + q,
        p.len() == q.len(),
    ensures
        x == y,
        p == q,
{
    assert(x =~= (x + p).subrange(0, x.len() as int));
    assert(y =~= (y + q).subrange(0, y.len() as int));
    assert(p =~= (x + p).subrange(x.len() as int, (x + p).len() as int));
    assert(q =~= (y + q).subrange(y.len() as int, (y + q).len() as int));
}

/// In UTF-16 the last symbol of a run can be read off its bytes: a low
/// surrogate is no symbol of its own.
proof fn lemma_last_symbol_utf16(x: Seq<u8>, c: char, y: Seq<u8>, d: char)
    requires
        x + utf16le_bytes(c) == y + utf16le_bytes(d),
    ensures
        c == d,
        x == y,
{
    let p = utf16le_bytes(c);
    let q = utf16le_bytes(d);
    lemma_utf16_shape(c);
    lemma_utf16_shape(d);
    lemma_same_end(x, p, y, q, 1);
    lemma_same_end(x, p, y, q, 2);
    lemma_le16_unique(last_unit(c), last_unit(d));
    assert(p.len() == q.len());
    if p.len() == 4 {
        lemma_same_end(x, p, y, q, 3);
        lemma_same_end(x, p, y, q, 4);
        lemma_le16_unique(high_surrogate(c as u32 as int), high_surrogate(d as u32 as int));
    }
    assert(c as u32 == d as u32);
    lemma_same_start(x, p, y, q);
}

/// In UTF-32 the last symbol of a run is its last four bytes.
proof fn lemma_last_symbol_utf32(x: Seq<u8>, c: char, y: Seq<u8>, d: char)
    requires
        x + le32(c as u32 as int) == y + le32(d as u32 as int),
    ensures
        c == d,
        x == y,
{
    lemma_same_start(x, le32(c as u32 as int), y, le32(d as u32 as int));
    lemma_le32_unique(c as u32 as int, d as u32 as int);
    assert(c as u32 == d as u32);
}

/// In UTF-16 and UTF-32 the last symbol of a run can be read off its bytes:
/// no symbol's bytes are the end of another symbol's bytes.
proof fn lemma_last_symbol(enc: Encoding, x: Seq<u8>, c: char, y: Seq<u8>, d: char)
    requires
        enc == Encoding::Utf16LE || enc == Encoding::Utf32LE,
        x + symbol_bytes(enc, c) == y + symbol_bytes(enc, d),
    ensures
        c == d,
        x == y,
{
    if enc == Encoding::Utf32LE {
        lemma_last_symbol_utf32(x, c, y, d);
    } else {
        lemma_last_symbol_utf16(x, c, y, d);
    }
}

/// Output in a Unicode encoding can be read in one way only: two runs of
/// symbols with the same bytes are the same run.
pub proof fn lemma_decoding_is_unique(enc: Encoding, a: Seq<char>, b: Seq<char>)
    requires
        enc == Encoding::Utf8 || enc == Encoding::Utf16LE || enc == Encoding::Utf32LE,
        encode_all(enc, a) == encode_all(enc, b),
    ensures
        a == b,
    decreases a.len(),
{
    if enc == Encoding::Utf8 {
        lemma_utf8_decodes(a);
        lemma_utf8_decodes(b);
    } else {
        lemma_encoded_len(enc, a);
        lemma_encoded_len(enc, b);
        if a.len() == 0 {
            assert(b.len() == 0);
            assert(a =~= b);
        } else {
            assert(b.len() > 0);
            lemma_last_symbol(
                enc,
                encode_all(enc, a.drop_last()),
                a.last(),
                encode_all(enc, b.drop_last()),
                b.last(),
            );
            lemma_decoding_is_unique(enc, a.drop_last(), b.drop_last());
            assert(a =~= a.drop_last().push(a.last()));
            assert(b =~= b.drop_last().push(b.last()));
        }
    }
}

/// Whatever symbols a run of whole symbols of an alphabet is read as in a
/// Unicode encoding, they are symbols of the alphabet.
pub proof fn lemma_decoded_symbols_are_members(
    enc: Encoding,
    alphabet: Seq<char>,
    bytes: Seq<u8>,
    syms: Seq<char>,
)
    requires
        enc == Encoding::Utf8 || enc == Encoding::Utf16LE || enc == Encoding::Utf32LE,
        whole(enc, alphabet, bytes),
        bytes == encode_all(enc, syms),
    ensures
        members(syms, alphabet),
{
    let mine = choose|s: Seq<char>| #[trigger]
        members(s, alphabet) && bytes == encode_all(enc, s);
    lemma_decoding_is_unique(enc, mine, syms);
}

/// Every byte of a run of whole raw-byte symbols is the raw byte of a symbol
/// of the alphabet.
pub proof fn lemma_raw_bytes_are_members(alphabet: Seq<char>, bytes: Seq<u8>)
    requires
        whole(Encoding::RawByte, alphabet, bytes),
    ensures
        forall|k: int|
            0 <= k < bytes.len() ==> exists|i: int|
                0 <= i < alphabet.len() && #[trigger] bytes[k] == raw_byte(#[trigger] alphabet[i]),
{
    let syms = choose|s: Seq<char>| #[trigger]
        members(s, alphabet) && bytes == encode_all(Encoding::RawByte, s);
    lemma_raw_bytes(syms);
    assert forall|k: int| 0 <= k < bytes.len() implies exists|i: int|
        0 <= i < alphabet.len() && #[trigger] bytes[k] == raw_byte(#[trigger] alphabet[i]) by {
        assert(alphabet.contains(syms[k]));
        let i = choose|i: int| 0 <= i < alphabet.len() && alphabet[i] == syms[k];
        assert(bytes[k] == raw_byte(alphabet[i]));
    }
}

/// The empty buffer is a run of whole symbols.
pub proof fn lemma_whole_empty(enc: Encoding, alphabet: Seq<char>)
    ensures
        whole(enc, alphabet, Seq::<u8>::empty()),
{
    assert(members(Seq::<char>::empty(), alphabet));
    assert(encode_all(enc, Seq::<char>::empty()) =~= Seq::<u8>::empty());
}

/// The byte lanes of a draw, lowest first: `n` indices of one byte each.
pub open spec fn lanes(draw: int, n: nat) -> Seq<int>
    decreases n,
{
    if n == 0 {
        Seq::empty()
    } else {
        seq![draw % 256] + lanes(draw / 256, (n - 1) as nat)
    }
}

/// The symbols that one draw selects on the batched path: each lane, taken
/// modulo the size of the alphabet, is the index of a symbol.
pub open spec fn batch_symbols(draw: u64, alphabet: Seq<char>) -> Seq<char> {
    Seq::new(BATCH as nat, |k: int| alphabet[lanes(draw as int, BATCH as nat)[k] % (alphabet.len() as int)])
}

/// Each lane of a draw is the value of one byte.
proof fn lemma_lanes_bounds(draw: int, n: nat)
    requires
        draw >= 0,
    ensures
        lanes(draw, n).len() == n,
        forall|j: int| 0 <= j < n ==> 0 <= #[trigger] lanes(draw, n)[j] < 256,
    decreases n,
{
    if n > 0 {
        lemma_lanes_bounds(draw / 256, (n - 1) as nat);
    }
}

/// The symbols of a batch are symbols of the alphabet.
pub proof fn lemma_batch_members(draw: u64, alphabet: Seq<char>)
    requires
        alphabet.len() > 0,
    ensures
        members(batch_symbols(draw, alphabet), alphabet),
        batch_symbols(draw, alphabet).len() == BATCH,
{
    let all = batch_symbols(draw, alphabet);
    lemma_lanes_bounds(draw as int, BATCH as nat);
    assert forall|i: int| 0 <= i < all.len() implies alphabet.contains(#[trigger] all[i]) by {
        let l = lanes(draw as int, BATCH as nat)[i];
        assert(0 <= l % (alphabet.len() as int) < alphabet.len());
        assert(all[i] == alphabet[l % (alphabet.len() as int)]);
    }
}

/// Raw-byte output of one batched draw: eight symbols, one for each byte lane
/// of `draw` from the lowest up, appended to `buf`.
pub fn push_batch(draw: u64, alphabet: &Vec<char>, buf: &mut Vec<u8>)
    requires
        alphabet@.len() > 0,
    ensures
        final(buf)@ == old(buf)@ + encode_all(Encoding::RawByte, batch_symbols(draw, alphabet@)),
        final(buf)@.len() == old(buf)@.len() + BATCH,
        members(batch_symbols(draw, alphabet@), alphabet@),
{
    let n: usize = alphabet.len();
    let mut d: u64 = draw;
    let mut k: usize = 0;
    let ghost all = batch_symbols(draw, alphabet@);
    proof {
        assert(all.take(0) =~= Seq::<char>::empty());
        assert(encode_all(Encoding::RawByte, all.take(0)) =~= Seq::<u8>::empty());
        assert(old(buf)@ + Seq::<u8>::empty() =~= old(buf)@);
        lemma_lanes_tail(draw as int, BATCH as nat);
    }
    while k < BATCH
        invariant
            k <= BATCH,
            n == alphabet@.len(),
            n > 0,
            all == batch_symbols(draw, alphabet@),
            buf@ == old(buf)@ + encode_all(Encoding::RawByte, all.take(k as int)),
            buf@.len() == old(buf)@.len() + k,
            forall|j: int|
                k <= j < BATCH ==> #[trigger] lanes(draw as int, BATCH as nat)[j] == lanes(
                    d as int,
                    (BATCH - k) as nat,
                )[j - k],
        decreases BATCH - k,
    {
        let lane: usize = (d % 256) as usize;
        let c: char = alphabet[lane % n];
        proof {
            assert(lanes(d as int, (BATCH - k) as nat)[0] == d as int % 256);
            assert(all[k as int] == c);
            assert(all.take(k + 1) =~= all.take(k as int).push(c));
            lemma_encode_push(Encoding::RawByte, all.take(k as int), c);
            lemma_lanes_tail(d as int, (BATCH - k) as nat);
            assert forall|j: int| k + 1 <= j < BATCH implies #[trigger] lanes(
                draw as int,
                BATCH as nat,
            )[j] == lanes(d as int / 256, (BATCH - k - 1) as nat)[j - k - 1] by {
                assert(lanes(d as int, (BATCH - k) as nat)[j - k] == lanes(
                    d as int / 256,
                    (BATCH - k - 1) as nat,
                )[j - k - 1]);
            }
        }
        push_symbol(Encoding::RawByte, c, buf);
        d = d / 256;
        k += 1;
    }
    proof {
        assert(all.take(BATCH as int) =~= all);
        lemma_batch_members(draw, alphabet@);
    }
}

/// The lanes of a draw are its lowest byte and then the lanes of the rest.
proof fn lemma_lanes_tail(draw: int, n: nat)
    requires
        n > 0,
    ensures
        lanes(draw, n).len() == n,
        lanes(draw, n)[0] == draw % 256,
        forall|j: int|
            1 <= j < n ==> #[trigger] lanes(draw, n)[j] == lanes(draw / 256, (n - 1) as nat)[j
                - 1],
    decreases n,
{
    lemma_lanes_len(draw / 256, (n - 1) as nat);
}

proof fn lemma_lanes_len(draw: int, n: nat)
    ensures
        lanes(draw, n).len() == n,
    decreases n,
{
    if n > 0 {
        lemma_lanes_len(draw / 256, (n - 1) as nat);
    }
}

} // verus!
