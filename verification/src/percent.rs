//! Percent-encoding of URL paths.
//!
//! A byte is written as `%` and two upper-case hex digits when it is not
//! ASCII or belongs to the set being escaped; every other byte is kept as its
//! ASCII character. A string is encoded through its UTF-8 bytes, so every
//! non-ASCII character is escaped.

use vstd::prelude::*;

use crate::text::push_char;

verus! {

/// Whether `b` is a C0 control or DEL.
pub open spec fn is_control(b: u8) -> bool {
    b < 0x20 || b == 0x7F
}

/// The ASCII bytes escaped in a URL path: controls, space, and
/// `" # % < > ? \ ^ ` { | }`, together with `/` unless `keep_slash` holds.
pub open spec fn escaped(b: u8, keep_slash: bool) -> bool {
    is_control(b) || b == 0x20 || b == 0x22 || b == 0x23 || b == 0x25 || b == 0x3C || b == 0x3E
        || b == 0x3F || b == 0x5C || b == 0x5E || b == 0x60 || b == 0x7B || b == 0x7C || b == 0x7D
        || (!keep_slash && b == 0x2F)
}

/// The upper-case hex digit for `n`, which is below 16.
pub open spec fn hex_digit(n: u8) -> char {
    if n < 10 {
        (0x30 + n) as char
    } else {
        (0x41 + n - 10) as char
    }
}

/// How one byte is written.
pub open spec fn encode_byte(b: u8, keep_slash: bool) -> Seq<char> {
    if b >= 0x80 || escaped(b, keep_slash) {
        seq!['%', hex_digit(b / 16), hex_digit(b % 16)]
    } else {
        seq![b as char]
    }
}

/// How a sequence of bytes is written.
pub open spec fn encode_bytes(bytes: Seq<u8>, keep_slash: bool) -> Seq<char>
    decreases bytes.len(),
{
    if bytes.len() == 0 {
        Seq::<char>::empty()
    } else {
        encode_bytes(bytes.drop_last(), keep_slash) + encode_byte(bytes.last(), keep_slash)
    }
}

/// How a string is written: its UTF-8 bytes, encoded.
pub open spec fn percent_encoded(s: Seq<char>, keep_slash: bool) -> Seq<char> {
    encode_bytes(vstd::utf8::encode_utf8(s), keep_slash)
}

fn hex_char(n: u8) -> (c: char)
    requires
        n < 16,
    ensures
        c == hex_digit(n),
{
    if n < 10 {
        (0x30u8 + n) as char
    } else {
        (0x41u8 + n - 10) as char
    }
}

/// Percent-encodes `s`, escaping `/` too unless `keep_slash` holds.
///
/// With `keep_slash` unset this encodes one path segment: no `/` survives,
/// so the result stays a single segment. With it set this encodes a whole
/// path, keeping the separators between its segments.
pub fn percent_encode(s: &str, keep_slash: bool) -> (r: String)
    ensures
        r@ == percent_encoded(s@, keep_slash),
{
    let bytes = s.as_bytes();
    let ghost bv = bytes@;
    assert(bv == vstd::utf8::encode_utf8(s@));
    let mut r = String::new();
    let mut i: usize = 0;
    while i < bytes.len()
        invariant
            i <= bv.len(),
            bv == bytes@,
            r@ == encode_bytes(bv.take(i as int), keep_slash),
        decreases bv.len() - i,
    {
        let b = bytes[i];
        assert(bv.take(i + 1 as int).drop_last() =~= bv.take(i as int));
        assert(bv.take(i + 1 as int).last() == b);
        let control = b < 0x20 || b == 0x7F;
        let special = b == 0x20 || b == 0x22 || b == 0x23 || b == 0x25 || b == 0x3C || b == 0x3E
            || b == 0x3F || b == 0x5C || b == 0x5E || b == 0x60 || b == 0x7B || b == 0x7C || b
            == 0x7D;
        if b >= 0x80 || control || special || (!keep_slash && b == 0x2F) {
            let ghost before = r@;
            push_char(&mut r, '%');
            push_char(&mut r, hex_char(b / 16));
            push_char(&mut r, hex_char(b % 16));
            assert(r@ =~= before + encode_byte(b, keep_slash));
        } else {
            let ghost before = r@;
            push_char(&mut r, b as char);
            assert(r@ =~= before + encode_byte(b, keep_slash));
        }
        i = i + 1;
    }
    assert(bv.take(i as int) =~= bv);
    r
}

/// An encoded segment holds no `/`: every `/` byte is escaped, and neither
/// `%` nor a hex digit is one.
pub proof fn lemma_encoded_segment_lacks_slash(bytes: Seq<u8>)
    ensures
        !encode_bytes(bytes, false).contains('/'),
    decreases bytes.len(),
{
    if bytes.len() > 0 {
        lemma_encoded_segment_lacks_slash(bytes.drop_last());
        let head = encode_bytes(bytes.drop_last(), false);
        let tail = encode_byte(bytes.last(), false);
        let b = bytes.last();
        assert(!tail.contains('/')) by {
            if tail.contains('/') {
                let k = choose|k: int| 0 <= k < tail.len() && tail[k] == '/';
                if b >= 0x80 || escaped(b, false) {
                    assert(b / 16 < 16 && b % 16 < 16);
                    assert(hex_digit(b / 16) != '/');
                    assert(hex_digit(b % 16) != '/');
                } else {
                    assert(b != 0x2F);
                    assert((b as char) != '/');
                }
            }
        }
        assert forall|k: int| 0 <= k < (head + tail).len() implies (head + tail)[k] != '/' by {
            if k < head.len() {
                assert((head + tail)[k] == head[k]);
            } else {
                assert((head + tail)[k] == tail[k - head.len()]);
            }
        }
    }
}

/// A non-empty string encodes to a non-empty one.
pub proof fn lemma_encoded_nonempty(s: Seq<char>, keep_slash: bool)
    requires
        s.len() > 0,
    ensures
        percent_encoded(s, keep_slash).len() > 0,
{
    let bytes = vstd::utf8::encode_utf8(s);
    assert(vstd::utf8::encode_scalar(s[0] as u32).len() > 0);
    assert(bytes.len() > 0);
    assert(encode_byte(bytes.last(), keep_slash).len() > 0);
}

/// The UTF-8 encoding of two strings one after the other is their encodings
/// one after the other.
proof fn lemma_utf8_concat(a: Seq<char>, b: Seq<char>)
    ensures
        vstd::utf8::encode_utf8(a + b) == vstd::utf8::encode_utf8(a) + vstd::utf8::encode_utf8(b),
    decreases a.len(),
{
    if a.len() == 0 {
        assert(a + b =~= b);
        assert(vstd::utf8::encode_utf8(a) + vstd::utf8::encode_utf8(b) =~= vstd::utf8::encode_utf8(b));
    } else {
        lemma_utf8_concat(a.drop_first(), b);
        assert((a + b).drop_first() =~= a.drop_first() + b);
        assert((a + b)[0] == a[0]);
        let h = vstd::utf8::encode_scalar(a[0] as u32);
        assert(h + (vstd::utf8::encode_utf8(a.drop_first()) + vstd::utf8::encode_utf8(b)) =~= h
            + vstd::utf8::encode_utf8(a.drop_first()) + vstd::utf8::encode_utf8(b));
    }
}

/// Encoding two byte strings one after the other gives their encodings one
/// after the other.
proof fn lemma_bytes_concat(x: Seq<u8>, y: Seq<u8>, keep_slash: bool)
    ensures
        encode_bytes(x + y, keep_slash) == encode_bytes(x, keep_slash) + encode_bytes(y, keep_slash),
    decreases y.len(),
{
    if y.len() == 0 {
        assert(x + y =~= x);
        assert(encode_bytes(x, keep_slash) + encode_bytes(y, keep_slash) =~= encode_bytes(x, keep_slash));
    } else {
        lemma_bytes_concat(x, y.drop_last(), keep_slash);
        assert((x + y).drop_last() =~= x + y.drop_last());
        assert((x + y).last() == y.last());
        let e = encode_byte(y.last(), keep_slash);
        assert(encode_bytes(x, keep_slash) + encode_bytes(y.drop_last(), keep_slash) + e =~= encode_bytes(
            x,
            keep_slash,
        ) + (encode_bytes(y.drop_last(), keep_slash) + e));
    }
}

/// A character other than `/` encodes to bytes that are not `/`: an ASCII
/// character to itself, and any other to bytes with the high bit set.
proof fn lemma_scalar_lacks_slash(c: char)
    requires
        c != '/',
    ensures
        !vstd::utf8::encode_scalar(c as u32).contains(0x2Fu8),
{
    let v = c as u32;
    vstd::utf8::char_is_scalar(c);
    let e = vstd::utf8::encode_scalar(v);
    assert(v != 0x2F);
    assert forall|k: int| 0 <= k < e.len() implies e[k] != 0x2Fu8 by {
        if vstd::utf8::has_width_1_encoding(v) {
            assert((v & 0x7F) == v) by (bit_vector)
                requires
                    v <= 0x7F,
            ;
        } else {
            assert(forall|x: u8| #![auto] (0x80u8 | x) >= 0x80u8) by (bit_vector);
            assert(forall|x: u8| #![auto] (0xC0u8 | x) >= 0x80u8) by (bit_vector);
            assert(forall|x: u8| #![auto] (0xE0u8 | x) >= 0x80u8) by (bit_vector);
            assert(forall|x: u8| #![auto] (0xF0u8 | x) >= 0x80u8) by (bit_vector);
        }
    }
}

/// A string without `/` encodes to bytes without `/`.
proof fn lemma_utf8_lacks_slash(s: Seq<char>)
    requires
        !s.contains('/'),
    ensures
        !vstd::utf8::encode_utf8(s).contains(0x2Fu8),
    decreases s.len(),
{
    if s.len() > 0 {
        assert(!s.drop_first().contains('/')) by {
            if s.drop_first().contains('/') {
                let k = choose|k: int| 0 <= k < s.drop_first().len() && s.drop_first()[k] == '/';
                assert(s[k + 1] == '/');
            }
        }
        lemma_utf8_lacks_slash(s.drop_first());
        assert(s[0] != '/');
        lemma_scalar_lacks_slash(s[0]);
        let h = vstd::utf8::encode_scalar(s[0] as u32);
        let t = vstd::utf8::encode_utf8(s.drop_first());
        assert forall|k: int| 0 <= k < (h + t).len() implies (h + t)[k] != 0x2Fu8 by {
            if k < h.len() {
                assert((h + t)[k] == h[k]);
            } else {
                assert((h + t)[k] == t[k - h.len()]);
            }
        }
    }
}

/// Bytes without `/` encode the same whether or not `/` is kept.
proof fn lemma_keep_slash_irrelevant(bytes: Seq<u8>)
    requires
        !bytes.contains(0x2Fu8),
    ensures
        encode_bytes(bytes, true) == encode_bytes(bytes, false),
    decreases bytes.len(),
{
    if bytes.len() > 0 {
        assert(!bytes.drop_last().contains(0x2Fu8)) by {
            if bytes.drop_last().contains(0x2Fu8) {
                let k = choose|k: int| 0 <= k < bytes.drop_last().len() && bytes.drop_last()[k] == 0x2Fu8;
                assert(bytes[k] == 0x2Fu8);
            }
        }
        lemma_keep_slash_irrelevant(bytes.drop_last());
        assert(bytes[bytes.len() - 1] == bytes.last());
    }
}

/// A path segment, which holds no `/`, is encoded the same way whether the
/// separators of a whole path are kept or not.
pub proof fn lemma_segments_encode_alike(s: Seq<char>)
    requires
        !s.contains('/'),
    ensures
        percent_encoded(s, true) == percent_encoded(s, false),
{
    lemma_utf8_lacks_slash(s);
    lemma_keep_slash_irrelevant(vstd::utf8::encode_utf8(s));
}

/// Encoding a path keeps its separators: a path joined at a `/` encodes to
/// the encodings of its two sides joined at a `/`.
pub proof fn lemma_separators_are_kept(s: Seq<char>, t: Seq<char>)
    ensures
        percent_encoded(s.push('/') + t, true) == percent_encoded(s, true).push('/') + percent_encoded(t, true),
{
    let slash = seq!['/'];
    assert(s.push('/') + t =~= s + slash + t);
    lemma_utf8_concat(s + slash, t);
    lemma_utf8_concat(s, slash);
    let bs = vstd::utf8::encode_utf8(s);
    let bt = vstd::utf8::encode_utf8(t);
    let b1 = vstd::utf8::encode_utf8(slash);
    assert(slash.drop_first() =~= Seq::<char>::empty());
    assert(('/' as u32) == 0x2F);
    assert((0x2Fu32 & 0x7Fu32) == 0x2Fu32) by (bit_vector);
    assert(vstd::utf8::encode_scalar(0x2Fu32) =~= seq![0x2Fu8]);
    assert(vstd::utf8::encode_utf8(Seq::<char>::empty()) =~= Seq::<u8>::empty());
    assert(b1 =~= seq![0x2Fu8]);
    lemma_bytes_concat(bs + b1, bt, true);
    lemma_bytes_concat(bs, b1, true);
    assert(seq![0x2Fu8].drop_last() =~= Seq::<u8>::empty());
    assert((0x2Fu8 as char) == '/');
    assert(encode_byte(0x2Fu8, true) =~= seq!['/']);
    assert(encode_bytes(Seq::<u8>::empty(), true) =~= Seq::<char>::empty());
    assert(encode_bytes(b1, true) =~= seq!['/']);
    assert(encode_bytes(bs, true) + seq!['/'] =~= encode_bytes(bs, true).push('/'));
}

/// The value of a hex digit written by [`percent_encode`]: `0`-`9`, then
/// upper-case `A`-`F`.
pub open spec fn hex_value(c: char) -> int {
    if '0' <= c && c <= '9' {
        c as int - '0' as int
    } else {
        c as int - 'A' as int + 10
    }
}

/// Whether `c` is an upper-case hex digit.
pub open spec fn is_hex_digit(c: char) -> bool {
    ('0' <= c && c <= '9') || ('A' <= c && c <= 'F')
}

/// Reads percent-encoded text back into bytes: `%` and two hex digits stand
/// for the byte they spell, and any other character for its own code.
pub open spec fn percent_decoded(r: Seq<char>) -> Seq<u8>
    decreases r.len(),
{
    if r.len() == 0 {
        Seq::<u8>::empty()
    } else if r[0] == '%' && r.len() >= 3 {
        seq![(hex_value(r[1]) * 16 + hex_value(r[2])) as u8] + percent_decoded(r.skip(3))
    } else {
        seq![r[0] as u8] + percent_decoded(r.skip(1))
    }
}

/// Whether `c` may stand unescaped in an encoded URL path: a printable ASCII
/// character other than space, `"`, `#`, `<`, `>`, `?`, `\`, `^`, `` ` ``,
/// `{`, `|` and `}`, and other than `/` in a segment.
pub open spec fn safe_in_path(c: char, keep_slash: bool) -> bool {
    &&& ' ' < c && c <= '~'
    &&& c != '"' && c != '#' && c != '<' && c != '>' && c != '?'
    &&& c != '\\' && c != '^' && c != '`' && c != '{' && c != '|' && c != '}'
    &&& (keep_slash || c != '/')
}

proof fn lemma_hex_digit(n: u8)
    requires
        n < 16,
    ensures
        is_hex_digit(hex_digit(n)),
        hex_value(hex_digit(n)) == n,
        safe_in_path(hex_digit(n), false),
        hex_digit(n) != '%',
{
}

proof fn lemma_byte_unit(b: u8, keep_slash: bool)
    ensures
        forall|k: int| 0 <= k < encode_byte(b, keep_slash).len() ==> safe_in_path(#[trigger] encode_byte(b, keep_slash)[k], keep_slash)
            || (k == 0 && encode_byte(b, keep_slash)[k] == '%'),
        encode_byte(b, keep_slash)[0] == '%' ==> encode_byte(b, keep_slash).len() == 3 && is_hex_digit(encode_byte(b, keep_slash)[1])
            && is_hex_digit(encode_byte(b, keep_slash)[2]) && hex_value(encode_byte(b, keep_slash)[1]) * 16 + hex_value(encode_byte(b, keep_slash)[2]) == b,
        encode_byte(b, keep_slash)[0] != '%' ==> encode_byte(b, keep_slash).len() == 1 && encode_byte(b, keep_slash)[0] as u8 == b,
{
    if b >= 0x80 || escaped(b, keep_slash) {
        lemma_hex_digit(b / 16);
        lemma_hex_digit(b % 16);
    } else {
        assert((b as char) as u8 == b);
        assert((b as char) as int == b as int);
    }
}

proof fn lemma_decode_unit(b: u8, keep_slash: bool, rest: Seq<char>)
    ensures
        percent_decoded(encode_byte(b, keep_slash) + rest) == seq![b] + percent_decoded(rest),
{
    lemma_byte_unit(b, keep_slash);
    let u = encode_byte(b, keep_slash);
    let r = u + rest;
    if u[0] == '%' {
        assert(r[0] == '%' && r[1] == u[1] && r[2] == u[2]);
        assert(r.skip(3) =~= rest);
    } else {
        assert(r[0] == u[0]);
        assert(r.skip(1) =~= rest);
    }
}

proof fn lemma_decode_bytes(bytes: Seq<u8>, keep_slash: bool, rest: Seq<char>)
    ensures
        percent_decoded(encode_bytes(bytes, keep_slash) + rest) == bytes + percent_decoded(rest),
    decreases bytes.len(),
{
    if bytes.len() == 0 {
        assert(encode_bytes(bytes, keep_slash) + rest =~= rest);
        assert(bytes + percent_decoded(rest) =~= percent_decoded(rest));
    } else {
        let u = encode_byte(bytes.last(), keep_slash);
        lemma_decode_bytes(bytes.drop_last(), keep_slash, u + rest);
        assert(encode_bytes(bytes, keep_slash) + rest =~= encode_bytes(bytes.drop_last(), keep_slash) + (u + rest));
        lemma_decode_unit(bytes.last(), keep_slash, rest);
        assert(bytes.drop_last() + (seq![bytes.last()] + percent_decoded(rest)) =~= bytes + percent_decoded(rest));
    }
}

proof fn lemma_bytes_safe(bytes: Seq<u8>, keep_slash: bool)
    ensures
        forall|k: int|
            0 <= k < encode_bytes(bytes, keep_slash).len() ==> safe_in_path(#[trigger] encode_bytes(bytes, keep_slash)[k], keep_slash)
                || (encode_bytes(bytes, keep_slash)[k] == '%' && k + 2 < encode_bytes(bytes, keep_slash).len()
                && is_hex_digit(encode_bytes(bytes, keep_slash)[k + 1]) && is_hex_digit(encode_bytes(bytes, keep_slash)[k + 2])),
    decreases bytes.len(),
{
    if bytes.len() > 0 {
        lemma_bytes_safe(bytes.drop_last(), keep_slash);
        lemma_byte_unit(bytes.last(), keep_slash);
        let h = encode_bytes(bytes.drop_last(), keep_slash);
        let u = encode_byte(bytes.last(), keep_slash);
        let e = h + u;
        assert(encode_bytes(bytes, keep_slash) == e);
        assert forall|k: int| 0 <= k < e.len() implies safe_in_path(#[trigger] e[k], keep_slash)
            || (e[k] == '%' && k + 2 < e.len() && is_hex_digit(e[k + 1]) && is_hex_digit(e[k + 2])) by {
            if k < h.len() {
                assert(e[k] == h[k]);
                if !safe_in_path(h[k], keep_slash) {
                    assert(e[k + 1] == h[k + 1]);
                    assert(e[k + 2] == h[k + 2]);
                }
            } else {
                assert(e[k] == u[k - h.len()]);
                if !safe_in_path(u[k - h.len()], keep_slash) {
                    assert(k == h.len());
                    assert(e[k + 1] == u[1]);
                    assert(e[k + 2] == u[2]);
                }
            }
        }
    }
}

/// What encoding leaves in a URL: every character of an encoded string is
/// either one that may stand in a path unescaped (printable ASCII other than
/// space, `"`, `#`, `<`, `>`, `?`, `\`, `^`, `` ` ``, `{`, `|`, `}`, and
/// other than `/` in a segment), or a `%` followed by two upper-case hex
/// digits. So no `#` or `?` survives to start a fragment or a query, and no
/// control, space or non-ASCII character survives at all.
pub proof fn lemma_encoding_leaves_only_safe_characters(s: Seq<char>, keep_slash: bool)
    ensures
        forall|k: int|
            0 <= k < percent_encoded(s, keep_slash).len() ==> safe_in_path(#[trigger] percent_encoded(s, keep_slash)[k], keep_slash)
                || (percent_encoded(s, keep_slash)[k] == '%' && k + 2 < percent_encoded(s, keep_slash).len()
                && is_hex_digit(percent_encoded(s, keep_slash)[k + 1]) && is_hex_digit(percent_encoded(s, keep_slash)[k + 2])),
{
    lemma_bytes_safe(vstd::utf8::encode_utf8(s), keep_slash);
}

/// Encoding loses nothing: reading the encoded text back, each `%` and two
/// hex digits as the byte they spell and any other character as itself,
/// gives the UTF-8 bytes of the original string. In particular a `%` of the
/// original is itself escaped, or it would be read as the start of an
/// escape.
pub proof fn lemma_encoding_decodes_back(s: Seq<char>, keep_slash: bool)
    ensures
        percent_decoded(percent_encoded(s, keep_slash)) == vstd::utf8::encode_utf8(s),
{
    let bytes = vstd::utf8::encode_utf8(s);
    lemma_decode_bytes(bytes, keep_slash, Seq::<char>::empty());
    assert(encode_bytes(bytes, keep_slash) + Seq::<char>::empty() =~= encode_bytes(bytes, keep_slash));
    assert(bytes + Seq::<u8>::empty() =~= bytes);
}

} // verus!
