//! The escaping that turns any string into one component of a file path.
//!
//! A component is written as its UTF-8 bytes. ASCII letters, digits, `-` and
//! `_` stand for themselves; every other byte becomes `%` and two upper-case
//! hexadecimal digits. The empty string becomes a lone `%`, so that no
//! component is ever empty. The result holds neither `/` nor `.`, and no two
//! strings share one.

use vstd::prelude::*;
use vstd::string::*;
use vstd::utf8::*;

verus! {

/// The bytes that a component shows unchanged.
pub open spec fn is_plain(b: u8) -> bool {
    ||| 0x30 <= b <= 0x39
    ||| 0x41 <= b <= 0x5a
    ||| 0x61 <= b <= 0x7a
    ||| b == 0x2d
    ||| b == 0x5f
}

/// The upper-case hexadecimal digit for a value below sixteen.
pub open spec fn hex_digit(n: u8) -> char
    recommends
        n < 16,
{
    if n < 10 {
        ((0x30 + n) as u8) as char
    } else {
        ((0x37 + n) as u8) as char
    }
}

/// What one byte is written as.
pub open spec fn escape_byte(b: u8) -> Seq<char> {
    if is_plain(b) {
        seq![b as char]
    } else {
        seq!['%', hex_digit(b / 16), hex_digit(b % 16)]
    }
}

/// What a sequence of bytes is written as: each byte in turn.
pub open spec fn escape_bytes(bytes: Seq<u8>) -> Seq<char>
    decreases bytes.len(),
{
    if bytes.len() == 0 {
        Seq::empty()
    } else {
        escape_byte(bytes[0]) + escape_bytes(bytes.drop_first())
    }
}

/// The path component that stands for a string.
pub open spec fn escape(s: Seq<char>) -> Seq<char> {
    if s.len() == 0 {
        seq!['%']
    } else {
        escape_bytes(encode_utf8(s))
    }
}

/// The characters that an escaped component is made of.
pub open spec fn is_component_char(c: char) -> bool {
    ||| '0' <= c <= '9'
    ||| 'A' <= c <= 'Z'
    ||| 'a' <= c <= 'z'
    ||| c == '-'
    ||| c == '_'
    ||| c == '%'
}

/// Escaping goes byte by byte, so a byte added at the end adds its escape at
/// the end.
pub proof fn lemma_escape_bytes_push(bytes: Seq<u8>, b: u8)
    ensures
        escape_bytes(bytes.push(b)) == escape_bytes(bytes) + escape_byte(b),
    decreases bytes.len(),
{
    if bytes.len() == 0 {
        assert(bytes.push(b).drop_first() =~= Seq::<u8>::empty());
        assert(escape_bytes(bytes.push(b).drop_first()) =~= Seq::<char>::empty());
        assert(escape_bytes(bytes.push(b)) =~= escape_bytes(bytes) + escape_byte(b));
    } else {
        assert(bytes.push(b).drop_first() =~= bytes.drop_first().push(b));
        lemma_escape_bytes_push(bytes.drop_first(), b);
        assert(escape_bytes(bytes.push(b)) =~= escape_bytes(bytes) + escape_byte(b));
    }
}

/// Every character of escaped bytes is a component character.
pub proof fn lemma_escape_bytes_chars(bytes: Seq<u8>)
    ensures
        forall|i: int|
            0 <= i < escape_bytes(bytes).len() ==> is_component_char(
                #[trigger] escape_bytes(bytes)[i],
            ),
    decreases bytes.len(),
{
    if bytes.len() > 0 {
        lemma_escape_bytes_chars(bytes.drop_first());
        let head = escape_byte(bytes[0]);
        let tail = escape_bytes(bytes.drop_first());
        assert forall|i: int| 0 <= i < escape_bytes(bytes).len() implies is_component_char(
            #[trigger] escape_bytes(bytes)[i],
        ) by {
            if i < head.len() {
                assert(escape_bytes(bytes)[i] == head[i]);
            } else {
                assert(escape_bytes(bytes)[i] == tail[i - head.len()]);
            }
        }
    }
}

/// An escaped component is never empty and holds component characters only:
/// no `/`, no `.`, nothing that a file system reads as more than a name.
pub proof fn lemma_escape_is_component(s: Seq<char>)
    ensures
        escape(s).len() > 0,
        forall|i: int| 0 <= i < escape(s).len() ==> is_component_char(#[trigger] escape(s)[i]),
        !escape(s).contains('/'),
        !escape(s).contains('.'),
{
    if s.len() > 0 {
        lemma_escape_bytes_chars(encode_utf8(s));
        lemma_encode_utf8_nonempty(s);
    }
}

/// A string that is not empty has at least one byte.
pub proof fn lemma_encode_utf8_nonempty(s: Seq<char>)
    requires
        s.len() > 0,
    ensures
        encode_utf8(s).len() > 0,
{
}

/// Escaped bytes give the bytes back: no two byte sequences are written alike.
pub proof fn lemma_escape_bytes_injective(a: Seq<u8>, b: Seq<u8>)
    requires
        escape_bytes(a) == escape_bytes(b),
    ensures
        a == b,
    decreases a.len(),
{
    if a.len() == 0 {
        if b.len() > 0 {
            assert(escape_bytes(b).len() >= escape_byte(b[0]).len());
        }
        assert(a =~= b);
    } else {
        if b.len() == 0 {
            assert(escape_bytes(a).len() >= escape_byte(a[0]).len());
        } else {
            let ea = escape_byte(a[0]);
            let eb = escape_byte(b[0]);
            let ta = escape_bytes(a.drop_first());
            let tb = escape_bytes(b.drop_first());
            assert((ea + ta)[0] == ea[0]);
            assert((eb + tb)[0] == eb[0]);
            if is_plain(a[0]) {
                assert(is_plain(b[0]));
                assert(a[0] == b[0]);
            } else {
                assert(!is_plain(b[0]));
                assert((ea + ta)[1] == ea[1]);
                assert((eb + tb)[1] == eb[1]);
                assert((ea + ta)[2] == ea[2]);
                assert((eb + tb)[2] == eb[2]);
                assert(a[0] / 16 == b[0] / 16);
                assert(a[0] % 16 == b[0] % 16);
                assert(a[0] == b[0]);
            }
            assert(ea == eb);
            assert(ta =~= (ea + ta).skip(ea.len() as int));
            assert(tb =~= (eb + tb).skip(eb.len() as int));
            lemma_escape_bytes_injective(a.drop_first(), b.drop_first());
            assert(a =~= seq![a[0]] + a.drop_first());
            assert(b =~= seq![b[0]] + b.drop_first());
        }
    }
}

/// No two strings are escaped alike.
pub proof fn lemma_escape_injective(s: Seq<char>, t: Seq<char>)
    requires
        escape(s) == escape(t),
    ensures
        s == t,
{
    if s.len() == 0 && t.len() == 0 {
        assert(s =~= t);
    } else if s.len() == 0 {
        lemma_lone_percent_is_no_escape(encode_utf8(t));
        lemma_encode_utf8_nonempty(t);
    } else if t.len() == 0 {
        lemma_lone_percent_is_no_escape(encode_utf8(s));
        lemma_encode_utf8_nonempty(s);
    } else {
        lemma_escape_bytes_injective(encode_utf8(s), encode_utf8(t));
        encode_utf8_decode_utf8(s);
        encode_utf8_decode_utf8(t);
    }
}

/// A lone `%` is what no byte sequence is written as.
proof fn lemma_lone_percent_is_no_escape(bytes: Seq<u8>)
    ensures
        escape_bytes(bytes) != seq!['%'],
{
    if bytes.len() > 0 {
        let head = escape_byte(bytes[0]);
        let tail = escape_bytes(bytes.drop_first());
        assert((head + tail)[0] == head[0]);
        assert((head + tail).len() >= head.len());
        assert(seq!['%'][0] == '%');
    } else {
        assert(seq!['%'].len() == 1);
    }
}

fn plain(b: u8) -> (r: bool)
    ensures
        r == is_plain(b),
{
    (0x30 <= b && b <= 0x39) || (0x41 <= b && b <= 0x5a) || (0x61 <= b && b <= 0x7a) || b == 0x2d
        || b == 0x5f
}

fn hex(n: u8) -> (c: char)
    requires
        n < 16,
    ensures
        c == hex_digit(n),
{
    if n < 10 {
        (0x30u8 + n) as char
    } else {
        (0x37u8 + n) as char
    }
}

/// Escapes a string into a path component.
pub fn escape_component(s: &str) -> (out: String)
    ensures
        out@ == escape(s@),
{
    let mut out = String::new();
    if s.is_empty() {
        out.push('%');
        assert(out@ =~= seq!['%']);
        return out;
    }
    let bytes = s.as_bytes();
    let mut i: usize = 0;
    while i < bytes.len()
        invariant
            i <= bytes.len(),
            out@ == escape_bytes(bytes@.take(i as int)),
        decreases bytes.len() - i,
    {
        let b = bytes[i];
        proof {
            lemma_escape_bytes_push(bytes@.take(i as int), b);
            assert(bytes@.take(i + 1) =~= bytes@.take(i as int).push(b));
        }
        if plain(b) {
            out.push(b as char);
            assert(out@ =~= escape_bytes(bytes@.take(i as int)) + escape_byte(b));
        } else {
            out.push('%');
            out.push(hex(b / 16));
            out.push(hex(b % 16));
            assert(out@ =~= escape_bytes(bytes@.take(i as int)) + escape_byte(b));
        }
        i += 1;
    }
    assert(bytes@.take(bytes@.len() as int) =~= bytes@);
    out
}

} // verus!
