//! Percent-encoding of a URI component, as JavaScript's `encodeURIComponent`
//! does it.
use vstd::prelude::*;
use vstd::utf8::encode_scalar;
use crate::text::chars_of;

verus! {

/// Characters that `encodeURIComponent` leaves as they are: ASCII letters
/// and digits, and `- _ . ! ~ * ' ( )`.
pub open spec fn is_uri_unreserved(c: char) -> bool {
    ||| 'A' <= c <= 'Z'
    ||| 'a' <= c <= 'z'
    ||| '0' <= c <= '9'
    ||| c == '-' || c == '_' || c == '.' || c == '!' || c == '~' || c == '*' || c == '\''
        || c == '(' || c == ')'
}

/// The uppercase hexadecimal digit of value `n` (below 16).
pub open spec fn hex_digit(n: u8) -> char {
    "0123456789ABCDEF"@[n as int]
}

/// A byte written as `%` and two uppercase hexadecimal digits.
pub open spec fn percent_byte(b: u8) -> Seq<char> {
    seq!['%', hex_digit(b / 16), hex_digit(b % 16)]
}

/// Bytes written one by one as `%XX`.
pub open spec fn percent_bytes(bs: Seq<u8>) -> Seq<char>
    decreases bs.len(),
{
    if bs.len() == 0 {
        Seq::empty()
    } else {
        percent_bytes(bs.drop_last()) + percent_byte(bs.last())
    }
}

/// One character encoded: itself when unreserved, otherwise `%XX` for each
/// byte of its UTF-8 encoding.
pub open spec fn encoded_char(c: char) -> Seq<char> {
    if is_uri_unreserved(c) {
        seq![c]
    } else {
        percent_bytes(encode_scalar(c as u32))
    }
}

/// A text encoded as a URI component, character by character.
pub open spec fn uri_component_encoded(s: Seq<char>) -> Seq<char>
    decreases s.len(),
{
    if s.len() == 0 {
        Seq::empty()
    } else {
        uri_component_encoded(s.drop_last()) + encoded_char(s.last())
    }
}

/// Whether `c` is left as it is.
fn is_unreserved(c: char) -> (r: bool)
    ensures
        r == is_uri_unreserved(c),
{
    ('A' <= c && c <= 'Z') || ('a' <= c && c <= 'z') || ('0' <= c && c <= '9') || c == '-' || c
        == '_' || c == '.' || c == '!' || c == '~' || c == '*' || c == '\'' || c == '(' || c
        == ')'
}

/// The UTF-8 encoding of `c`.
fn utf8_bytes(c: char) -> (r: Vec<u8>)
    ensures
        r@ == encode_scalar(c as u32),
{
    let u = c as u32;
    let mut v: Vec<u8> = Vec::new();
    if u <= 0x7F {
        v.push((u & 0x7F) as u8);
    } else if u <= 0x7FF {
        v.push(0xC0 | ((u >> 6) & 0x1F) as u8);
        v.push(0x80 | (u & 0x3F) as u8);
    } else if u <= 0xFFFF {
        v.push(0xE0 | ((u >> 12) & 0x0F) as u8);
        v.push(0x80 | ((u >> 6) & 0x3F) as u8);
        v.push(0x80 | (u & 0x3F) as u8);
    } else {
        v.push(0xF0 | ((u >> 18) & 0x7) as u8);
        v.push(0x80 | ((u >> 12) & 0x3F) as u8);
        v.push(0x80 | ((u >> 6) & 0x3F) as u8);
        v.push(0x80 | (u & 0x3F) as u8);
    }
    proof {
        vstd::utf8::char_is_scalar(c);
    }
    assert(v@ =~= encode_scalar(u));
    v
}

/// Appends `%XX` for byte `b` to `s`.
fn push_percent_byte(s: &mut String, b: u8)
    ensures
        final(s)@ == old(s)@ + percent_byte(b),
{
    let digits = "0123456789ABCDEF";
    proof {
        reveal_strlit("0123456789ABCDEF");
        reveal_strlit("%");
    }
    s.append("%");
    let hi = (b / 16) as usize;
    let lo = (b % 16) as usize;
    s.append(digits.substring_char(hi, hi + 1));
    s.append(digits.substring_char(lo, lo + 1));
    assert(digits@.subrange(hi as int, hi + 1) =~= seq![hex_digit(b / 16)]);
    assert(digits@.subrange(lo as int, lo + 1) =~= seq![hex_digit(b % 16)]);
    assert(final(s)@ =~= old(s)@ + percent_byte(b));
}

/// `s` encoded as a URI component: ASCII letters, digits and
/// `- _ . ! ~ * ' ( )` stay as they are; every other character becomes
/// `%XX`, in uppercase hexadecimal, for each byte of its UTF-8 encoding.
pub fn encode_uri_component(s: &str) -> (r: String)
    ensures
        r@ == uri_component_encoded(s@),
{
    let v = chars_of(s);
    let mut out = String::new();
    let mut i: usize = 0;
    while i < v.len()
        invariant
            i <= v.len(),
            v@ == s@,
            out@ == uri_component_encoded(s@.take(i as int)),
        decreases v.len() - i,
    {
        assert(s@.take(i + 1).drop_last() =~= s@.take(i as int));
        assert(s@.take(i + 1).last() == v@[i as int]);
        let c = v[i];
        if is_unreserved(c) {
            let one = s.substring_char(i, i + 1);
            assert(one@ =~= seq![c]);
            out.append(one);
        } else {
            let bytes = utf8_bytes(c);
            let ghost before = out@;
            let mut k: usize = 0;
            while k < bytes.len()
                invariant
                    k <= bytes.len(),
                    out@ == before + percent_bytes(bytes@.take(k as int)),
                decreases bytes.len() - k,
            {
                assert(bytes@.take(k + 1).drop_last() =~= bytes@.take(k as int));
                push_percent_byte(&mut out, bytes[k]);
                assert(out@ =~= before + percent_bytes(bytes@.take(k + 1)));
                k = k + 1;
            }
            assert(bytes@.take(bytes.len() as int) =~= bytes@);
        }
        i = i + 1;
    }
    assert(s@.take(v.len() as int) =~= s@);
    out
}


/// ASCII letters and digits, and `- _ . ! ~ * ' ( )`, listed one by one.
pub open spec fn listed_unescaped(c: char) -> bool {
    ('A' <= c && c <= 'Z') || ('a' <= c && c <= 'z') || ('0' <= c && c <= '9') || c == '-' || c
        == '_' || c == '.' || c == '!' || c == '~' || c == '*' || c == '\'' || c == '(' || c
        == ')'
}

/// An uppercase hexadecimal digit.
pub open spec fn is_upper_hex(c: char) -> bool {
    ('0' <= c && c <= '9') || ('A' <= c && c <= 'F')
}

/// A text made of `%XX` groups, each `X` an uppercase hexadecimal digit.
pub open spec fn is_percent_groups(t: Seq<char>) -> bool {
    &&& t.len() % 3 == 0
    &&& forall|i: int| 0 <= i < t.len() ==> (if i % 3 == 0 {
        #[trigger] t[i] == '%'
    } else {
        is_upper_hex(t[i])
    })
}

proof fn lemma_hex_digit(n: u8)
    requires
        n < 16,
    ensures
        is_upper_hex(hex_digit(n)),
{
    reveal_strlit("0123456789ABCDEF");
    assert("0123456789ABCDEF"@ =~= seq![
        '0', '1', '2', '3', '4', '5', '6', '7', '8', '9', 'A', 'B', 'C', 'D', 'E', 'F',
    ]);
}

proof fn lemma_percent_bytes(bs: Seq<u8>)
    ensures
        is_percent_groups(percent_bytes(bs)),
        percent_bytes(bs).len() == 3 * bs.len(),
    decreases bs.len(),
{
    if bs.len() > 0 {
        lemma_percent_bytes(bs.drop_last());
        let b = bs.last();
        lemma_hex_digit(b / 16);
        lemma_hex_digit(b % 16);
        let a = percent_bytes(bs.drop_last());
        let t = a + percent_byte(b);
        assert forall|i: int| 0 <= i < t.len() implies (if i % 3 == 0 {
            #[trigger] t[i] == '%'
        } else {
            is_upper_hex(t[i])
        }) by {
            if i < a.len() {
                assert(t[i] == a[i]);
            } else {
                assert(t[i] == percent_byte(b)[i - a.len()]);
                assert((i - a.len()) == i % 3) by {
                    assert(a.len() % 3 == 0);
                }
            }
        }
    }
}

/// Exactly the listed characters are kept as they are; every other
/// character (`+`, `%`, `/`, space, any non-ASCII character, ...) becomes one
/// to four `%XX` groups in uppercase hexadecimal, one for each byte of its
/// UTF-8 encoding, and so never appears as itself unless it is `%`.
pub proof fn law_encoded_char(c: char)
    ensures
        listed_unescaped(c) ==> encoded_char(c) == seq![c],
        !listed_unescaped(c) ==> is_percent_groups(encoded_char(c)) && 3 <= encoded_char(c).len()
            <= 12 && encoded_char(c).len() == 3 * encode_scalar(c as u32).len(),
        !listed_unescaped(c) && c != '%' && !is_upper_hex(c) ==> !encoded_char(c).contains(c),
{
    if !listed_unescaped(c) {
        lemma_percent_bytes(encode_scalar(c as u32));
        let t = encoded_char(c);
        if c != '%' && !is_upper_hex(c) && t.contains(c) {
            let i = choose|i: int| 0 <= i < t.len() && t[i] == c;
            assert(if i % 3 == 0 { t[i] == '%' } else { is_upper_hex(t[i]) });
        }
    }
}

/// Every character of an encoded text is one of the listed characters or
/// `%`: a `+`, a space, a `&` or any non-ASCII character never appears as
/// itself; and the encoding of two texts put end to end is the two
/// encodings put end to end.
pub proof fn law_uri_component_encoded(s: Seq<char>, t: Seq<char>)
    ensures
        forall|i: int|
            0 <= i < uri_component_encoded(s).len() ==> listed_unescaped(
                #[trigger] uri_component_encoded(s)[i],
            ) || uri_component_encoded(s)[i] == '%',
        uri_component_encoded(s + t) == uri_component_encoded(s) + uri_component_encoded(t),
    decreases s.len() + t.len(),
{
    if t.len() > 0 {
        law_uri_component_encoded(s, t.drop_last());
        assert((s + t).drop_last() =~= s + t.drop_last());
        assert((s + t).last() == t.last());
    } else {
        assert(s + t =~= s);
        assert(uri_component_encoded(s) + uri_component_encoded(t) =~= uri_component_encoded(s));
    }
    if s.len() > 0 {
        law_uri_component_encoded(s.drop_last(), t);
        let a = uri_component_encoded(s.drop_last());
        let e = encoded_char(s.last());
        law_encoded_char(s.last());
        let w = a + e;
        assert forall|i: int| 0 <= i < w.len() implies listed_unescaped(#[trigger] w[i]) || w[i]
            == '%' by {
            if i < a.len() {
                assert(w[i] == a[i]);
            } else {
                assert(w[i] == e[i - a.len()]);
                if !listed_unescaped(s.last()) {
                    let k = i - a.len();
                    assert(if k % 3 == 0 { e[k] == '%' } else { is_upper_hex(e[k]) });
                }
            }
        }
    }
}

} // verus!
