//! Text rendering used across the library: decimal and hexadecimal numbers,
//! dotted IPv4 addresses, and byte-wise ordering of strings.

use vstd::prelude::*;

verus! {

/// The character of a digit below sixteen (lower-case hexadecimal above nine).
pub open spec fn digit_char(d: int) -> char {
    if d == 0 { '0' } else if d == 1 { '1' } else if d == 2 { '2' } else if d == 3 { '3' }
    else if d == 4 { '4' } else if d == 5 { '5' } else if d == 6 { '6' } else if d == 7 { '7' }
    else if d == 8 { '8' } else if d == 9 { '9' } else if d == 10 { 'a' } else if d == 11 { 'b' }
    else if d == 12 { 'c' } else if d == 13 { 'd' } else if d == 14 { 'e' } else { 'f' }
}

/// Decimal rendering of a natural number, without leading zeros.
pub open spec fn decimal_text(n: nat) -> Seq<char>
    decreases n,
{
    if n < 10 {
        seq![digit_char(n as int)]
    } else {
        decimal_text(n / 10) + seq![digit_char((n % 10) as int)]
    }
}

/// The `count` lowest hexadecimal digits of `n`, most significant first.
pub open spec fn hex_text(n: nat, count: nat) -> Seq<char>
    decreases count,
{
    if count == 0 {
        Seq::empty()
    } else {
        hex_text(n / 16, (count - 1) as nat) + seq![digit_char((n % 16) as int)]
    }
}

/// A lower-case hexadecimal digit.
pub open spec fn is_lower_hex(c: char) -> bool {
    ('0' <= c && c <= '9') || ('a' <= c && c <= 'f')
}

/// A hexadecimal rendering has exactly the digits asked for, each a
/// lower-case hexadecimal digit.
pub proof fn lemma_hex_text_shape(n: nat, count: nat)
    ensures
        hex_text(n, count).len() == count,
        forall|i: int| 0 <= i < count ==> is_lower_hex(#[trigger] hex_text(n, count)[i]),
    decreases count,
{
    if count > 0 {
        lemma_hex_text_shape(n / 16, (count - 1) as nat);
        let d = (n % 16) as int;
        assert(is_lower_hex(digit_char(d)));
        let t = hex_text(n, count);
        assert forall|i: int| 0 <= i < count implies is_lower_hex(#[trigger] t[i]) by {
            if i < count - 1 {
                assert(t[i] == hex_text(n / 16, (count - 1) as nat)[i]);
            } else {
                assert(t[i] == digit_char(d));
            }
        }
    }
}

/// An owned copy of a text.
pub fn owned_text(s: &str) -> (r: String)
    ensures
        r@ == s@,
{
    String::from_str(s)
}

/// Decimal rendering left-padded with zeros to at least `width` characters.
pub open spec fn padded_decimal_text(n: nat, width: nat) -> Seq<char> {
    let digits = decimal_text(n);
    if digits.len() < width {
        Seq::new((width - digits.len()) as nat, |i: int| '0') + digits
    } else {
        digits
    }
}

/// A single digit as a string slice.
fn digit_str(d: u64) -> (s: &'static str)
    requires
        d < 16,
    ensures
        s@ == seq![digit_char(d as int)],
{
    proof {
        reveal_strlit("0");
        reveal_strlit("1");
        reveal_strlit("2");
        reveal_strlit("3");
        reveal_strlit("4");
        reveal_strlit("5");
        reveal_strlit("6");
        reveal_strlit("7");
        reveal_strlit("8");
        reveal_strlit("9");
        reveal_strlit("a");
        reveal_strlit("b");
        reveal_strlit("c");
        reveal_strlit("d");
        reveal_strlit("e");
        reveal_strlit("f");
    }
    if d == 0 { "0" } else if d == 1 { "1" } else if d == 2 { "2" } else if d == 3 { "3" }
    else if d == 4 { "4" } else if d == 5 { "5" } else if d == 6 { "6" } else if d == 7 { "7" }
    else if d == 8 { "8" } else if d == 9 { "9" } else if d == 10 { "a" } else if d == 11 { "b" }
    else if d == 12 { "c" } else if d == 13 { "d" } else if d == 14 { "e" } else { "f" }
}

/// Appends the decimal rendering of `n`.
pub fn push_decimal(out: &mut String, n: u64)
    ensures
        final(out)@ == old(out)@ + decimal_text(n as nat),
    decreases n,
{
    if n >= 10 {
        push_decimal(out, n / 10);
        let ghost mid = out@;
        out.append(digit_str(n % 10));
        assert(out@ == old(out)@ + decimal_text(n as nat)) by {
            assert(mid == old(out)@ + decimal_text((n / 10) as nat));
            assert(old(out)@ + decimal_text(n as nat) =~= old(out)@ + decimal_text((n / 10) as nat)
                + seq![digit_char((n % 10) as int)]);
        }
    } else {
        out.append(digit_str(n));
    }
}

/// Appends the `count` lowest hexadecimal digits of `n`.
pub fn push_hex(out: &mut String, n: u64, count: u32)
    ensures
        final(out)@ == old(out)@ + hex_text(n as nat, count as nat),
    decreases count,
{
    if count > 0 {
        push_hex(out, n / 16, count - 1);
        let ghost mid = out@;
        out.append(digit_str(n % 16));
        assert(out@ =~= old(out)@ + hex_text(n as nat, count as nat));
    } else {
        assert(old(out)@ + hex_text(n as nat, 0) =~= old(out)@);
    }
}


/// Strict byte-wise lexicographic order, the order of `str` in Rust.
pub open spec fn bytes_lt(a: Seq<u8>, b: Seq<u8>) -> bool
    decreases a.len(),
{
    if a.len() == 0 {
        b.len() > 0
    } else if b.len() == 0 {
        false
    } else if a[0] != b[0] {
        a[0] < b[0]
    } else {
        bytes_lt(a.drop_first(), b.drop_first())
    }
}

/// The UTF-8 bytes of a text.
pub open spec fn utf8_of(t: Seq<char>) -> Seq<u8> {
    vstd::utf8::encode_utf8(t)
}

/// Order of (text, number) pairs: texts by their UTF-8 bytes, then numbers.
pub open spec fn text_port_le(a: Seq<char>, a_port: u16, b: Seq<char>, b_port: u16) -> bool {
    bytes_lt(utf8_of(a), utf8_of(b)) || (utf8_of(a) == utf8_of(b) && a_port <= b_port)
}

proof fn lemma_bytes_lt_step(a: Seq<u8>, b: Seq<u8>, i: int)
    requires
        0 <= i < a.len(),
        i < b.len(),
        a[i] == b[i],
    ensures
        bytes_lt(a.skip(i), b.skip(i)) == bytes_lt(a.skip(i + 1), b.skip(i + 1)),
{
    assert(a.skip(i).drop_first() =~= a.skip(i + 1));
    assert(b.skip(i).drop_first() =~= b.skip(i + 1));
}

/// Whether `(a, a_port)` comes no later than `(b, b_port)`.
pub fn text_port_le_exec(a: &str, a_port: u16, b: &str, b_port: u16) -> (r: bool)
    ensures
        r == text_port_le(a@, a_port, b@, b_port),
{
    let ab = a.as_bytes();
    let bb = b.as_bytes();
    let n = if ab.len() < bb.len() { ab.len() } else { bb.len() };
    let ghost sa = ab@;
    let ghost sb = bb@;
    assert(sa.skip(0) =~= sa);
    assert(sb.skip(0) =~= sb);
    let mut i: usize = 0;
    while i < n
        invariant
            sa == ab@,
            sb == bb@,
            sa == utf8_of(a@),
            sb == utf8_of(b@),
            n <= sa.len(),
            n <= sb.len(),
            n == sa.len() || n == sb.len(),
            i <= n,
            sa.subrange(0, i as int) == sb.subrange(0, i as int),
            bytes_lt(sa, sb) == bytes_lt(sa.skip(i as int), sb.skip(i as int)),
        decreases n - i,
    {
        if ab[i] != bb[i] {
            proof {
                let x = sa.skip(i as int);
                let y = sb.skip(i as int);
                assert(x.len() > 0 && y.len() > 0);
                assert(x[0] == sa[i as int]);
                assert(y[0] == sb[i as int]);
                assert(x[0] != y[0]);
                assert(bytes_lt(x, y) == (x[0] < y[0]));
                assert(sa != sb) by {
                    if sa == sb {
                        assert(sa[i as int] == sb[i as int]);
                    }
                }
                assert(utf8_of(a@) == sa);
                assert(utf8_of(b@) == sb);
            }
            return if ab[i] < bb[i] {
                true
            } else {
                false
            };
        }
        proof {
            lemma_bytes_lt_step(sa, sb, i as int);
            assert(sa.subrange(0, i + 1) =~= sa.subrange(0, i as int).push(sa[i as int]));
            assert(sb.subrange(0, i + 1) =~= sb.subrange(0, i as int).push(sb[i as int]));
        }
        i = i + 1;
    }
    proof {
        let x = sa.skip(n as int);
        let y = sb.skip(n as int);
        if sa.len() == sb.len() {
            assert(sa =~= sa.subrange(0, n as int));
            assert(sb =~= sb.subrange(0, n as int));
            assert(x.len() == 0 && y.len() == 0);
        } else {
            assert(sa != sb);
        }
    }
    if ab.len() != bb.len() {
        ab.len() < bb.len()
    } else {
        a_port <= b_port
    }
}

} // verus!
