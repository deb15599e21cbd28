use vstd::prelude::*;
use vstd::string::{StrSliceExecFns, StringExecFns};

verus! {

/// The bytes of an ASCII character sequence, one byte per character.
pub open spec fn ascii_bytes(s: Seq<char>) -> Seq<u8> {
    Seq::new(s.len(), |i: int| s[i] as u8)
}

/// Copies the bytes of an ASCII string slice.
pub(crate) fn ascii_tag_bytes(s: &str) -> (r: Vec<u8>)
    requires
        vstd::string::is_ascii(s),
    ensures
        r@ == ascii_bytes(s@),
{
    let v = s.as_bytes_vec();
    proof {
        vstd::string::is_ascii_spec_bytes(s);
        assert(v@ =~= ascii_bytes(s@));
    }
    v
}

/// The big-endian bytes of a 64-bit integer.
pub open spec fn u64_be_bytes(n: u64) -> Seq<u8> {
    seq![
        (n >> 56) as u8,
        (n >> 48) as u8,
        (n >> 40) as u8,
        (n >> 32) as u8,
        (n >> 24) as u8,
        (n >> 16) as u8,
        (n >> 8) as u8,
        n as u8,
    ]
}

/// Writes a 64-bit integer as its eight big-endian bytes.
pub fn u64_to_be(n: u64) -> (r: Vec<u8>)
    ensures
        r@ == u64_be_bytes(n),
{
    let mut r: Vec<u8> = Vec::new();
    r.push(#[verifier::truncate] ((n >> 56) as u8));
    r.push(#[verifier::truncate] ((n >> 48) as u8));
    r.push(#[verifier::truncate] ((n >> 40) as u8));
    r.push(#[verifier::truncate] ((n >> 32) as u8));
    r.push(#[verifier::truncate] ((n >> 24) as u8));
    r.push(#[verifier::truncate] ((n >> 16) as u8));
    r.push(#[verifier::truncate] ((n >> 8) as u8));
    r.push(#[verifier::truncate] (n as u8));
    proof {
        assert(r@ =~= u64_be_bytes(n));
    }
    r
}

/// The big-endian bytes of a 32-bit integer.
pub open spec fn u32_be_bytes(n: u32) -> Seq<u8> {
    seq![(n >> 24) as u8, (n >> 16) as u8, (n >> 8) as u8, n as u8]
}

/// Writes a 32-bit integer as its four big-endian bytes.
pub fn u32_to_be(n: u32) -> (r: Vec<u8>)
    ensures
        r@ == u32_be_bytes(n),
{
    let mut r: Vec<u8> = Vec::new();
    r.push(#[verifier::truncate] ((n >> 24) as u8));
    r.push(#[verifier::truncate] ((n >> 16) as u8));
    r.push(#[verifier::truncate] ((n >> 8) as u8));
    r.push(#[verifier::truncate] (n as u8));
    proof {
        assert(r@ =~= u32_be_bytes(n));
    }
    r
}

/// The concatenation of a list of byte strings, in order.
pub open spec fn concat_bytes(parts: Seq<Seq<u8>>) -> Seq<u8>
    decreases parts.len(),
{
    if parts.len() == 0 {
        Seq::empty()
    } else {
        parts[0] + concat_bytes(parts.drop_first())
    }
}

/// Appending a part appends its bytes.
pub proof fn lemma_concat_bytes_push(parts: Seq<Seq<u8>>, p: Seq<u8>)
    ensures
        concat_bytes(parts.push(p)) == concat_bytes(parts) + p,
    decreases parts.len(),
{
    if parts.len() == 0 {
        assert(parts.push(p)[0] == p);
        assert(parts.push(p).drop_first() =~= parts);
        assert(concat_bytes(parts.push(p)) =~= concat_bytes(parts) + p);
    } else {
        assert(parts.push(p)[0] == parts[0]);
        assert(parts.push(p).drop_first() =~= parts.drop_first().push(p));
        lemma_concat_bytes_push(parts.drop_first(), p);
        assert(concat_bytes(parts.push(p)) =~= concat_bytes(parts) + p);
    }
}

/// The lower-case hexadecimal digit for a value below 16.
pub open spec fn hex_digit(n: u8) -> char {
    "0123456789abcdef"@[n as int]
}

/// The lower-case hexadecimal rendering of a byte string, two digits per
/// byte, high nibble first.
pub open spec fn hex_of(bytes: Seq<u8>) -> Seq<char>
    decreases bytes.len(),
{
    if bytes.len() == 0 {
        Seq::empty()
    } else {
        seq![hex_digit(bytes[0] / 16), hex_digit(bytes[0] % 16)] + hex_of(bytes.drop_first())
    }
}

/// Appending a byte appends its two digits.
proof fn lemma_hex_of_push(s: Seq<u8>, b: u8)
    ensures
        hex_of(s.push(b)) == hex_of(s) + seq![hex_digit(b / 16), hex_digit(b % 16)],
    decreases s.len(),
{
    if s.len() == 0 {
        assert(s.push(b)[0] == b);
        assert(s.push(b).drop_first() =~= s);
        assert(hex_of(s.push(b)) =~= hex_of(s) + seq![hex_digit(b / 16), hex_digit(b % 16)]);
    } else {
        assert(s.push(b)[0] == s[0]);
        assert(s.push(b).drop_first() =~= s.drop_first().push(b));
        lemma_hex_of_push(s.drop_first(), b);
        assert(hex_of(s.push(b)) =~= hex_of(s) + seq![hex_digit(b / 16), hex_digit(b % 16)]);
    }
}

/// Appends the hexadecimal digit of a value below 16.
fn push_hex_digit(s: &mut String, d: u8)
    requires
        d < 16,
    ensures
        final(s)@ == old(s)@ + seq![hex_digit(d)],
{
    let alpha = "0123456789abcdef";
    proof {
        reveal_strlit("0123456789abcdef");
    }
    if alpha.is_ascii() {
        let dig: &str = alpha.substring_ascii(d as usize, d as usize + 1);
        s.append(dig);
        proof {
            assert(dig@ =~= seq![hex_digit(d)]);
        }
    } else {
        proof {
            assert(vstd::string::is_ascii(alpha)) by {
                assert(forall|i: int|
                    0 <= i < alpha@.len() ==> '\0' <= #[trigger] alpha@[i] <= '\u{7f}');
            }
            assert(false);
        }
    }
}

/// Renders a byte string in lower-case hexadecimal.
pub fn encode(bytes: &[u8]) -> (r: String)
    ensures
        r@ == hex_of(bytes@),
{
    let mut r = String::new();
    let n: usize = bytes.len();
    let mut i: usize = 0;
    while i < n
        invariant
            0 <= i <= n,
            n == bytes@.len(),
            r@ == hex_of(bytes@.subrange(0, i as int)),
        decreases n - i,
    {
        let b = bytes[i];
        push_hex_digit(&mut r, b / 16);
        push_hex_digit(&mut r, b % 16);
        proof {
            assert(bytes@.subrange(0, i as int).push(bytes@[i as int]) =~= bytes@.subrange(
                0,
                i + 1 as int,
            ));
            lemma_hex_of_push(bytes@.subrange(0, i as int), bytes@[i as int]);
            assert(r@ =~= hex_of(bytes@.subrange(0, i + 1 as int)));
        }
        i += 1;
    }
    proof {
        assert(bytes@.subrange(0, n as int) =~= bytes@);
    }
    r
}

} // verus!
