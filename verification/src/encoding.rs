//! Vectors as text: the base64 of their numbers' bytes.
use vstd::prelude::*;
use vstd::string::*;
use base64::Engine;

verus! {

broadcast use group_string_axioms;

/// The symbol of a value below 64 in the standard base64 alphabet.
pub open spec fn symbol(v: int) -> char {
    if v < 26 {
        ((65 + v) as u8) as char
    } else if v < 52 {
        ((71 + v) as u8) as char
    } else if v < 62 {
        ((v - 4) as u8) as char
    } else if v == 62 {
        '+'
    } else {
        '/'
    }
}

/// The standard base64 of some bytes: each three bytes are four symbols of six
/// bits; one or two bytes at the end are padded with zero bits and equals
/// signs.
pub open spec fn base64_of(b: Seq<u8>) -> Seq<char>
    decreases b.len(),
{
    if b.len() == 0 {
        Seq::empty()
    } else if b.len() == 1 {
        seq![symbol((b[0] / 4) as int), symbol(b[0] % 4 * 16), '=', '=']
    } else if b.len() == 2 {
        seq![
            symbol((b[0] / 4) as int),
            symbol(b[0] % 4 * 16 + b[1] / 16),
            symbol(b[1] % 16 * 4),
            '=',
        ]
    } else {
        seq![
            symbol((b[0] / 4) as int),
            symbol(b[0] % 4 * 16 + b[1] / 16),
            symbol(b[1] % 16 * 4 + b[2] / 64),
            symbol((b[2] % 64) as int),
        ] + base64_of(b.skip(3))
    }
}

/// `base64::Engine::encode` of `base64::engine::general_purpose::STANDARD`:
/// the standard alphabet, with padding.
#[verifier::external_body]
fn standard_base64(bytes: &[u8]) -> (r: String)
    ensures
        r@ == base64_of(bytes@),
{
    base64::engine::general_purpose::STANDARD.encode(bytes)
}

/// `base64::Engine::decode` of `base64::engine::general_purpose::STANDARD`: the
/// bytes whose standard base64 a text is, if there are such bytes.
#[verifier::external_body]
pub(crate) fn decode_base64(text: &str) -> (r: Option<Vec<u8>>)
    ensures
        match r {
            Some(bytes) => base64_of(bytes@) == text@,
            None => forall|bytes: Seq<u8>| #[trigger] base64_of(bytes) != text@,
        },
{
    base64::engine::general_purpose::STANDARD.decode(text).ok()
}

/// A number's bytes, the least significant first.
pub open spec fn bytes_of_number(n: u32) -> Seq<u8> {
    seq![
        (n % 256) as u8,
        (n / 256 % 256) as u8,
        (n / 65536 % 256) as u8,
        (n / 16777216) as u8,
    ]
}

/// The bytes of a vector's numbers, one number after the other.
pub open spec fn bytes_of_vector(v: Seq<u32>) -> Seq<u8>
    decreases v.len(),
{
    if v.len() == 0 {
        Seq::empty()
    } else {
        bytes_of_vector(v.drop_last()) + bytes_of_number(v.last())
    }
}

/// A vector as base64 of its numbers' bytes.
pub fn encode_base64(vec: &Vec<u32>) -> (r: String)
    ensures
        r@ == base64_of(bytes_of_vector(vec@)),
{
    let mut bytes: Vec<u8> = Vec::new();
    let mut i: usize = 0;
    while i < vec.len()
        invariant
            i <= vec.len(),
            bytes@ == bytes_of_vector(vec@.take(i as int)),
        decreases vec.len() - i,
    {
        let n: u32 = vec[i];
        let ghost before: Seq<u8> = bytes@;
        bytes.push((n % 256) as u8);
        bytes.push((n / 256 % 256) as u8);
        bytes.push((n / 65536 % 256) as u8);
        bytes.push((n / 16777216) as u8);
        proof {
            assert(vec@.take(i + 1).drop_last() =~= vec@.take(i as int));
            assert(bytes@ =~= before + bytes_of_number(n));
        }
        i = i + 1;
    }
    assert(vec@.take(i as int) =~= vec@);
    standard_base64(bytes.as_slice())
}

proof fn lemma_symbol_is_injective(a: int, b: int)
    requires
        0 <= a < 64,
        0 <= b < 64,
        symbol(a) == symbol(b),
    ensures
        a == b,
{
}

proof fn lemma_symbol_is_no_padding(a: int)
    requires
        0 <= a < 64,
    ensures
        symbol(a) != '=',
{
}

proof fn lemma_base64_len(b: Seq<u8>)
    ensures
        base64_of(b).len() == 4 * ((b.len() + 2) / 3),
    decreases b.len(),
{
    if b.len() >= 3 {
        lemma_base64_len(b.skip(3));
    }
}

proof fn lemma_first_symbols(b: Seq<u8>)
    requires
        b.len() > 0,
    ensures
        base64_of(b).len() >= 4,
        base64_of(b)[0] == symbol((b[0] / 4) as int),
        b.len() == 1 ==> base64_of(b)[1] == symbol(b[0] % 4 * 16) && base64_of(b)[2] == '=',
        b.len() >= 2 ==> base64_of(b)[1] == symbol(b[0] % 4 * 16 + b[1] / 16),
        b.len() == 2 ==> base64_of(b)[2] == symbol(b[1] % 16 * 4) && base64_of(b)[3] == '=',
        b.len() >= 3 ==> base64_of(b)[2] == symbol(b[1] % 16 * 4 + b[2] / 64) && base64_of(b)[3]
            == symbol((b[2] % 64) as int) && base64_of(b).skip(4) == base64_of(b.skip(3)),
{
    if b.len() >= 3 {
        assert(base64_of(b).skip(4) =~= base64_of(b.skip(3)));
    }
}

/// Bytes with the same base64 are the same.
pub proof fn lemma_base64_is_injective(a: Seq<u8>, b: Seq<u8>)
    requires
        base64_of(a) == base64_of(b),
    ensures
        a == b,
    decreases a.len(),
{
    lemma_base64_len(a);
    lemma_base64_len(b);
    if a.len() == 0 {
        assert(a =~= b);
    } else {
        lemma_first_symbols(a);
        lemma_first_symbols(b);
        lemma_symbol_is_injective((a[0] / 4) as int, (b[0] / 4) as int);
        if a.len() >= 2 {
            lemma_symbol_is_no_padding(a[1] % 16 * 4);
            if a.len() >= 3 {
                lemma_symbol_is_no_padding(a[1] % 16 * 4 + a[2] / 64);
                lemma_symbol_is_no_padding((a[2] % 64) as int);
            }
        }
        if b.len() >= 2 {
            lemma_symbol_is_no_padding(b[1] % 16 * 4);
            if b.len() >= 3 {
                lemma_symbol_is_no_padding(b[1] % 16 * 4 + b[2] / 64);
                lemma_symbol_is_no_padding((b[2] % 64) as int);
            }
        }
        if a.len() == 1 {
            assert(b.len() == 1);
            lemma_symbol_is_injective(a[0] % 4 * 16, b[0] % 4 * 16);
        } else if a.len() == 2 {
            assert(b.len() == 2);
            lemma_symbol_is_injective(a[0] % 4 * 16 + a[1] / 16, b[0] % 4 * 16 + b[1] / 16);
            lemma_symbol_is_injective(a[1] % 16 * 4, b[1] % 16 * 4);
        } else {
            assert(b.len() >= 3);
            lemma_symbol_is_injective(a[0] % 4 * 16 + a[1] / 16, b[0] % 4 * 16 + b[1] / 16);
            lemma_symbol_is_injective(
                a[1] % 16 * 4 + a[2] / 64,
                b[1] % 16 * 4 + b[2] / 64,
            );
            lemma_symbol_is_injective((a[2] % 64) as int, (b[2] % 64) as int);
            lemma_base64_is_injective(a.skip(3), b.skip(3));
            assert forall|i: int| 0 <= i < a.len() implies a[i] == b[i] by {
                if i >= 3 {
                    assert(a[i] == a.skip(3)[i - 3]);
                    assert(b[i] == b.skip(3)[i - 3]);
                }
            }
            assert(a.skip(3).len() == b.skip(3).len());
        }
        assert(a =~= b);
    }
}

proof fn lemma_number_bytes_are_injective(p: u32, q: u32)
    requires
        bytes_of_number(p) == bytes_of_number(q),
    ensures
        p == q,
{
    let x: Seq<u8> = bytes_of_number(p);
    let y: Seq<u8> = bytes_of_number(q);
    assert(x[0] == y[0] && x[1] == y[1] && x[2] == y[2] && x[3] == y[3]);
    lemma_number_from_bytes(p);
    lemma_number_from_bytes(q);
}

proof fn lemma_number_from_bytes(n: u32)
    ensures
        n == (n % 256) as u8 + 256 * ((n / 256 % 256) as u8) + 65536 * ((n / 65536 % 256) as u8)
            + 16777216 * ((n / 16777216) as u8),
{
    assert(n == n % 256 + 256 * (n / 256 % 256) + 65536 * (n / 65536 % 256) + 16777216 * (n
        / 16777216)) by (bit_vector);
}

proof fn lemma_vector_bytes_are_injective(v: Seq<u32>, w: Seq<u32>)
    requires
        bytes_of_vector(v) == bytes_of_vector(w),
    ensures
        v == w,
    decreases v.len(),
{
    lemma_vector_bytes_len(v);
    lemma_vector_bytes_len(w);
    if v.len() > 0 {
        let x: Seq<u8> = bytes_of_vector(v);
        let y: Seq<u8> = bytes_of_vector(w);
        let n: int = 4 * (v.len() - 1);
        lemma_vector_bytes_len(v.drop_last());
        lemma_vector_bytes_len(w.drop_last());
        assert(x.take(n) =~= bytes_of_vector(v.drop_last()));
        assert(y.take(n) =~= bytes_of_vector(w.drop_last()));
        lemma_vector_bytes_are_injective(v.drop_last(), w.drop_last());
        let p: u32 = v.last();
        let q: u32 = w.last();
        assert(x.skip(n) =~= bytes_of_number(p));
        assert(y.skip(n) =~= bytes_of_number(q));
        lemma_number_bytes_are_injective(p, q);
        assert(v =~= v.drop_last().push(p));
        assert(w =~= w.drop_last().push(q));
    } else {
        assert(v =~= w);
    }
}

proof fn lemma_vector_bytes_len(v: Seq<u32>)
    ensures
        bytes_of_vector(v).len() == 4 * v.len(),
    decreases v.len(),
{
    if v.len() > 0 {
        lemma_vector_bytes_len(v.drop_last());
    }
}

/// Base64 loses nothing: vectors with the same text are the same, bit for
/// bit.
pub proof fn law_base64_is_lossless(v: Seq<u32>, w: Seq<u32>)
    requires
        base64_of(bytes_of_vector(v)) == base64_of(bytes_of_vector(w)),
    ensures
        v == w,
{
    lemma_base64_is_injective(bytes_of_vector(v), bytes_of_vector(w));
    lemma_vector_bytes_are_injective(v, w);
}

/// A vector's bytes are those of its numbers, four each and in order, the least
/// significant first.
pub proof fn law_bytes_of_a_vector(v: Seq<u32>, i: int)
    requires
        0 <= i < v.len(),
    ensures
        bytes_of_vector(v).len() == 4 * v.len(),
        v[i] == bytes_of_vector(v)[4 * i] + 256 * bytes_of_vector(v)[4 * i + 1] + 65536
            * bytes_of_vector(v)[4 * i + 2] + 16777216 * bytes_of_vector(v)[4 * i + 3],
    decreases v.len(),
{
    lemma_vector_bytes_len(v);
    let rest: Seq<u32> = v.drop_last();
    lemma_vector_bytes_len(rest);
    if i < rest.len() {
        law_bytes_of_a_vector(rest, i);
        assert(rest[i] == v[i]);
    } else {
        lemma_number_from_bytes(v[i]);
    }
}

/// Base64 goes three bytes at a time: the symbols of some bytes behind a multiple
/// of three others come behind the symbols of these.
pub proof fn law_base64_goes_in_threes(a: u8, b: u8, c: u8, rest: Seq<u8>)
    ensures
        base64_of(seq![a, b, c] + rest) == base64_of(seq![a, b, c]) + base64_of(rest),
        base64_of(seq![a, b, c]).len() == 4,
        base64_of(Seq::<u8>::empty()).len() == 0,
{
    let s: Seq<u8> = seq![a, b, c] + rest;
    assert(s.skip(3) =~= rest);
    assert(seq![a, b, c].skip(3) =~= Seq::<u8>::empty());
    assert(base64_of(Seq::<u8>::empty()) =~= Seq::<char>::empty());
    assert(base64_of(s) =~= base64_of(seq![a, b, c]) + base64_of(rest));
}

/// The digits of Base64 are the capital letters, the small letters, the decimal
/// digits, `+` and `/`.
pub proof fn law_base64_digits(v: int)
    ensures
        0 <= v < 26 ==> symbol(v) as int == 'A' as int + v,
        26 <= v < 52 ==> symbol(v) as int == 'a' as int + (v - 26),
        52 <= v < 62 ==> symbol(v) as int == '0' as int + (v - 52),
        symbol(62) == '+',
        symbol(63) == '/',
{
}

/// Three bytes are one number, written in four digits of base 64, the highest
/// first; a remainder of one or two bytes is filled up with zero bits, and its
/// missing digits are `=`.
pub proof fn law_base64_is_a_number_in_base_64(a: u8, b: u8, c: u8)
    ensures
        ({
            let n: int = 65536 * a + 256 * b + c;
            &&& base64_of(seq![a, b, c]) == seq![
                symbol(n / 262144),
                symbol(n / 4096 % 64),
                symbol(n / 64 % 64),
                symbol(n % 64),
            ]
        }),
        ({
            let n: int = 4 * (256 * a + b);
            base64_of(seq![a, b]) == seq![
                symbol(n / 4096),
                symbol(n / 64 % 64),
                symbol(n % 64),
                '=',
            ]
        }),
        base64_of(seq![a]) == seq![symbol(16 * a / 64), symbol(16 * a % 64), '=', '='],
{
    lemma_digits_of_a_number(a, b, c);
    assert(seq![a, b, c].skip(3) =~= Seq::<u8>::empty());
    assert(base64_of(Seq::<u8>::empty()) =~= Seq::<char>::empty());
    assert(base64_of(seq![a, b, c]) =~= seq![
        symbol((a / 4) as int),
        symbol(a % 4 * 16 + b / 16),
        symbol(b % 16 * 4 + c / 64),
        symbol((c % 64) as int),
    ]);
}

/// The bytes of a vector are those of its numbers, one behind the other.
pub proof fn law_bytes_go_number_by_number(v: Seq<u32>, n: u32)
    ensures
        bytes_of_vector(Seq::empty()).len() == 0,
        bytes_of_vector(v.push(n)) == bytes_of_vector(v) + bytes_of_number(n),
        bytes_of_number(n).len() == 4,
        bytes_of_number(n)[0] + 256 * bytes_of_number(n)[1] + 65536 * bytes_of_number(n)[2]
            + 16777216 * bytes_of_number(n)[3] == n,
{
    assert(v.push(n).drop_last() =~= v);
    lemma_number_from_bytes(n);
}

/// The digits of base 64, from the bits of the bytes.
proof fn lemma_digits_of_a_number(a: u8, b: u8, c: u8)
    ensures
        (65536 * a + 256 * b + c) / 262144 == a / 4,
        (65536 * a + 256 * b + c) / 4096 % 64 == a % 4 * 16 + b / 16,
        (65536 * a + 256 * b + c) / 64 % 64 == b % 16 * 4 + c / 64,
        (65536 * a + 256 * b + c) % 64 == c % 64,
        4 * (256 * a + b) / 4096 == a / 4,
        4 * (256 * a + b) / 64 % 64 == a % 4 * 16 + b / 16,
        4 * (256 * a + b) % 64 == b % 16 * 4,
        16 * a / 64 == a / 4,
        16 * a % 64 == a % 4 * 16,
{
    let n: int = 65536 * a + 256 * b + c;
    let m: int = 4 * (256 * a + b);
    let (a1, a0): (int, int) = ((a / 4) as int, (a % 4) as int);
    let (b1, b0): (int, int) = ((b / 16) as int, (b % 16) as int);
    let (c1, c0): (int, int) = ((c / 64) as int, (c % 64) as int);
    assert(n == 262144 * a1 + 4096 * (16 * a0 + b1) + 64 * (4 * b0 + c1) + c0);
    assert(n / 262144 == a1);
    assert(n / 4096 == 64 * a1 + (16 * a0 + b1));
    assert(n / 64 == 64 * (64 * a1 + (16 * a0 + b1)) + (4 * b0 + c1));
    assert(m == 4096 * a1 + 64 * (16 * a0 + b1) + 4 * b0);
    assert(m / 4096 == a1);
    assert(m / 64 == 64 * a1 + (16 * a0 + b1));
}

} // verus!
