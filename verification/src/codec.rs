//! Base64 text of bytes, with the standard alphabet and padding.

use vstd::prelude::*;
use base64::Engine;

verus! {

/// The error of the `base64` decoder.
#[verifier::external_type_specification]
#[verifier::external_body]
pub struct ExDecodeError(base64::DecodeError);

/// The character of a six-bit number.
pub open spec fn sextet(n: int) -> char
    recommends
        0 <= n < 64,
{
    if n < 26 {
        ('A' as u32 + n) as char
    } else if n < 52 {
        ('a' as u32 + (n - 26)) as char
    } else if n < 62 {
        ('0' as u32 + (n - 52)) as char
    } else if n == 62 {
        '+'
    } else {
        '/'
    }
}

/// The base64 text of some bytes: four characters for three bytes, the last group
/// padded with `=`.
pub open spec fn base64_text(b: Seq<u8>) -> Seq<char>
    decreases b.len(),
{
    if b.len() == 0 {
        seq![]
    } else if b.len() == 1 {
        seq![sextet(b[0] as int / 4), sextet(b[0] as int % 4 * 16), '=', '=']
    } else if b.len() == 2 {
        seq![
            sextet(b[0] as int / 4),
            sextet(b[0] as int % 4 * 16 + b[1] as int / 16),
            sextet(b[1] as int % 16 * 4),
            '=',
        ]
    } else {
        seq![
            sextet(b[0] as int / 4),
            sextet(b[0] as int % 4 * 16 + b[1] as int / 16),
            sextet(b[1] as int % 16 * 4 + b[2] as int / 64),
            sextet(b[2] as int % 64),
        ] + base64_text(b.skip(3))
    }
}

/// The base64 text of the bytes is no longer than memory can hold at all.
pub open spec fn encodable(b: Seq<u8>) -> bool {
    (b.len() + 2) / 3 * 4 <= isize::MAX
}

/// `Engine::encode` of the `STANDARD` engine of `base64`. The claim: the text is the
/// base64 text of the bytes.
#[verifier::external_body]
fn standard_encode(bytes: &[u8]) -> (r: String)
    requires
        encodable(bytes@),
    ensures
        r@ == base64_text(bytes@),
{
    base64::engine::general_purpose::STANDARD.encode(bytes)
}

/// `Engine::decode` of the `STANDARD` engine of `base64`. The claim: it gives the
/// bytes whose base64 text this is, and an error where there are none; padding and
/// unused bits have to be as the encoder writes them.
#[verifier::external_body]
fn standard_decode(text: &str) -> (r: Result<Vec<u8>, base64::DecodeError>)
    ensures
        match r {
            Ok(b) => base64_text(b@) == text@,
            Err(_) => forall|b: Seq<u8>| #[trigger] base64_text(b) != text@,
        },
{
    base64::engine::general_purpose::STANDARD.decode(text)
}

/// The base64 text of some bytes.
pub fn encode(bytes: &[u8]) -> (r: String)
    requires
        encodable(bytes@),
    ensures
        r@ == base64_text(bytes@),
{
    standard_encode(bytes)
}

/// The bytes that a base64 text stands for, if it is one.
pub open spec fn base64_bytes(s: Seq<char>) -> Option<Seq<u8>> {
    if exists|b: Seq<u8>| #[trigger] base64_text(b) == s {
        Some(choose|b: Seq<u8>| #[trigger] base64_text(b) == s)
    } else {
        None
    }
}

/// The bytes that a base64 text stands for; `None` if it is none.
pub fn decode(text: &str) -> (r: Option<Vec<u8>>)
    ensures
        match (r, base64_bytes(text@)) {
            (Some(b), Some(s)) => b@ == s,
            (None, None) => true,
            _ => false,
        },
{
    match standard_decode(text) {
        Ok(b) => {
            proof {
                lemma_decodes(b@);
            }
            Some(b)
        },
        Err(_) => None,
    }
}

proof fn lemma_sextet(n: int)
    requires
        0 <= n < 64,
    ensures
        sextet(n) != '=',
        sextet(n) != '$',
        sextet(n) as u32 == (if n < 26 {
            65 + n
        } else if n < 52 {
            71 + n
        } else if n < 62 {
            n - 4
        } else if n == 62 {
            43
        } else {
            47
        }),
{
}

proof fn lemma_sextet_same(m: int, n: int)
    requires
        0 <= m < 64,
        0 <= n < 64,
        sextet(m) == sextet(n),
    ensures
        m == n,
{
    lemma_sextet(m);
    lemma_sextet(n);
}

/// The four characters of a group have nothing but its bytes in them.
proof fn lemma_group_same(a: int, b: int, c: int, x: int, y: int, z: int)
    requires
        0 <= a < 256,
        0 <= b < 256,
        0 <= c < 256,
        0 <= x < 256,
        0 <= y < 256,
        0 <= z < 256,
        sextet(a / 4) == sextet(x / 4),
        sextet(a % 4 * 16 + b / 16) == sextet(x % 4 * 16 + y / 16),
        sextet(b % 16 * 4 + c / 64) == sextet(y % 16 * 4 + z / 64),
        sextet(c % 64) == sextet(z % 64),
    ensures
        a == x,
        b == y,
        c == z,
{
    lemma_sextet_same(a / 4, x / 4);
    lemma_sextet_same(a % 4 * 16 + b / 16, x % 4 * 16 + y / 16);
    lemma_sextet_same(b % 16 * 4 + c / 64, y % 16 * 4 + z / 64);
    lemma_sextet_same(c % 64, z % 64);
}

/// Different bytes have different texts.
pub proof fn lemma_text_injective(a: Seq<u8>, b: Seq<u8>)
    requires
        base64_text(a) == base64_text(b),
    ensures
        a == b,
    decreases a.len(),
{
    let s = base64_text(a);
    let q = base64_text(b);
    lemma_text_shape(a);
    lemma_text_shape(b);
    if a.len() == 0 || b.len() == 0 {
        assert(a =~= b);
    } else {
        let n = if a.len() < 3 {
            a.len() as int
        } else {
            3
        };
        let m = if b.len() < 3 {
            b.len() as int
        } else {
            3
        };
        assert(n == m);
        let a1 = if n > 1 {
            a[1] as int
        } else {
            0
        };
        let a2 = if n > 2 {
            a[2] as int
        } else {
            0
        };
        let b1 = if n > 1 {
            b[1] as int
        } else {
            0
        };
        let b2 = if n > 2 {
            b[2] as int
        } else {
            0
        };
        assert(s[0] == q[0] && s[1] == q[1] && s[2] == q[2] && s[3] == q[3]);
        if n == 1 {
            lemma_group_same(a[0] as int, 0, 0, b[0] as int, 0, 0);
            assert(a.len() == 1 && b.len() == 1);
        } else if n == 2 {
            lemma_group_same(a[0] as int, a1, 0, b[0] as int, b1, 0);
            assert(a.len() == 2 && b.len() == 2);
        } else {
            lemma_group_same(a[0] as int, a1, a2, b[0] as int, b1, b2);
            assert(s.skip(4) =~= base64_text(a.skip(3)));
            assert(q.skip(4) =~= base64_text(b.skip(3)));
            lemma_text_injective(a.skip(3), b.skip(3));
            assert(a =~= seq![a[0], a[1], a[2]] + a.skip(3));
            assert(b =~= seq![b[0], b[1], b[2]] + b.skip(3));
        }
        assert(a =~= b);
    }
}

/// Where the padding of the first group stands tells how many bytes it has.
proof fn lemma_text_shape(a: Seq<u8>)
    ensures
        a.len() == 0 <==> base64_text(a).len() == 0,
        a.len() > 0 ==> base64_text(a).len() >= 4,
        a.len() > 0 ==> (base64_text(a)[2] == '=' <==> a.len() == 1),
        a.len() > 0 ==> (base64_text(a)[3] == '=' <==> a.len() <= 2),
{
    if a.len() == 2 {
        lemma_sextet(a[1] as int % 16 * 4);
    } else if a.len() > 2 {
        lemma_sextet(a[1] as int % 16 * 4 + a[2] as int / 64);
        lemma_sextet(a[2] as int % 64);
    }
}

/// Decoding a base64 text gives back the bytes that were encoded.
pub proof fn lemma_decodes(b: Seq<u8>)
    ensures
        base64_bytes(base64_text(b)) == Some(b),
{
    let s = base64_text(b);
    let c = choose|c: Seq<u8>| #[trigger] base64_text(c) == s;
    assert(base64_text(b) == s);
    lemma_text_injective(b, c);
}

/// A base64 text has four characters for three bytes, and needs no escape in JSON.
pub proof fn lemma_text_plain(b: Seq<u8>)
    ensures
        base64_text(b).len() == (b.len() + 2) / 3 * 4,
        forall|i: int|
            0 <= i < base64_text(b).len() ==> ' ' <= #[trigger] base64_text(b)[i] <= '~',
        !base64_text(b).contains('"'),
        !base64_text(b).contains('\\'),
    decreases b.len(),
{
    let s = base64_text(b);
    if b.len() > 0 {
        let b1 = if b.len() > 1 {
            b[1] as int
        } else {
            0
        };
        let b2 = if b.len() > 2 {
            b[2] as int
        } else {
            0
        };
        lemma_sextet(b[0] as int / 4);
        lemma_sextet(b[0] as int % 4 * 16 + b1 / 16);
        lemma_sextet(b1 % 16 * 4 + b2 / 64);
        lemma_sextet(b2 % 64);
        let rest = if b.len() > 3 {
            b.skip(3)
        } else {
            seq![]
        };
        if b.len() > 3 {
            lemma_text_plain(rest);
        } else if b.len() == 3 {
            assert(base64_text(b.skip(3)).len() == 0);
        }
        assert forall|i: int| 0 <= i < s.len() implies ' ' <= #[trigger] s[i] <= '~'
            && s[i] != '"' && s[i] != '\\' by {
            if i >= 4 {
                assert(s[i] == base64_text(rest)[i - 4]);
                assert(base64_text(rest).contains(base64_text(rest)[i - 4]));
            }
        }
    }
}

/// A base64 text holds no `$`.
pub proof fn lemma_no_dollar(b: Seq<u8>)
    ensures
        !base64_text(b).contains('$'),
    decreases b.len(),
{
    let s = base64_text(b);
    if b.len() > 0 {
        let b1 = if b.len() > 1 {
            b[1] as int
        } else {
            0
        };
        let b2 = if b.len() > 2 {
            b[2] as int
        } else {
            0
        };
        lemma_sextet(b[0] as int / 4);
        lemma_sextet(b[0] as int % 4 * 16 + b1 / 16);
        lemma_sextet(b1 % 16 * 4 + b2 / 64);
        lemma_sextet(b2 % 64);
        if b.len() > 3 {
            lemma_no_dollar(b.skip(3));
        }
        if s.contains('$') {
            let i = choose|i: int| 0 <= i < s.len() && s[i] == '$';
            if i >= 4 {
                assert(base64_text(b.skip(3))[i - 4] == '$');
            }
        }
    }
}

} // verus!
