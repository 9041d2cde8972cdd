//! Deriving a vault key from a phrase: the stored parameter string and Argon2id.

use vstd::prelude::*;

verus! {

/// Argon2id cost parameters of a new vault: memory in KiB, passes, lanes.
pub const ARGON_M_COST_KIB: u32 = 65536;

pub const ARGON_T_COST: u32 = 3;

pub const ARGON_P_COST: u32 = 1;

/// Argon2's least memory cost.
pub const MIN_M_KIB: u32 = 8;

/// The highest costs that a stored parameter string may ask for. They lie far over
/// the real ones, and far under what would exhaust the machine.
pub const MAX_M_KIB: u32 = 1048576;

pub const MAX_T: u32 = 64;

pub const MAX_P: u32 = 64;

/// The fewest bytes of a salt.
pub const MIN_SALT: usize = 8;

/// The error of `argon2`.
#[verifier::external_type_specification]
#[verifier::external_body]
pub struct ExArgonError(argon2::Error);

/// What a stored parameter string says.
#[derive(Debug)]
pub struct KdfParams {
    pub salt: Vec<u8>,
    pub m_cost: u32,
    pub t_cost: u32,
    pub p_cost: u32,
}

/// What a [`KdfParams`] holds.
#[verifier::ext_equal]
pub struct KdfView {
    pub salt: Seq<u8>,
    pub m_cost: u32,
    pub t_cost: u32,
    pub p_cost: u32,
}

impl View for KdfParams {
    type V = KdfView;

    open spec fn view(&self) -> KdfView {
        KdfView {
            salt: self.salt@,
            m_cost: self.m_cost,
            t_cost: self.t_cost,
            p_cost: self.p_cost,
        }
    }
}

/// Argon2 accepts these costs.
pub open spec fn costs_accepted(m: u32, t: u32, p: u32) -> bool {
    &&& MIN_M_KIB <= m
    &&& 8 * p <= m
    &&& 1 <= t
    &&& 1 <= p <= 0xFF_FFFF
}

/// `Params::new` of `argon2`, for 32 bytes of output. The claim: it succeeds exactly
/// for at least 8 KiB of memory and 8 per lane, one pass, and between one and
/// 2^24 - 1 lanes. (With more than 2^29 lanes it would multiply past 32 bits.)
#[verifier::external_body]
fn check_costs(m: u32, t: u32, p: u32) -> (r: Result<(), argon2::Error>)
    requires
        p <= 0x1FFF_FFFF,
    ensures
        r is Ok == costs_accepted(m, t, p),
{
    match argon2::Params::new(m, t, p, Some(32)) {
        Ok(_) => Ok(()),
        Err(e) => Err(e),
    }
}

/// The 32 bytes that Argon2id, version 0x13, derives from a password and a salt.
pub uninterp spec fn argon2id(pwd: Seq<u8>, salt: Seq<u8>, m: u32, t: u32, p: u32) -> Seq<u8>;

/// The lengths that Argon2 takes.
pub open spec fn lengths_accepted(pwd: Seq<u8>, salt: Seq<u8>) -> bool {
    pwd.len() <= 0xFFFF_FFFF && MIN_SALT <= salt.len() <= 0xFFFF_FFFF
}

/// `Argon2::hash_password_into` of `argon2`, Argon2id version 0x13 with 32 bytes of
/// output. The claim: it succeeds exactly where the password and the salt have
/// accepted lengths, and what it writes depends on the password, the salt and the
/// costs alone. The costs are held to what is allowed, so that its memory can be had.
#[verifier::external_body]
fn hash_password(pwd: &[u8], salt: &[u8], m: u32, t: u32, p: u32) -> (r: Result<
    [u8; 32],
    argon2::Error,
>)
    requires
        costs_allowed(m, t, p),
    ensures
        r is Ok == lengths_accepted(pwd@, salt@),
        r matches Ok(k) ==> k@ == argon2id(pwd@, salt@, m, t, p),
{
    let params = argon2::Params::new(m, t, p, Some(32))?;
    let argon = argon2::Argon2::new(argon2::Algorithm::Argon2id, argon2::Version::V0x13, params);
    let mut key = [0u8; 32];
    argon.hash_password_into(pwd, salt, &mut key)?;
    Ok(key)
}

/// The parameter string of a new vault with this salt.
pub open spec fn kdf_text(salt: Seq<u8>) -> Seq<char> {
    "argon2id$v=19$m=65536,t=3,p=1$"@ + crate::codec::base64_text(salt)
}

/// Builds the parameter string `argon2id$v=19$m=..,t=..,p=..$<base64 salt>`.
pub fn kdf_string(salt: &[u8]) -> (r: String)
    requires
        crate::codec::encodable(salt@),
    ensures
        r@ == kdf_text(salt@),
{
    crate::error::joined("argon2id$v=19$m=65536,t=3,p=1$", crate::codec::encode(salt).as_str())
}

/// Where `c` first stands in `s`; the length if nowhere.
pub open spec fn until(s: Seq<char>, c: char) -> nat
    decreases s.len(),
{
    if s.len() == 0 || s[0] == c {
        0
    } else {
        1 + until(s.skip(1), c)
    }
}

/// The pieces of `s` between the `c`s.
pub open spec fn pieces(s: Seq<char>, c: char) -> Seq<Seq<char>>
    decreases s.len(),
{
    let n = until(s, c) as int;
    if n >= s.len() {
        seq![s]
    } else {
        seq![s.take(n)] + pieces(s.skip(n + 1), c)
    }
}

/// One cost as the parameter string writes it: the name, `=`, and the number in decimal,
/// without a sign or a needless zero.
pub open spec fn cost_named(s: Seq<char>, name: Seq<char>) -> Option<u32> {
    let n = until(s, '=') as int;
    let rest = s.skip(n + 1);
    if n < s.len() && s.take(n) == name {
        match crate::text::number_in(rest, false, 0, u32::MAX as int) {
            Some(v) => if rest == crate::text::decimal(v) {
                Some(v as u32)
            } else {
                None
            },
            None => None,
        }
    } else {
        None
    }
}

/// The costs are within what is allowed.
pub open spec fn costs_allowed(m: u32, t: u32, p: u32) -> bool {
    &&& MIN_M_KIB <= m <= MAX_M_KIB
    &&& 1 <= t <= MAX_T
    &&& 1 <= p <= MAX_P
    &&& costs_accepted(m, t, p)
}

/// What a parameter string says, if it is a good one: `argon2id$v=19$m=..,t=..,p=..$` and
/// the salt in base64, with the three costs in this order and each of them once.
pub open spec fn parsed_kdf(s: Seq<char>) -> Option<KdfView> {
    let ps = pieces(s, '$');
    if ps.len() != 4 || ps[0] != "argon2id"@ || ps[1] != "v=19"@ {
        None
    } else {
        let cs = pieces(ps[2], ',');
        if cs.len() != 3 {
            None
        } else {
            match (
                cost_named(cs[0], "m"@),
                cost_named(cs[1], "t"@),
                cost_named(cs[2], "p"@),
                crate::codec::base64_bytes(ps[3]),
            ) {
                (Some(m), Some(t), Some(p), Some(salt)) => if salt.len() >= MIN_SALT
                    && costs_allowed(m, t, p) {
                    Some(KdfView { salt, m_cost: m, t_cost: t, p_cost: p })
                } else {
                    None
                },
                _ => None,
            }
        }
    }
}

pub proof fn lemma_until(s: Seq<char>, c: char)
    ensures
        until(s, c) <= s.len(),
        until(s, c) < s.len() ==> s[until(s, c) as int] == c,
        forall|i: int| 0 <= i < until(s, c) ==> s[i] != c,
    decreases s.len(),
{
    if s.len() > 0 && s[0] != c {
        lemma_until(s.skip(1), c);
        assert forall|i: int| 0 <= i < until(s, c) implies s[i] != c by {
            if i > 0 {
                assert(s.skip(1)[i - 1] == s[i]);
            }
        }
    }
}

pub proof fn lemma_until_is(s: Seq<char>, c: char, n: int)
    requires
        0 <= n <= s.len(),
        forall|i: int| 0 <= i < n ==> s[i] != c,
        n < s.len() ==> s[n] == c,
    ensures
        until(s, c) == n,
{
    lemma_until(s, c);
    let u = until(s, c) as int;
    if u < n {
        assert(s[u] != c);
    }
}

/// Where `c` first stands at or behind `from`; the length if nowhere.
fn find_char(v: &Vec<char>, c: char, from: usize) -> (r: usize)
    requires
        from <= v@.len(),
    ensures
        from <= r <= v@.len(),
        r - from == until(v@.skip(from as int), c),
{
    let ghost s = v@.skip(from as int);
    let mut i: usize = from;
    while i < v.len() && v[i] != c
        invariant
            from <= i <= v@.len(),
            s == v@.skip(from as int),
            forall|k: int| 0 <= k < i - from ==> s[k] != c,
        decreases v@.len() - i,
    {
        assert(s[i - from] == v@[i as int]);
        i = i + 1;
    }
    proof {
        if i < v@.len() {
            assert(s[i - from] == v@[i as int]);
        }
        lemma_until_is(s, c, i - from);
    }
    i
}

/// The pieces of `s` between the `c`s.
fn split(s: &Vec<char>, c: char) -> (r: Vec<Vec<char>>)
    ensures
        r@.len() == pieces(s@, c).len(),
        forall|i: int| 0 <= i < r@.len() ==> (#[trigger] r@[i])@ == pieces(s@, c)[i],
{
    let mut r: Vec<Vec<char>> = Vec::new();
    let mut from: usize = 0;
    assert(s@.skip(0) =~= s@);
    loop
        invariant
            from <= s@.len(),
            pieces(s@, c).len() == r@.len() + pieces(s@.skip(from as int), c).len(),
            forall|i: int| 0 <= i < r@.len() ==> (#[trigger] r@[i])@ == pieces(s@, c)[i],
            forall|i: int|
                0 <= i < pieces(s@.skip(from as int), c).len() ==> #[trigger] pieces(
                    s@.skip(from as int),
                    c,
                )[i] == pieces(s@, c)[r@.len() + i],
        decreases s@.len() - from,
    {
        let ghost rest = s@.skip(from as int);
        let to: usize = find_char(s, c, from);
        proof {
            lemma_until(rest, c);
        }
        let piece = part(s, from, to);
        let ghost before = r@;
        r.push(piece);
        if to >= s.len() {
            proof {
                assert(piece@ =~= rest);
                assert(pieces(rest, c) =~= seq![rest]);
                assert(pieces(rest, c)[0] == pieces(s@, c)[before.len() as int]);
            }
            return r;
        }
        proof {
            let n = to - from;
            let after = s@.skip(to + 1);
            assert(rest.skip(n + 1) =~= after);
            assert(rest.take(n) =~= piece@);
            assert(pieces(rest, c) == seq![rest.take(n)] + pieces(after, c));
            assert(pieces(rest, c)[0] == pieces(s@, c)[before.len() as int]);
            assert forall|i: int| 0 <= i < pieces(after, c).len() implies #[trigger] pieces(after, c)[i]
                == pieces(s@, c)[before.len() + 1 + i] by {
                assert(pieces(rest, c)[i + 1] == pieces(after, c)[i]);
            }
        }
        from = to + 1;
    }
}

/// A copy of `v[from..to]`.
fn part(v: &Vec<char>, from: usize, to: usize) -> (r: Vec<char>)
    requires
        from <= to <= v@.len(),
    ensures
        r@ == v@.subrange(from as int, to as int),
{
    let mut r: Vec<char> = Vec::new();
    let mut i: usize = from;
    while i < to
        invariant
            from <= i <= to <= v@.len(),
            r@ == v@.subrange(from as int, i as int),
        decreases to - i,
    {
        r.push(v[i]);
        i = i + 1;
        assert(r@ =~= v@.subrange(from as int, i as int));
    }
    r
}

/// Whether the characters are those of `text`.
fn is_text(v: &Vec<char>, text: &str) -> (r: bool)
    ensures
        r == (v@ == text@),
{
    assert(v@.subrange(0, v@.len() as int) =~= v@);
    crate::text::same_chars(v, 0, v.len(), &crate::text::chars_of(text))
}

/// One cost, if the piece gives the one with this name.
fn read_cost(s: &Vec<char>, name: &str) -> (r: Option<u32>)
    ensures
        r == cost_named(s@, name@),
{
    assert(s@.skip(0) =~= s@);
    let n: usize = find_char(s, '=', 0);
    if n >= s.len() {
        return None;
    }
    assert(s@.take(n as int) == s@.subrange(0, n as int));
    if !is_text(&part(s, 0, n), name) {
        return None;
    }
    assert(s@.skip(n + 1) =~= s@.subrange(n + 1, s@.len() as int));
    match crate::text::parse_u32(s, n + 1, s.len()) {
        None => None,
        Some(v) => {
            let mut text = String::new();
            crate::text::push_digits(&mut text, v as u64);
            assert(text@ =~= crate::text::decimal(v as int));
            if crate::text::same_chars(s, n + 1, s.len(), &crate::text::chars_of(text.as_str())) {
                Some(v)
            } else {
                None
            }
        },
    }
}

/// Reads a parameter string back; `None` for anything but a good one.
pub fn parse_kdf(kdf: &str) -> (r: Option<KdfParams>)
    ensures
        match (r, parsed_kdf(kdf@)) {
            (Some(k), Some(v)) => k@ == v,
            (None, None) => true,
            _ => false,
        },
{
    let ps = split(&crate::text::chars_of(kdf), '$');
    let ghost want = pieces(kdf@, '$');
    if ps.len() != 4 {
        return None;
    }
    assert(ps@[0]@ == want[0] && ps@[1]@ == want[1] && ps@[2]@ == want[2] && ps@[3]@ == want[3]);
    if !is_text(&ps[0], "argon2id") || !is_text(&ps[1], "v=19") {
        return None;
    }
    let cs = split(&ps[2], ',');
    let ghost cw = pieces(want[2], ',');
    if cs.len() != 3 {
        return None;
    }
    assert(cs@[0]@ == cw[0] && cs@[1]@ == cw[1] && cs@[2]@ == cw[2]);
    let m = read_cost(&cs[0], "m");
    let t = read_cost(&cs[1], "t");
    let p = read_cost(&cs[2], "p");
    let text = crate::text::string_of(&ps[3], 0, ps[3].len());
    assert(text@ =~= want[3]);
    let salt = match crate::codec::decode(text.as_str()) {
        Some(b) => b,
        None => {
            return None;
        },
    };
    if salt.len() < MIN_SALT {
        return None;
    }
    match (m, t, p) {
        (Some(m), Some(t), Some(p)) => {
            if m < MIN_M_KIB || m > MAX_M_KIB || t < 1 || t > MAX_T || p < 1 || p > MAX_P {
                return None;
            }
            match check_costs(m, t, p) {
                Ok(_) => Some(KdfParams { salt, m_cost: m, t_cost: t, p_cost: p }),
                Err(_) => None,
            }
        },
        _ => None,
    }
}

/// Derives the 32-byte key; `None` where Argon2 refuses the phrase for its length.
pub fn derive_key(phrase: &str, params: &KdfParams) -> (r: Option<[u8; 32]>)
    requires
        costs_allowed(params.m_cost, params.t_cost, params.p_cost),
    ensures
        match r {
            Some(k) => {
                &&& lengths_accepted(vstd::utf8::encode_utf8(phrase@), params.salt@)
                &&& k@ == argon2id(
                    vstd::utf8::encode_utf8(phrase@),
                    params.salt@,
                    params.m_cost,
                    params.t_cost,
                    params.p_cost,
                )
            },
            None => !lengths_accepted(vstd::utf8::encode_utf8(phrase@), params.salt@),
        },
{
    match hash_password(
        phrase.as_bytes(),
        params.salt.as_slice(),
        params.m_cost,
        params.t_cost,
        params.p_cost,
    ) {
        Ok(k) => Some(k),
        Err(_) => None,
    }
}

pub proof fn lemma_pieces_first(a: Seq<char>, b: Seq<char>, c: char)
    requires
        !a.contains(c),
    ensures
        pieces(a + seq![c] + b, c) == seq![a] + pieces(b, c),
{
    let s = a + seq![c] + b;
    assert forall|i: int| 0 <= i < a.len() implies s[i] != c by {
        assert(a.contains(a[i]));
    }
    lemma_until_is(s, c, a.len() as int);
    assert(s.take(a.len() as int) =~= a);
    assert(s.skip(a.len() as int + 1) =~= b);
}

pub proof fn lemma_pieces_last(a: Seq<char>, c: char)
    requires
        !a.contains(c),
    ensures
        pieces(a, c) == seq![a],
{
    assert forall|i: int| 0 <= i < a.len() implies a[i] != c by {
        assert(a.contains(a[i]));
    }
    lemma_until_is(a, c, a.len() as int);
}

/// The costs of a new vault, read back.
proof fn lemma_own_costs()
    ensures
        ({
            let cs = pieces("m=65536,t=3,p=1"@, ',');
            &&& cs.len() == 3
            &&& cost_named(cs[0], "m"@) == Some(ARGON_M_COST_KIB)
            &&& cost_named(cs[1], "t"@) == Some(ARGON_T_COST)
            &&& cost_named(cs[2], "p"@) == Some(ARGON_P_COST)
        }),
{
    reveal_strlit("m=65536,t=3,p=1");
    reveal_strlit("m=65536");
    reveal_strlit("t=3,p=1");
    reveal_strlit("t=3");
    reveal_strlit("p=1");
    reveal_strlit("m");
    reveal_strlit("t");
    reveal_strlit("p");
    let a = "m=65536"@;
    let b = "t=3"@;
    let c = "p=1"@;
    assert("m=65536,t=3,p=1"@ =~= a + seq![','] + "t=3,p=1"@);
    assert("t=3,p=1"@ =~= b + seq![','] + c);
    lemma_pieces_first(a, "t=3,p=1"@, ',');
    lemma_pieces_first(b, c, ',');
    lemma_pieces_last(c, ',');
    let cs = pieces("m=65536,t=3,p=1"@, ',');
    assert(cs =~= seq![a, b, c]);
    lemma_until_is(a, '=', 1);
    lemma_until_is(b, '=', 1);
    lemma_until_is(c, '=', 1);
    assert(a.take(1) =~= "m"@);
    assert(b.take(1) =~= "t"@);
    assert(c.take(1) =~= "p"@);
    assert(a.skip(2) =~= seq!['6', '5', '5', '3', '6']);
    assert(b.skip(2) =~= seq!['3']);
    assert(c.skip(2) =~= seq!['1']);
    lemma_digits(a.skip(2), b.skip(2), c.skip(2));
    assert(cost_named(a, "m"@) == Some(ARGON_M_COST_KIB));
    assert(cost_named(b, "t"@) == Some(ARGON_T_COST));
    assert(cost_named(c, "p"@) == Some(ARGON_P_COST));
}

proof fn lemma_digits(a: Seq<char>, b: Seq<char>, c: Seq<char>)
    requires
        a == seq!['6', '5', '5', '3', '6'],
        b == seq!['3'],
        c == seq!['1'],
    ensures
        crate::text::number(a, false) == Some(65536int),
        crate::text::number(b, false) == Some(3int),
        crate::text::number(c, false) == Some(1int),
        a == crate::text::decimal(65536),
        b == crate::text::decimal(3),
        c == crate::text::decimal(1),
{
    reveal_with_fuel(crate::text::digits, 6);
    assert(a.drop_last() =~= seq!['6', '5', '5', '3']);
    assert(a.drop_last().drop_last() =~= seq!['6', '5', '5']);
    assert(a.drop_last().drop_last().drop_last() =~= seq!['6', '5']);
    assert(a.drop_last().drop_last().drop_last().drop_last() =~= seq!['6']);
    assert(b.drop_last() =~= seq![]);
    assert(c.drop_last() =~= seq![]);
    reveal_with_fuel(crate::text::digits_value, 7);
}

/// The parameter string of a new vault says what it was made from.
pub proof fn lemma_kdf_reads_back(salt: Seq<u8>)
    requires
        salt.len() >= MIN_SALT,
    ensures
        parsed_kdf(kdf_text(salt)) == Some(
            KdfView {
                salt,
                m_cost: ARGON_M_COST_KIB,
                t_cost: ARGON_T_COST,
                p_cost: ARGON_P_COST,
            },
        ),
{
    reveal_strlit("argon2id$v=19$m=65536,t=3,p=1$");
    reveal_strlit("argon2id");
    reveal_strlit("v=19");
    reveal_strlit("m=65536,t=3,p=1");
    let a = "argon2id"@;
    let b = "v=19"@;
    let c = "m=65536,t=3,p=1"@;
    let d = crate::codec::base64_text(salt);
    let s = kdf_text(salt);
    assert(s =~= a + seq!['$'] + (b + seq!['$'] + (c + seq!['$'] + d)));
    crate::codec::lemma_no_dollar(salt);
    lemma_pieces_first(a, b + seq!['$'] + (c + seq!['$'] + d), '$');
    lemma_pieces_first(b, c + seq!['$'] + d, '$');
    lemma_pieces_first(c, d, '$');
    lemma_pieces_last(d, '$');
    assert(pieces(s, '$') =~= seq![a, b, c, d]);
    lemma_own_costs();
    crate::codec::lemma_decodes(salt);
}

} // verus!
