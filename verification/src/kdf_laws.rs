//! What the parameter string of a vault is for: it says with which costs and which salt the
//! phrase gives the key, in one way only, and no costs that would exhaust the machine.

use vstd::prelude::*;
use crate::kdf::KdfView;

verus! {

/// One cost in the string.
pub open spec fn cost_text(name: Seq<char>, v: u32) -> Seq<char> {
    name + seq!['='] + crate::text::decimal(v as int)
}

/// The string with these costs and this salt.
pub open spec fn params_text(k: KdfView) -> Seq<char> {
    "argon2id"@ + seq!['$'] + ("v=19"@ + seq!['$'] + (costs_text(k) + seq!['$']
        + crate::codec::base64_text(k.salt)))
}

/// The three costs in the string.
pub open spec fn costs_text(k: KdfView) -> Seq<char> {
    cost_text("m"@, k.m_cost) + seq![','] + (cost_text("t"@, k.t_cost) + seq![','] + cost_text(
        "p"@,
        k.p_cost,
    ))
}

/// Between 8 KiB, with 8 for each lane, and 1 GiB of memory, up to 64 passes and up to 64
/// lanes; a salt of 8 bytes or more.
pub open spec fn within_bounds(k: KdfView) -> bool {
    &&& 8 <= k.m_cost <= 1048576
    &&& 1 <= k.t_cost <= 64
    &&& 1 <= k.p_cost <= 64
    &&& 8 * k.p_cost <= k.m_cost
    &&& k.salt.len() >= 8
}

/// The pieces with `c` between them.
spec fn glued(ps: Seq<Seq<char>>, c: char) -> Seq<char>
    decreases ps.len(),
{
    if ps.len() == 0 {
        seq![]
    } else if ps.len() == 1 {
        ps[0]
    } else {
        ps[0] + seq![c] + glued(ps.skip(1), c)
    }
}

proof fn lemma_glued(s: Seq<char>, c: char)
    ensures
        glued(crate::kdf::pieces(s, c), c) == s,
        crate::kdf::pieces(s, c).len() >= 1,
    decreases s.len(),
{
    let n = crate::kdf::until(s, c) as int;
    let ps = crate::kdf::pieces(s, c);
    crate::kdf::lemma_until(s, c);
    if n < s.len() {
        let rest = s.skip(n + 1);
        lemma_glued(rest, c);
        assert(ps.skip(1) =~= crate::kdf::pieces(rest, c));
        assert(ps[0] == s.take(n));
        assert(s =~= s.take(n) + seq![c] + rest);
    }
}

proof fn lemma_cost_named(s: Seq<char>, name: Seq<char>, v: u32)
    requires
        !name.contains('='),
    ensures
        crate::kdf::cost_named(s, name) == Some(v) <==> s == cost_text(name, v),
{
    let n = crate::kdf::until(s, '=') as int;
    crate::kdf::lemma_until(s, '=');
    if crate::kdf::cost_named(s, name) == Some(v) {
        assert(s =~= s.take(n) + seq!['='] + s.skip(n + 1));
    }
    if s == cost_text(name, v) {
        assert forall|i: int| 0 <= i < name.len() implies s[i] != '=' by {
            assert(name.contains(name[i]));
        }
        crate::kdf::lemma_until_is(s, '=', name.len() as int);
        assert(s.take(name.len() as int) =~= name);
        let d = s.skip(name.len() as int + 1);
        assert(d =~= crate::text::decimal(v as int));
        crate::word_laws::lemma_digits_read(v as nat);
        assert('0' <= d[0] <= '9');
        assert(crate::text::number(d, false) == Some(v as int));
    }
}

proof fn lemma_no_sign(s: Seq<char>, c: char)
    requires
        crate::text::all_digits(s),
        c < '0' || '9' < c,
    ensures
        !s.contains(c),
{
    if s.contains(c) {
        let i = choose|i: int| 0 <= i < s.len() && s[i] == c;
        assert('0' <= s[i] <= '9');
    }
}

proof fn lemma_cost_without(name: Seq<char>, v: u32, c: char)
    requires
        !name.contains(c),
        c == '$' || c == ',',
    ensures
        !cost_text(name, v).contains(c),
{
    let d = crate::text::decimal(v as int);
    crate::word_laws::lemma_digits_read(v as nat);
    lemma_no_sign(d, c);
    let s = cost_text(name, v);
    if s.contains(c) {
        let i = choose|i: int| 0 <= i < s.len() && s[i] == c;
        if i < name.len() {
            assert(name.contains(name[i]));
        } else if i > name.len() {
            assert(d.contains(d[i - name.len() - 1]));
        }
    }
}

proof fn lemma_both_without(a: Seq<char>, b: Seq<char>, c: char)
    requires
        !a.contains(c),
        !b.contains(c),
        c != ',',
    ensures
        !(a + seq![','] + b).contains(c),
{
    let s = a + seq![','] + b;
    if s.contains(c) {
        let i = choose|i: int| 0 <= i < s.len() && s[i] == c;
        if i < a.len() {
            assert(a.contains(a[i]));
        } else if i > a.len() {
            assert(b.contains(b[i - a.len() - 1]));
        }
    }
}

/// A string is taken for these parameters if and only if it is the one way to write them,
/// and they are within the bounds.
#[verifier::spinoff_prover]
#[verifier::rlimit(60)]
pub proof fn lemma_params_have_one_text(s: Seq<char>, k: KdfView)
    ensures
        crate::kdf::parsed_kdf(s) == Some(k) <==> s == params_text(k) && within_bounds(k),
{
    reveal_strlit("m");
    reveal_strlit("t");
    reveal_strlit("p");
    reveal_strlit("argon2id");
    reveal_strlit("v=19");
    let ps = crate::kdf::pieces(s, '$');
    if crate::kdf::parsed_kdf(s) == Some(k) {
        let cs = crate::kdf::pieces(ps[2], ',');
        lemma_glued(s, '$');
        lemma_glued(ps[2], ',');
        assert(ps.skip(1).skip(1).skip(1) =~= seq![ps[3]]);
        assert(cs.skip(1).skip(1) =~= seq![cs[2]]);
        reveal_with_fuel(glued, 5);
        assert(s == ps[0] + seq!['$'] + (ps[1] + seq!['$'] + (ps[2] + seq!['$'] + ps[3])));
        assert(ps[2] == cs[0] + seq![','] + (cs[1] + seq![','] + cs[2]));
        lemma_cost_named(cs[0], "m"@, k.m_cost);
        lemma_cost_named(cs[1], "t"@, k.t_cost);
        lemma_cost_named(cs[2], "p"@, k.p_cost);
        assert(crate::codec::base64_text(k.salt) == ps[3]);
    }
    if s == params_text(k) && within_bounds(k) {
        let a = "argon2id"@;
        let b = "v=19"@;
        let c = costs_text(k);
        let d = crate::codec::base64_text(k.salt);
        let m = cost_text("m"@, k.m_cost);
        let t = cost_text("t"@, k.t_cost);
        let p = cost_text("p"@, k.p_cost);
        lemma_cost_without("m"@, k.m_cost, '$');
        lemma_cost_without("t"@, k.t_cost, '$');
        lemma_cost_without("p"@, k.p_cost, '$');
        lemma_cost_without("m"@, k.m_cost, ',');
        lemma_cost_without("t"@, k.t_cost, ',');
        lemma_cost_without("p"@, k.p_cost, ',');
        lemma_both_without(t, p, '$');
        lemma_both_without(m, t + seq![','] + p, '$');
        crate::codec::lemma_no_dollar(k.salt);
        crate::codec::lemma_decodes(k.salt);
        crate::kdf::lemma_pieces_first(a, b + seq!['$'] + (c + seq!['$'] + d), '$');
        crate::kdf::lemma_pieces_first(b, c + seq!['$'] + d, '$');
        crate::kdf::lemma_pieces_first(c, d, '$');
        crate::kdf::lemma_pieces_last(d, '$');
        assert(ps =~= seq![a, b, c, d]);
        crate::kdf::lemma_pieces_first(m, t + seq![','] + p, ',');
        crate::kdf::lemma_pieces_first(t, p, ',');
        crate::kdf::lemma_pieces_last(p, ',');
        assert(crate::kdf::pieces(c, ',') =~= seq![m, t, p]);
        lemma_cost_named(m, "m"@, k.m_cost);
        lemma_cost_named(t, "t"@, k.t_cost);
        lemma_cost_named(p, "p"@, k.p_cost);
    }
}

} // verus!
