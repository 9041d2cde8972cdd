//! Literal, case-insensitive substring search by way of SQL's `LIKE`.

use vstd::prelude::*;

verus! {

/// The small letters that Unicode gives for a character.
pub uninterp spec fn small_of(c: char) -> Seq<char>;

/// The capital letters that Unicode gives for a character.
pub uninterp spec fn capital_of(c: char) -> Seq<char>;

/// `char::to_lowercase`. The claim: what it gives depends on the character alone.
#[verifier::external_body]
fn small(c: char) -> (r: String)
    ensures
        r@ == small_of(c),
{
    c.to_lowercase().to_string()
}

/// `char::to_uppercase`. The claim: what it gives depends on the character alone.
#[verifier::external_body]
fn capital(c: char) -> (r: String)
    ensures
        r@ == capital_of(c),
{
    c.to_uppercase().to_string()
}

/// The small form of an ASCII character.
pub open spec fn ascii_small(c: char) -> char {
    if 'A' <= c <= 'Z' {
        (c as u32 + 32) as char
    } else {
        c
    }
}

/// The two characters are the same but for case. ASCII characters differ in case as `A`
/// and `a` do; of others, it is enough that the small forms or the capital forms agree.
pub open spec fn same_letter(a: char, b: char) -> bool {
    if a <= '\u{7f}' && b <= '\u{7f}' {
        ascii_small(a) == ascii_small(b)
    } else {
        small_of(a) == small_of(b) || capital_of(a) == capital_of(b)
    }
}

fn ascii_small_code(c: char) -> (r: u32)
    ensures
        r == ascii_small(c) as u32,
{
    if 'A' <= c && c <= 'Z' {
        c as u32 + 32
    } else {
        c as u32
    }
}

/// Whether the small forms or the capital forms of two characters agree.
pub fn forms_agree(small_a: &str, small_b: &str, capital_a: &str, capital_b: &str) -> (r: bool)
    ensures
        r == (small_a@ == small_b@ || capital_a@ == capital_b@),
{
    crate::text::same_text(small_a, small_b) || crate::text::same_text(capital_a, capital_b)
}

/// Whether two characters are the same but for case.
pub fn is_same_letter(a: char, b: char) -> (r: bool)
    ensures
        r == same_letter(a, b),
{
    if a <= '\u{7f}' && b <= '\u{7f}' {
        ascii_small_code(a) == ascii_small_code(b)
    } else if a == b {
        true
    } else {
        forms_agree(
            small(a).as_str(),
            small(b).as_str(),
            capital(a).as_str(),
            capital(b).as_str(),
        )
    }
}

/// `q` stands in `text` at `at`, but for case.
pub open spec fn stands_at(text: Seq<char>, q: Seq<char>, at: int) -> bool {
    &&& 0 <= at
    &&& at + q.len() <= text.len()
    &&& forall|k: int| 0 <= k < q.len() ==> same_letter(#[trigger] q[k], text[at + k])
}

/// `q` stands somewhere in `text`, but for case.
pub open spec fn contains_text(text: Seq<char>, q: Seq<char>) -> bool {
    exists|at: int| stands_at(text, q, at)
}

/// One character of a query with its escape, if it needs one.
pub open spec fn escaped_char(c: char) -> Seq<char> {
    if c == '\\' || c == '%' || c == '_' {
        seq!['\\', c]
    } else {
        seq![c]
    }
}

/// A query with the metacharacters of `LIKE` escaped.
pub open spec fn escaped(s: Seq<char>) -> Seq<char>
    decreases s.len(),
{
    if s.len() == 0 {
        seq![]
    } else {
        escaped(s.drop_last()) + escaped_char(s.last())
    }
}

/// The rest of pattern `p` from `i` matches the rest of `s` from `j`, as
/// `LIKE .. ESCAPE '\'` has it: `%` for any text, `_` for any character, the
/// character behind `\` for itself.
pub open spec fn like_from(p: Seq<char>, i: int, s: Seq<char>, j: int) -> bool
    decreases p.len() - i, s.len() - j,
{
    if i >= p.len() {
        j >= s.len()
    } else if p[i] == '%' {
        like_from(p, i + 1, s, j) || (j < s.len() && like_from(p, i, s, j + 1))
    } else if p[i] == '_' {
        j < s.len() && like_from(p, i + 1, s, j + 1)
    } else if p[i] == '\\' {
        i + 1 < p.len() && j < s.len() && same_letter(p[i + 1], s[j]) && like_from(p, i + 2, s, j + 1)
    } else {
        j < s.len() && same_letter(p[i], s[j]) && like_from(p, i + 1, s, j + 1)
    }
}

/// Text `s` matches pattern `p`.
pub open spec fn like(p: Seq<char>, s: Seq<char>) -> bool {
    like_from(p, 0, s, 0)
}

/// Escapes the metacharacters of `LIKE` (`%`, `_` and the escape `\` itself), so
/// that a query is matched literally.
pub fn escape_like(s: &str) -> (r: String)
    ensures
        r@ == escaped(s@),
{
    let v = crate::text::chars_of(s);
    let mut r = String::new();
    let mut i: usize = 0;
    while i < v.len()
        invariant
            v@ == s@,
            i <= v@.len(),
            r@ == escaped(v@.take(i as int)),
        decreases v@.len() - i,
    {
        let c: char = v[i];
        let ghost before = r@;
        if c == '\\' || c == '%' || c == '_' {
            r.push('\\');
        }
        r.push(c);
        proof {
            assert(v@.take(i + 1).drop_last() =~= v@.take(i as int));
            assert(r@ =~= before + escaped_char(c));
        }
        i = i + 1;
    }
    assert(v@.take(v@.len() as int) =~= s@);
    r
}

/// Whether the rest of `s` from `j` matches the rest of `p` from `i`.
fn like_match(p: &Vec<char>, i: usize, s: &Vec<char>, j: usize) -> (r: bool)
    requires
        i <= p@.len(),
        j <= s@.len(),
    ensures
        r == like_from(p@, i as int, s@, j as int),
    decreases p@.len() - i,
{
    let mut a: usize = i;
    let mut b: usize = j;
    while a < p.len()
        invariant
            i <= a <= p@.len(),
            b <= s@.len(),
            like_from(p@, i as int, s@, j as int) == like_from(p@, a as int, s@, b as int),
        decreases p@.len() - a,
    {
        let c: char = p[a];
        if c == '%' {
            let mut k: usize = b;
            loop
                invariant
                    i <= a < p.len(),
                    p@[a as int] == '%',
                    b <= k <= s@.len(),
                    like_from(p@, i as int, s@, j as int) == like_from(p@, a as int, s@, k as int),
                decreases s@.len() - k,
            {
                if like_match(p, a + 1, s, k) {
                    return true;
                }
                if k >= s.len() {
                    return false;
                }
                k = k + 1;
            }
        }
        if b >= s.len() {
            return false;
        }
        if c == '_' {
            a = a + 1;
        } else if c == '\\' {
            if a + 1 >= p.len() || !is_same_letter(p[a + 1], s[b]) {
                return false;
            }
            a = a + 2;
        } else {
            if !is_same_letter(c, s[b]) {
                return false;
            }
            a = a + 1;
        }
        b = b + 1;
    }
    b >= s.len()
}

/// The pattern that finds `q` anywhere.
pub open spec fn anywhere(q: Seq<char>) -> Seq<char> {
    "%"@ + escaped(q) + "%"@
}

proof fn lemma_percent_tail(p: Seq<char>, s: Seq<char>, j: int)
    requires
        p.len() > 0,
        p.last() == '%',
        0 <= j <= s.len(),
    ensures
        like_from(p, p.len() - 1, s, j),
    decreases s.len() - j,
{
    if j < s.len() {
        lemma_percent_tail(p, s, j + 1);
    } else {
        assert(like_from(p, p.len() as int, s, j));
    }
}

/// The escaped form of a query begins with that of each of its prefixes.
proof fn lemma_escaped_prefix(q: Seq<char>, k: int)
    requires
        0 <= k <= q.len(),
    ensures
        escaped(q.take(k)).len() <= escaped(q).len(),
        escaped(q).take(escaped(q.take(k)).len() as int) == escaped(q.take(k)),
    decreases q.len(),
{
    if k == q.len() {
        assert(q.take(k) =~= q);
        assert(escaped(q).take(escaped(q).len() as int) =~= escaped(q));
    } else {
        lemma_escaped_prefix(q.drop_last(), k);
        assert(q.drop_last().take(k) =~= q.take(k));
        let n = escaped(q.take(k)).len() as int;
        assert(escaped(q).take(n) =~= escaped(q.drop_last()).take(n));
    }
}

proof fn lemma_like_mid(q: Seq<char>, s: Seq<char>, k: int, j: int)
    requires
        0 <= k <= q.len(),
        0 <= j <= s.len(),
    ensures
        like_from(anywhere(q), 1 + escaped(q.take(k)).len() as int, s, j) <==> {
            &&& j + (q.len() - k) <= s.len()
            &&& forall|m: int| k <= m < q.len() ==> same_letter(#[trigger] q[m], s[j + m - k])
        },
    decreases q.len() - k,
{
    reveal_strlit("%");
    let p = anywhere(q);
    let e = escaped(q);
    let n = escaped(q.take(k)).len() as int;
    assert(p.len() == e.len() + 2);
    if k == q.len() {
        assert(q.take(k) =~= q);
        lemma_percent_tail(p, s, j);
    } else {
        let c = q[k];
        lemma_escaped_prefix(q, k + 1);
        assert(q.take(k + 1).drop_last() =~= q.take(k));
        let next = escaped(q.take(k + 1));
        assert(next == escaped(q.take(k)) + escaped_char(c));
        assert forall|i: int| n <= i < next.len() implies #[trigger] p[1 + i] == next[i] by {
            assert(e.take(next.len() as int)[i] == e[i]);
        }
        if c == '\\' || c == '%' || c == '_' {
            assert(next[n] == '\\' && next[n + 1] == c);
            assert(p[1 + n] == '\\' && p[1 + (n + 1)] == c);
        } else {
            assert(next[n] == c);
            assert(p[1 + n] == c);
        }
        if j < s.len() {
            lemma_like_mid(q, s, k + 1, j + 1);
            let head = same_letter(c, s[j]);
            assert(like_from(p, 1 + n, s, j) <==> head && like_from(p, 1 + next.len() as int, s, j + 1));
            if head && like_from(p, 1 + next.len() as int, s, j + 1) {
                assert forall|m: int| k <= m < q.len() implies same_letter(#[trigger] q[m], s[j + m - k]) by {
                    if m > k {
                        assert(s[(j + 1) + m - (k + 1)] == s[j + m - k]);
                    }
                }
            }
            if j + (q.len() - k) <= s.len() && (forall|m: int|
                k <= m < q.len() ==> same_letter(#[trigger] q[m], s[j + m - k])) {
                assert(same_letter(q[k], s[j + k - k]));
                assert forall|m: int| k + 1 <= m < q.len() implies same_letter(
                    #[trigger] q[m],
                    s[(j + 1) + m - (k + 1)],
                ) by {
                    assert(s[j + m - k] == s[(j + 1) + m - (k + 1)]);
                }
            }
        }
    }
}

proof fn lemma_like_scan(q: Seq<char>, s: Seq<char>, j: int)
    requires
        0 <= j <= s.len(),
    ensures
        like_from(anywhere(q), 0, s, j) <==> exists|at: int| j <= at && stands_at(s, q, at),
    decreases s.len() - j,
{
    reveal_strlit("%");
    let p = anywhere(q);
    assert(p[0] == '%');
    assert(q.take(0) =~= Seq::<char>::empty());
    assert(escaped(q.take(0)).len() == 0);
    lemma_like_mid(q, s, 0, j);
    assert(like_from(p, 1, s, j) <==> stands_at(s, q, j)) by {
        if stands_at(s, q, j) {
            assert forall|m: int| 0 <= m < q.len() implies same_letter(#[trigger] q[m], s[j + m - 0]) by {}
        }
        if like_from(p, 1, s, j) {
            assert forall|m: int| 0 <= m < q.len() implies same_letter(#[trigger] q[m], s[j + m]) by {
                assert(s[j + m - 0] == s[j + m]);
            }
        }
    }
    if j < s.len() {
        lemma_like_scan(q, s, j + 1);
    } else {
        if exists|at: int| j <= at && stands_at(s, q, at) {
            let at = choose|at: int| j <= at && stands_at(s, q, at);
            assert(at == j);
        }
    }
}

/// An escaped query between two `%` matches exactly the texts that hold the query
/// literally, but for case: `%`, `_` and `\` in a query stand for themselves.
pub proof fn lemma_like_is_contains(q: Seq<char>, s: Seq<char>)
    ensures
        like(anywhere(q), s) == contains_text(s, q),
{
    lemma_like_scan(q, s, 0);
}

/// A text is found by whatever it holds literally.
pub proof fn lemma_literal_is_found(text: Seq<char>, at: int, n: nat)
    requires
        0 <= at,
        at + n <= text.len(),
    ensures
        contains_text(text, text.subrange(at, at + n)),
{
    assert(stands_at(text, text.subrange(at, at + n), at));
}

/// The pattern that finds `q` anywhere.
pub fn search_pattern(q: &str) -> (r: Vec<char>)
    ensures
        r@ == anywhere(q@),
{
    let mut text = "%".to_owned();
    text.append(escape_like(q).as_str());
    text.append("%");
    crate::text::chars_of(text.as_str())
}

/// Whether `text` matches the pattern.
pub fn matches_text(pattern: &Vec<char>, text: &str) -> (r: bool)
    ensures
        r == like(pattern@, text@),
{
    let s = crate::text::chars_of(text);
    like_match(pattern, 0, &s, 0)
}

} // verus!
