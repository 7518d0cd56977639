//! The wire format of every persisted record: JSON, written and read by
//! the library itself.  The parser accepts exactly the canonical form the
//! renderer produces; anything else is a corrupt record.  Round trips are
//! proved, not assumed.

use vstd::prelude::*;
use crate::polyfill::string_to_chars;
use crate::text::{dec_min, dec_val, digit_char, digit_val, is_digit_char, lemma_dec_min_shape, lemma_dec_min_val, push_dec_min};

verus! {

/// The escape of one character inside a JSON string: quote, backslash and
/// the three named controls get two-character escapes, other control
/// characters a `\u00XX` escape, everything else stands as itself.
pub open spec fn esc_char(c: char) -> Seq<char> {
    if c == '"' {
        seq!['\\', '"']
    } else if c == '\\' {
        seq!['\\', '\\']
    } else if c == '\n' {
        seq!['\\', 'n']
    } else if c == '\r' {
        seq!['\\', 'r']
    } else if c == '\t' {
        seq!['\\', 't']
    } else if (c as u32) < 32 {
        seq!['\\', 'u', '0', '0', hex_char_spec((c as u32 / 16) as nat), hex_char_spec(
            (c as u32 % 16) as nat,
        )]
    } else {
        seq![c]
    }
}

/// The lowercase hexadecimal digit of a value below sixteen.
pub open spec fn hex_char_spec(d: nat) -> char {
    if d < 10 {
        digit_char(d)
    } else {
        ('a' as u32 + (d - 10) as u32) as char
    }
}

/// The value of a lowercase hexadecimal digit character.
pub open spec fn hex_val_spec(c: char) -> nat {
    if is_digit_char(c) {
        digit_val(c)
    } else {
        (c as u32 - 'a' as u32 + 10) as nat
    }
}

/// A character accepted as a lowercase hexadecimal digit.
pub open spec fn is_lower_hex(c: char) -> bool {
    is_digit_char(c) || ('a' <= c && c <= 'f')
}

/// The body of a JSON string: every character escaped.
pub open spec fn esc(s: Seq<char>) -> Seq<char>
    decreases s.len(),
{
    if s.len() == 0 {
        Seq::empty()
    } else {
        esc_char(s[0]) + esc(s.skip(1))
    }
}

/// A JSON string: quote, escaped body, quote.
pub open spec fn jstr(s: Seq<char>) -> Seq<char> {
    seq!['"'] + esc(s) + seq!['"']
}

pub proof fn lemma_esc_concat(a: Seq<char>, b: Seq<char>)
    ensures
        esc(a + b) == esc(a) + esc(b),
    decreases a.len(),
{
    if a.len() == 0 {
        assert(a + b =~= b);
        assert(esc(a) + esc(b) =~= esc(b));
    } else {
        assert((a + b).skip(1) =~= a.skip(1) + b);
        lemma_esc_concat(a.skip(1), b);
        assert(esc(a + b) =~= esc(a) + esc(b));
    }
}

/// Parsing the body of a JSON string from the front of `t`: the decoded
/// content and the rest after the closing quote.
pub open spec fn p_strbody(t: Seq<char>) -> Option<(Seq<char>, Seq<char>)>
    decreases t.len(),
{
    if t.len() == 0 {
        None
    } else if t[0] == '"' {
        Some((Seq::empty(), t.skip(1)))
    } else if t[0] == '\\' {
        if t.len() < 2 {
            None
        } else if t[1] == '"' || t[1] == '\\' {
            match p_strbody(t.skip(2)) {
                Some((c, r)) => Some((seq![t[1]] + c, r)),
                None => None,
            }
        } else if t[1] == 'n' {
            match p_strbody(t.skip(2)) {
                Some((c, r)) => Some((seq!['\n'] + c, r)),
                None => None,
            }
        } else if t[1] == 'r' {
            match p_strbody(t.skip(2)) {
                Some((c, r)) => Some((seq!['\r'] + c, r)),
                None => None,
            }
        } else if t[1] == 't' {
            match p_strbody(t.skip(2)) {
                Some((c, r)) => Some((seq!['\t'] + c, r)),
                None => None,
            }
        } else if t[1] == 'u' {
            if t.len() < 6 {
                None
            } else if t[2] == '0' && t[3] == '0' && is_lower_hex(t[4]) && is_lower_hex(t[5])
                && hex_val_spec(t[4]) * 16 + hex_val_spec(t[5]) < 32 {
                match p_strbody(t.skip(6)) {
                    Some((c, r)) => Some(
                        (seq![((hex_val_spec(t[4]) * 16 + hex_val_spec(t[5])) as u32) as char] + c, r),
                    ),
                    None => None,
                }
            } else {
                None
            }
        } else {
            None
        }
    } else if (t[0] as u32) < 32 {
        None
    } else {
        match p_strbody(t.skip(1)) {
            Some((c, r)) => Some((seq![t[0]] + c, r)),
            None => None,
        }
    }
}

/// Parsing a whole JSON string from the front of `t`.
pub open spec fn p_jstr(t: Seq<char>) -> Option<(Seq<char>, Seq<char>)> {
    if t.len() >= 1 && t[0] == '"' {
        p_strbody(t.skip(1))
    } else {
        None
    }
}

/// The string-body parser undoes the escape: for every content `x` and
/// rest `r`, parsing `esc(x) + '"' + r` yields exactly `(x, r)`.
pub proof fn lemma_strbody_round_trip(x: Seq<char>, r: Seq<char>)
    ensures
        p_strbody(esc(x) + seq!['"'] + r) == Some((x, r)),
    decreases x.len(),
{
    let t = esc(x) + seq!['"'] + r;
    if x.len() == 0 {
        assert(esc(x) =~= Seq::<char>::empty());
        assert(t =~= seq!['"'] + r);
        assert(t[0] == '"');
        assert(t.skip(1) =~= r);
        assert(p_strbody(t) == Some((Seq::<char>::empty(), r)));
        assert(x =~= Seq::<char>::empty());
    } else {
        let c = x[0];
        let x1 = x.skip(1);
        assert(esc(x) == esc_char(c) + esc(x1));
        lemma_strbody_round_trip(x1, r);
        let t1 = esc(x1) + seq!['"'] + r;
        assert(t =~= esc_char(c) + t1);
        if c == '"' || c == '\\' {
            assert(t[0] == '\\' && t[1] == c);
            assert(t.skip(2) =~= t1);
            assert(seq![c] + x1 =~= x);
        } else if c == '\n' {
            assert(t[0] == '\\' && t[1] == 'n');
            assert(t.skip(2) =~= t1);
            assert(seq!['\n'] + x1 =~= x);
        } else if c == '\r' {
            assert(t[0] == '\\' && t[1] == 'r');
            assert(t.skip(2) =~= t1);
            assert(seq!['\r'] + x1 =~= x);
        } else if c == '\t' {
            assert(t[0] == '\\' && t[1] == 't');
            assert(t.skip(2) =~= t1);
            assert(seq!['\t'] + x1 =~= x);
        } else if (c as u32) < 32 {
            let hi = (c as u32 / 16) as nat;
            let lo = (c as u32 % 16) as nat;
            assert(t[0] == '\\' && t[1] == 'u' && t[2] == '0' && t[3] == '0');
            assert(t[4] == hex_char_spec(hi));
            assert(t[5] == hex_char_spec(lo));
            assert(is_lower_hex(hex_char_spec(hi)) && hex_val_spec(hex_char_spec(hi)) == hi);
            assert(is_lower_hex(hex_char_spec(lo)) && hex_val_spec(hex_char_spec(lo)) == lo);
            assert(hi * 16 + lo == c as u32);
            assert(t.skip(6) =~= t1);
            vstd::utf8::char_u32_cast(c, c as u32);
            assert(((hi * 16 + lo) as u32) as char == c);
            assert(seq![c] + x1 =~= x);
        } else {
            assert(t[0] == c);
            assert(t[0] != '"' && t[0] != '\\' && !((t[0] as u32) < 32));
            assert(t.skip(1) =~= t1);
            assert(seq![c] + x1 =~= x);
        }
    }
}

/// Parsing a rendered JSON string gives back its content.
pub proof fn lemma_jstr_round_trip(x: Seq<char>, r: Seq<char>)
    ensures
        p_jstr(jstr(x) + r) == Some((x, r)),
{
    let t = jstr(x) + r;
    assert(t[0] == '"');
    assert(t.skip(1) =~= esc(x) + seq!['"'] + r);
    lemma_strbody_round_trip(x, r);
}

/// The longest digit prefix of `t`.
pub open spec fn digit_run(t: Seq<char>) -> Seq<char>
    decreases t.len(),
{
    if t.len() == 0 {
        Seq::empty()
    } else if is_digit_char(t[0]) {
        seq![t[0]] + digit_run(t.skip(1))
    } else {
        Seq::empty()
    }
}

/// Parsing an unsigned decimal number from the front of `t`: its value
/// and the rest after its digits.  Rejected: an empty digit run, a
/// leading zero on a multi-digit run, and a value beyond `u64`.
pub open spec fn p_u64(t: Seq<char>) -> Option<(u64, Seq<char>)> {
    let run = digit_run(t);
    if run.len() == 0 {
        None
    } else if run[0] == '0' && run.len() > 1 {
        None
    } else if dec_val(run) > u64::MAX {
        None
    } else {
        Some((dec_val(run) as u64, t.skip(run.len() as int)))
    }
}

pub proof fn lemma_digit_run_of_digits(a: Seq<char>, b: Seq<char>)
    requires
        forall|i: int| 0 <= i < a.len() ==> is_digit_char(#[trigger] a[i]),
        b.len() == 0 || !is_digit_char(b[0]),
    ensures
        digit_run(a + b) == a,
    decreases a.len(),
{
    let t = a + b;
    if a.len() == 0 {
        assert(t =~= b);
        assert(digit_run(b) =~= Seq::<char>::empty()) by {
            if b.len() > 0 {
                assert(!is_digit_char(b[0]));
            }
        }
        assert(digit_run(t) =~= a);
    } else {
        assert(is_digit_char(a[0]));
        assert(t[0] == a[0]);
        assert(t.skip(1) =~= a.skip(1) + b);
        lemma_digit_run_of_digits(a.skip(1), b);
        assert(digit_run(t) =~= seq![a[0]] + a.skip(1));
        assert(seq![a[0]] + a.skip(1) =~= a);
    }
}

/// The digit run is a prefix: never longer than the input.
pub proof fn lemma_digit_run_len(t: Seq<char>)
    ensures
        digit_run(t).len() <= t.len(),
    decreases t.len(),
{
    if t.len() > 0 && is_digit_char(t[0]) {
        lemma_digit_run_len(t.skip(1));
    }
}

/// Parsing a rendered number gives back its value, provided what follows
/// does not begin with a digit.
pub proof fn lemma_u64_round_trip(n: u64, r: Seq<char>)
    requires
        r.len() == 0 || !is_digit_char(r[0]),
    ensures
        p_u64(dec_min(n as nat) + r) == Some((n, r)),
{
    let d = dec_min(n as nat);
    lemma_dec_min_shape(n as nat);
    lemma_dec_min_val(n as nat);
    lemma_digit_run_of_digits(d, r);
    assert(digit_run(d + r) == d);
    if d[0] == '0' {
        assert(n == 0);
        assert(d.len() == 1);
    }
    assert((d + r).skip(d.len() as int) =~= r);
}

/// Parsing the exact literal `lit` from the front of `t`.
pub open spec fn p_lit(t: Seq<char>, lit: Seq<char>) -> Option<Seq<char>> {
    if lit.len() <= t.len() && t.take(lit.len() as int) == lit {
        Some(t.skip(lit.len() as int))
    } else {
        None
    }
}

/// Concatenation is associative.
pub proof fn lemma_assoc(a: Seq<char>, b: Seq<char>, c: Seq<char>)
    ensures
        (a + b) + c == a + (b + c),
{
    assert((a + b) + c =~= a + (b + c));
}

pub proof fn lemma_lit_round_trip(lit: Seq<char>, r: Seq<char>)
    ensures
        p_lit(lit + r, lit) == Some(r),
{
    let t = lit + r;
    assert(t.take(lit.len() as int) =~= lit);
    assert(t.skip(lit.len() as int) =~= r);
}

/// A successful string-body parse consumed at least one character.
pub proof fn lemma_strbody_consumes(t: Seq<char>)
    ensures
        p_strbody(t) matches Some((c, r)) ==> r.len() < t.len(),
    decreases t.len(),
{
    if t.len() > 0 && t[0] != '"' {
        if t[0] == '\\' && t.len() >= 2 {
            if t[1] == '"' || t[1] == '\\' || t[1] == 'n' || t[1] == 'r' || t[1] == 't' {
                lemma_strbody_consumes(t.skip(2));
            } else if t[1] == 'u' && t.len() >= 6 {
                lemma_strbody_consumes(t.skip(6));
            }
        } else if !((t[0] as u32) < 32) {
            lemma_strbody_consumes(t.skip(1));
        }
    }
}

/// A successful string parse consumed at least the two quotes.
pub proof fn lemma_jstr_consumes(t: Seq<char>)
    ensures
        p_jstr(t) matches Some((c, r)) ==> r.len() < t.len() - 1,
{
    if t.len() >= 1 && t[0] == '"' {
        lemma_strbody_consumes(t.skip(1));
    }
}

/// Append the characters of `lit` to `out`.
pub fn push_lit(out: &mut Vec<char>, lit: &str)
    ensures
        final(out)@ == old(out)@ + lit@,
{
    let v = string_to_chars(lit);
    let mut i: usize = 0;
    proof {
        assert(old(out)@ + lit@.take(0) =~= old(out)@);
    }
    while i < v.len()
        invariant
            i <= v@.len(),
            v@ == lit@,
            out@ == old(out)@ + lit@.take(i as int),
        decreases v@.len() - i,
    {
        out.push(v[i]);
        proof {
            assert(old(out)@ + lit@.take(i + 1) =~= (old(out)@ + lit@.take(i as int)).push(
                lit@[i as int],
            ));
        }
        i = i + 1;
    }
    proof {
        assert(old(out)@ + lit@.take(lit@.len() as int) =~= old(out)@ + lit@);
    }
}

/// Append the JSON rendering of the string `s` to `out`.
#[verifier::loop_isolation(false)]
pub fn push_jstr(out: &mut Vec<char>, s: &str)
    ensures
        final(out)@ == old(out)@ + jstr(s@),
{
    let v = string_to_chars(s);
    let n = v.len();
    out.push('"');
    let mut i: usize = 0;
    proof {
        assert(esc(s@.take(0)) =~= Seq::<char>::empty());
        assert(out@ =~= old(out)@ + seq!['"'] + esc(s@.take(0)));
    }
    while i < n
        invariant
            i <= n,
            out@ == old(out)@ + seq!['"'] + esc(s@.take(i as int)),
        decreases n - i,
    {
        let c = v[i];
        proof {
            assert(s@.take(i + 1) =~= s@.take(i as int) + seq![s@[i as int]]);
            lemma_esc_concat(s@.take(i as int), seq![s@[i as int]]);
            assert(esc(seq![s@[i as int]]) =~= esc_char(s@[i as int]) + esc(
                seq![s@[i as int]].skip(1),
            ));
            assert(seq![s@[i as int]].skip(1) =~= Seq::<char>::empty());
            assert(esc(seq![s@[i as int]]) =~= esc_char(s@[i as int]));
        }
        if c == '"' {
            out.push('\\');
            out.push('"');
        } else if c == '\\' {
            out.push('\\');
            out.push('\\');
        } else if c == '\n' {
            out.push('\\');
            out.push('n');
        } else if c == '\r' {
            out.push('\\');
            out.push('r');
        } else if c == '\t' {
            out.push('\\');
            out.push('t');
        } else if (c as u32) < 32 {
            let code = c as u32;
            let hi: u8 = (code / 16) as u8;
            let lo: u8 = (code % 16) as u8;
            out.push('\\');
            out.push('u');
            out.push('0');
            out.push('0');
            out.push((('0' as u8) + hi) as char);
            let lc: char = if lo < 10 {
                (('0' as u8) + lo) as char
            } else {
                (('a' as u8) + (lo - 10)) as char
            };
            out.push(lc);
            proof {
                assert((('0' as u8) + hi) as char == hex_char_spec((c as u32 / 16) as nat));
                assert(lc == hex_char_spec((c as u32 % 16) as nat));
                assert(out@ =~= old(out)@ + seq!['"'] + esc(s@.take(i + 1)));
            }
        } else {
            out.push(c);
        }
        proof {
            assert(out@ =~= old(out)@ + seq!['"'] + esc(s@.take(i + 1)));
        }
        i = i + 1;
    }
    out.push('"');
    proof {
        assert(s@.take(n as int) =~= s@);
        assert(out@ =~= old(out)@ + jstr(s@));
    }
}

/// Match the literal `lit` at position `i` of `v`.
#[verifier::loop_isolation(false)]
pub fn pe_lit(v: &Vec<char>, i: usize, lit: &str) -> (r: Option<usize>)
    requires
        i <= v@.len(),
    ensures
        match r {
            Some(j) => i <= j <= v@.len() && p_lit(v@.skip(i as int), lit@) == Some(
                v@.skip(j as int),
            ),
            None => p_lit(v@.skip(i as int), lit@) is None,
        },
{
    let l = string_to_chars(lit);
    let m = l.len();
    let n = v.len();
    if m > n - i {
        proof {
            assert(v@.skip(i as int).len() == n - i);
        }
        return None;
    }
    let mut k: usize = 0;
    while k < m
        invariant
            k <= m,
            v@.skip(i as int).take(k as int) == lit@.take(k as int),
        decreases m - k,
    {
        let x = v[i + k];
        let y = l[k];
        if x != y {
            proof {
                let t = v@.skip(i as int);
                assert(t[k as int] == v@[i + k]);
                assert(t.take(lit@.len() as int) == lit@ ==> t.take(lit@.len() as int)[k as int]
                    == lit@[k as int]);
                assert(t.take(lit@.len() as int)[k as int] == t[k as int]);
            }
            return None;
        }
        proof {
            let t = v@.skip(i as int);
            assert(t.take(k + 1) =~= t.take(k as int).push(t[k as int]));
            assert(lit@.take(k + 1) =~= lit@.take(k as int).push(lit@[k as int]));
            assert(t[k as int] == v@[i + k]);
        }
        k = k + 1;
    }
    proof {
        let t = v@.skip(i as int);
        assert(t.take(m as int) =~= lit@.take(m as int));
        assert(lit@.take(m as int) =~= lit@);
        assert(t.skip(m as int) =~= v@.skip(i + m));
    }
    Some(i + m)
}

/// What the string parse yields once `acc` has already been decoded:
/// the remaining body's content appended to `acc`.
pub open spec fn sb_compose(acc: Seq<char>, t: Seq<char>) -> Option<(Seq<char>, Seq<char>)> {
    match p_strbody(t) {
        Some((c, r)) => Some((acc + c, r)),
        None => None,
    }
}

proof fn lemma_sb_compose_empty(t: Seq<char>)
    ensures
        sb_compose(Seq::empty(), t) == p_strbody(t),
{
    match p_strbody(t) {
        Some((c, r)) => {
            assert(Seq::<char>::empty() + c =~= c);
        },
        None => {},
    }
}

proof fn lemma_sb_compose_step(acc: Seq<char>, d: char, t: Seq<char>, t2: Seq<char>)
    requires
        p_strbody(t) == (match p_strbody(t2) {
            Some((c, r)) => Some((seq![d] + c, r)),
            None => None::<(Seq<char>, Seq<char>)>,
        }),
    ensures
        sb_compose(acc, t) == sb_compose(acc.push(d), t2),
{
    match p_strbody(t2) {
        Some((c, r)) => {
            assert(acc + (seq![d] + c) =~= acc.push(d) + c);
        },
        None => {},
    }
}

/// Parse a JSON string at position `i` of `v`.
#[verifier::loop_isolation(false)]
pub fn pe_jstr(v: &Vec<char>, i: usize) -> (r: Option<(String, usize)>)
    requires
        i <= v@.len(),
    ensures
        match r {
            Some((s, j)) => i <= j <= v@.len() && p_jstr(v@.skip(i as int)) == Some(
                (s@, v@.skip(j as int)),
            ),
            None => p_jstr(v@.skip(i as int)) is None,
        },
{
    let n = v.len();
    if i >= n || !(v[i] == '"') {
        proof {
            if i < n {
                assert(v@.skip(i as int)[0] == v@[i as int]);
            }
        }
        return None;
    }
    let mut acc: Vec<char> = Vec::new();
    let mut cur: usize = i + 1;
    proof {
        assert(v@.skip(i as int)[0] == '"');
        assert(v@.skip(i as int).len() >= 1);
        assert(v@.skip(i as int).skip(1) =~= v@.skip(i + 1));
        lemma_sb_compose_empty(v@.skip(i + 1));
    }
    loop
        invariant
            i + 1 <= cur <= n,
            p_jstr(v@.skip(i as int)) == sb_compose(acc@, v@.skip(cur as int)),
        decreases n - cur,
    {
        let ghost t = v@.skip(cur as int);
        if cur >= n {
            proof {
                assert(t.len() == 0);
            }
            return None;
        }
        let c = v[cur];
        proof {
            assert(t[0] == v@[cur as int]);
        }
        if c == '"' {
            proof {
                assert(t.skip(1) =~= v@.skip(cur + 1));
                assert(p_strbody(t) == Some((Seq::<char>::empty(), v@.skip(cur + 1))));
                assert(acc@ + Seq::<char>::empty() =~= acc@);
            }
            let s = crate::polyfill::chars_to_string(&acc);
            return Some((s, cur + 1));
        }
        if c == '\\' {
            if n - cur < 2 {
                proof {
                    assert(t.len() < 2);
                }
                return None;
            }
            let e = v[cur + 1];
            proof {
                assert(t[1] == v@[cur + 1]);
                assert(t.skip(2) =~= v@.skip(cur + 2));
            }
            if e == '"' || e == '\\' || e == 'n' || e == 'r' || e == 't' {
                let d: char = if e == 'n' {
                    '\n'
                } else if e == 'r' {
                    '\r'
                } else if e == 't' {
                    '\t'
                } else {
                    e
                };
                proof {
                    assert(p_strbody(t) == (match p_strbody(v@.skip(cur + 2)) {
                        Some((c0, r0)) => Some((seq![d] + c0, r0)),
                        None => None::<(Seq<char>, Seq<char>)>,
                    }));
                    lemma_sb_compose_step(acc@, d, t, v@.skip(cur + 2));
                }
                acc.push(d);
                cur = cur + 2;
            } else if e == 'u' {
                if n - cur < 6 {
                    proof {
                        assert(t.len() < 6);
                    }
                    return None;
                }
                let c2 = v[cur + 2];
                let c3 = v[cur + 3];
                let h4 = v[cur + 4];
                let h5 = v[cur + 5];
                proof {
                    assert(t[2] == v@[cur + 2]);
                    assert(t[3] == v@[cur + 3]);
                    assert(t[4] == v@[cur + 4]);
                    assert(t[5] == v@[cur + 5]);
                    assert(t.skip(6) =~= v@.skip(cur + 6));
                }
                if !(c2 == '0' && c3 == '0') {
                    return None;
                }
                let hv = match hex_val_exec(h4) {
                    Some(x) => x,
                    None => {
                        return None;
                    },
                };
                let lv = match hex_val_exec(h5) {
                    Some(x) => x,
                    None => {
                        return None;
                    },
                };
                let code: u8 = hv * 16 + lv;
                if !(code < 32) {
                    return None;
                }
                let d: char = code as char;
                proof {
                    assert(d == ((hex_val_spec(t[4]) * 16 + hex_val_spec(t[5])) as u32) as char);
                    assert(p_strbody(t) == (match p_strbody(v@.skip(cur + 6)) {
                        Some((c0, r0)) => Some((seq![d] + c0, r0)),
                        None => None::<(Seq<char>, Seq<char>)>,
                    }));
                    lemma_sb_compose_step(acc@, d, t, v@.skip(cur + 6));
                }
                acc.push(d);
                cur = cur + 6;
            } else {
                return None;
            }
        } else if (c as u32) < 32 {
            return None;
        } else {
            proof {
                assert(t.skip(1) =~= v@.skip(cur + 1));
                assert(p_strbody(t) == (match p_strbody(v@.skip(cur + 1)) {
                    Some((c0, r0)) => Some((seq![c] + c0, r0)),
                    None => None::<(Seq<char>, Seq<char>)>,
                }));
                lemma_sb_compose_step(acc@, c, t, v@.skip(cur + 1));
            }
            acc.push(c);
            cur = cur + 1;
        }
    }
}

fn is_digit_exec(v: &Vec<char>, j: usize) -> (r: bool)
    requires
        j < v@.len(),
    ensures
        r == is_digit_char(v@[j as int]),
{
    let c = v[j];
    '0' <= c && c <= '9'
}

/// The value of a digit sequence is at least the value of any prefix.
pub proof fn lemma_dec_val_prefix_le(a: Seq<char>, m: int)
    requires
        0 <= m <= a.len(),
    ensures
        dec_val(a.take(m)) <= dec_val(a),
    decreases a.len(),
{
    if m < a.len() {
        assert(a.take(m) =~= a.drop_last().take(m));
        lemma_dec_val_prefix_le(a.drop_last(), m);
    } else {
        assert(a.take(m) =~= a);
    }
}

/// Parse an unsigned decimal number at position `i` of `v`.
#[verifier::loop_isolation(false)]
pub fn pe_u64(v: &Vec<char>, i: usize) -> (r: Option<(u64, usize)>)
    requires
        i <= v@.len(),
    ensures
        match r {
            Some((x, j)) => i <= j <= v@.len() && p_u64(v@.skip(i as int)) == Some(
                (x, v@.skip(j as int)),
            ),
            None => p_u64(v@.skip(i as int)) is None,
        },
{
    let n = v.len();
    let ghost t = v@.skip(i as int);
    // The digit run.
    let mut j: usize = i;
    let mut more = j < n && is_digit_exec(v, j);
    while more
        invariant
            i <= j <= n,
            forall|k: int| i <= k < j ==> is_digit_char(#[trigger] v@[k]),
            more == (j < n && is_digit_char(v@[j as int])),
        decreases n - j,
    {
        j = j + 1;
        more = j < n && is_digit_exec(v, j);
    }
    proof {
        assert(j < n ==> !is_digit_char(v@[j as int]));
        assert(v@.subrange(i as int, j as int) + v@.skip(j as int) =~= t);
        assert(forall|k: int|
            0 <= k < j - i ==> is_digit_char(#[trigger] v@.subrange(i as int, j as int)[k]));
        assert(v@.skip(j as int).len() == 0 || !is_digit_char(v@.skip(j as int)[0]));
        lemma_digit_run_of_digits(v@.subrange(i as int, j as int), v@.skip(j as int));
        assert(digit_run(t) == v@.subrange(i as int, j as int));
    }
    let ghost run = v@.subrange(i as int, j as int);
    if j == i {
        return None;
    }
    if v[i] == '0' && j - i > 1 {
        return None;
    }
    // The value, with an exact overflow bound.
    let mut val: u64 = 0;
    let mut k: usize = i;
    proof {
        assert(run.take(0) =~= Seq::<char>::empty());
    }
    while k < j
        invariant
            i <= k <= j,
            val == dec_val(run.take(k - i)),
        decreases j - k,
    {
        let c = v[k];
        let d: u64 = ((c as u32) - ('0' as u32)) as u64;
        proof {
            assert(is_digit_char(v@[k as int]));
            assert(d == digit_val(run[k - i]) && d < 10);
            assert(run.take(k - i + 1).drop_last() =~= run.take(k - i));
            assert(run.take(k - i + 1).last() == run[k - i]);
        }
        if val > (u64::MAX - d) / 10 {
            proof {
                let m = u64::MAX - d;
                assert(m == 10 * (m / 10) + m % 10 && m % 10 < 10);
                assert(dec_val(run.take(k - i + 1)) == dec_val(run.take(k - i)) * 10 + d);
                assert(dec_val(run.take(k - i + 1)) > u64::MAX);
                lemma_dec_val_prefix_le(run, k - i + 1);
                assert(dec_val(run) > u64::MAX);
            }
            return None;
        }
        val = val * 10 + d;
        k = k + 1;
    }
    proof {
        assert(run.take(j - i) =~= run);
        assert(dec_val(run) <= u64::MAX);
        if run[0] == '0' && run.len() > 1 {
            assert(run[0] == v@[i as int]);
            assert(false);
        }
    }
    Some((val, j))
}

/// The value of one lowercase hexadecimal digit character.
fn hex_val_exec(c: char) -> (r: Option<u8>)
    ensures
        match r {
            Some(x) => is_lower_hex(c) && x == hex_val_spec(c) && x < 16,
            None => !is_lower_hex(c),
        },
{
    if '0' <= c && c <= '9' {
        Some(((c as u32) - ('0' as u32)) as u8)
    } else if 'a' <= c && c <= 'f' {
        Some((((c as u32) - ('a' as u32)) + 10) as u8)
    } else {
        None
    }
}

} // verus!
