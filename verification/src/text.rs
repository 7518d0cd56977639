//! Characters, decimal digit strings, and the lexicographic order on
//! character sequences.  The key layout and the chronological order of
//! events are built on these.

use vstd::prelude::*;

verus! {

/// An ASCII decimal digit.
pub open spec fn is_digit_char(c: char) -> bool {
    '0' <= c && c <= '9'
}

/// The digit character of a value below ten.
pub open spec fn digit_char(d: nat) -> char
    recommends
        d < 10,
{
    ('0' as u32 + d as u32) as char
}

/// The value of a digit character.
pub open spec fn digit_val(c: char) -> nat
    recommends
        is_digit_char(c),
{
    (c as u32 - '0' as u32) as nat
}

/// A lowercase ASCII hexadecimal digit.
pub open spec fn is_lower_hex_char(c: char) -> bool {
    ('0' <= c && c <= '9') || ('a' <= c && c <= 'f')
}

/// An ASCII letter.
pub open spec fn is_ascii_letter(c: char) -> bool {
    ('a' <= c && c <= 'z') || ('A' <= c && c <= 'Z')
}

/// A character of the identifier alphabet: ASCII letters, digits,
/// underscore and hyphen.
pub open spec fn is_id_char(c: char) -> bool {
    is_ascii_letter(c) || is_digit_char(c) || c == '_' || c == '-'
}

/// Every character of the sequence satisfies `is_id_char`.
pub open spec fn all_id_chars(s: Seq<char>) -> bool {
    forall|i: int| 0 <= i < s.len() ==> is_id_char(#[trigger] s[i])
}

/// The lexicographic order on character sequences, by code point.
pub open spec fn lex_le(a: Seq<char>, b: Seq<char>) -> bool
    decreases a.len(),
{
    if a.len() == 0 {
        true
    } else if b.len() == 0 {
        false
    } else if a[0] < b[0] {
        true
    } else if a[0] > b[0] {
        false
    } else {
        lex_le(a.skip(1), b.skip(1))
    }
}

/// The strict lexicographic order.
pub open spec fn lex_lt(a: Seq<char>, b: Seq<char>) -> bool {
    lex_le(a, b) && a != b
}

/// The lexicographic order is reflexive.
pub proof fn lemma_lex_le_refl(a: Seq<char>)
    ensures
        lex_le(a, a),
    decreases a.len(),
{
    if a.len() > 0 {
        lemma_lex_le_refl(a.skip(1));
    }
}

/// Any two sequences are comparable.
pub proof fn lemma_lex_le_total(a: Seq<char>, b: Seq<char>)
    ensures
        lex_le(a, b) || lex_le(b, a),
    decreases a.len(),
{
    if a.len() > 0 && b.len() > 0 && a[0] == b[0] {
        lemma_lex_le_total(a.skip(1), b.skip(1));
    }
}

/// Mutually ordered sequences are equal.
pub proof fn lemma_lex_le_antisym(a: Seq<char>, b: Seq<char>)
    requires
        lex_le(a, b),
        lex_le(b, a),
    ensures
        a == b,
    decreases a.len(),
{
    if a.len() == 0 {
        assert(b.len() == 0);
        assert(a =~= b);
    } else {
        lemma_lex_le_antisym(a.skip(1), b.skip(1));
        assert(a =~= seq![a[0]] + a.skip(1));
        assert(b =~= seq![b[0]] + b.skip(1));
    }
}

/// The lexicographic order is transitive.
pub proof fn lemma_lex_le_trans(a: Seq<char>, b: Seq<char>, c: Seq<char>)
    requires
        lex_le(a, b),
        lex_le(b, c),
    ensures
        lex_le(a, c),
    decreases a.len(),
{
    if a.len() > 0 && b.len() > 0 && c.len() > 0 && a[0] == b[0] && b[0] == c[0] {
        lemma_lex_le_trans(a.skip(1), b.skip(1), c.skip(1));
    }
}

/// Appending to both sides of equal sequences compares by what is appended
/// next; appending to both sides of ordered sequences of one length keeps
/// the order.
pub proof fn lemma_lex_concat_common_prefix(p: Seq<char>, a: Seq<char>, b: Seq<char>)
    ensures
        lex_le(p + a, p + b) == lex_le(a, b),
    decreases p.len(),
{
    if p.len() == 0 {
        assert(p + a =~= a);
        assert(p + b =~= b);
    } else {
        assert((p + a).skip(1) =~= p.skip(1) + a);
        assert((p + b).skip(1) =~= p.skip(1) + b);
        lemma_lex_concat_common_prefix(p.skip(1), a, b);
    }
}

/// Two sequences that differ first at a position where the left is smaller
/// are strictly ordered, whatever follows.
pub proof fn lemma_lex_lt_first_difference(a: Seq<char>, b: Seq<char>, i: int)
    requires
        0 <= i < a.len(),
        i < b.len(),
        a.take(i) == b.take(i),
        a[i] < b[i],
    ensures
        lex_le(a, b),
        !lex_le(b, a),
    decreases i,
{
    if i == 0 {
    } else {
        assert(a.take(i)[0] == a[0]);
        assert(b.take(i)[0] == b[0]);
        assert(a[0] == b[0]);
        assert(a.skip(1).take(i - 1) =~= a.take(i).skip(1));
        assert(b.skip(1).take(i - 1) =~= b.take(i).skip(1));
        assert(a.take(i).skip(1) =~= b.take(i).skip(1));
        lemma_lex_lt_first_difference(a.skip(1), b.skip(1), i - 1);
    }
}

/// Equal-length sequences in strict order stay in strict order when one
/// character is appended to each.
pub proof fn lemma_lex_lt_push(a: Seq<char>, b: Seq<char>, x: char, y: char)
    requires
        a.len() == b.len(),
        lex_lt(a, b),
    ensures
        lex_lt(a.push(x), b.push(y)),
    decreases a.len(),
{
    if a.len() == 0 {
        assert(a =~= b);
    } else if a[0] == b[0] {
        assert(a.push(x)[0] == a[0]);
        assert(b.push(y)[0] == b[0]);
        if a.skip(1) == b.skip(1) {
            assert(a =~= b) by {
                assert forall|j: int| 0 <= j < a.len() implies a[j] == b[j] by {
                    if j > 0 {
                        assert(a[j] == a.skip(1)[j - 1]);
                        assert(b[j] == b.skip(1)[j - 1]);
                    }
                }
            }
        }
        lemma_lex_lt_push(a.skip(1), b.skip(1), x, y);
        assert(a.push(x).skip(1) =~= a.skip(1).push(x));
        assert(b.push(y).skip(1) =~= b.skip(1).push(y));
    } else {
        assert(a[0] < b[0]);
        assert(a.push(x).take(0) =~= b.push(y).take(0));
        assert(a.push(x)[0] == a[0] && b.push(y)[0] == b[0]);
        lemma_lex_lt_first_difference(a.push(x), b.push(y), 0);
        lemma_lex_le_refl(b.push(y));
    }
}

/// Ten to the given power.
pub open spec fn pow10(w: nat) -> nat
    decreases w,
{
    if w == 0 {
        1
    } else {
        10 * pow10((w - 1) as nat)
    }
}

/// The decimal digits of `n`, zero-padded on the left to exactly `w`
/// characters.  Equal-width decimal strings compare lexicographically as
/// the numbers they spell: the sortable timestamp encoding rests on this.
pub open spec fn dec_padded(n: nat, w: nat) -> Seq<char>
    decreases w,
{
    if w == 0 {
        Seq::empty()
    } else {
        dec_padded(n / 10, (w - 1) as nat).push(digit_char(n % 10))
    }
}

/// The minimal decimal digits of `n`, with no leading zero.
pub open spec fn dec_min(n: nat) -> Seq<char>
    decreases n,
{
    if n < 10 {
        seq![digit_char(n)]
    } else {
        dec_min(n / 10).push(digit_char(n % 10))
    }
}

/// The value spelled by a sequence of decimal digits, most significant
/// first.
pub open spec fn dec_val(s: Seq<char>) -> nat
    decreases s.len(),
{
    if s.len() == 0 {
        0
    } else {
        dec_val(s.drop_last()) * 10 + digit_val(s.last())
    }
}

pub proof fn lemma_dec_padded_shape(n: nat, w: nat)
    ensures
        dec_padded(n, w).len() == w,
        forall|i: int| 0 <= i < w ==> is_digit_char(#[trigger] dec_padded(n, w)[i]),
    decreases w,
{
    if w > 0 {
        lemma_dec_padded_shape(n / 10, (w - 1) as nat);
    }
}

pub proof fn lemma_dec_min_shape(n: nat)
    ensures
        dec_min(n).len() >= 1,
        forall|i: int| 0 <= i < dec_min(n).len() ==> is_digit_char(#[trigger] dec_min(n)[i]),
        n >= 10 ==> dec_min(n).len() >= 2,
        dec_min(n)[0] == '0' ==> n == 0,
    decreases n,
{
    if n >= 10 {
        lemma_dec_min_shape(n / 10);
        assert(n / 10 >= 1);
        assert(dec_min(n)[0] == dec_min(n / 10)[0]);
    }
}

/// Reading back the padded digits gives the number.
pub proof fn lemma_dec_padded_val(n: nat, w: nat)
    requires
        n < pow10(w),
    ensures
        dec_val(dec_padded(n, w)) == n,
    decreases w,
{
    if w == 0 {
    } else {
        assert(n == 10 * (n / 10) + n % 10);
        assert(pow10(w) == 10 * pow10((w - 1) as nat));
        assert(n / 10 < pow10((w - 1) as nat));
        lemma_dec_padded_val(n / 10, (w - 1) as nat);
        let s = dec_padded(n, w);
        assert(s.drop_last() =~= dec_padded(n / 10, (w - 1) as nat));
        assert(digit_val(digit_char(n % 10)) == n % 10);
    }
}

/// Reading back the minimal digits gives the number.
pub proof fn lemma_dec_min_val(n: nat)
    ensures
        dec_val(dec_min(n)) == n,
    decreases n,
{
    if n < 10 {
        let s = dec_min(n);
        assert(s.len() == 1);
        assert(dec_val(s) == dec_val(s.drop_last()) * 10 + digit_val(s.last()));
        assert(s.drop_last() =~= Seq::<char>::empty());
        assert(dec_val(s.drop_last()) == 0);
        assert(s.last() == digit_char(n));
        assert(digit_val(digit_char(n)) == n);
    } else {
        assert(n == 10 * (n / 10) + n % 10);
        lemma_dec_min_val(n / 10);
        let s = dec_min(n);
        assert(s.len() > 0);
        assert(dec_val(s) == dec_val(s.drop_last()) * 10 + digit_val(s.last()));
        assert(s.drop_last() =~= dec_min(n / 10));
        assert(digit_val(digit_char(n % 10)) == n % 10);
    }
}

/// Padded decimal strings order exactly as the numbers they spell.
pub proof fn lemma_dec_padded_order(n1: nat, n2: nat, w: nat)
    requires
        n1 < n2,
        n2 < pow10(w),
    ensures
        lex_lt(dec_padded(n1, w), dec_padded(n2, w)),
    decreases w,
{
    assert(w > 0);
    let q1 = n1 / 10;
    let q2 = n2 / 10;
    let r1 = n1 % 10;
    let r2 = n2 % 10;
    assert(n1 == 10 * q1 + r1 && r1 < 10);
    assert(n2 == 10 * q2 + r2 && r2 < 10);
    assert(pow10(w) == 10 * pow10((w - 1) as nat));
    assert(q2 < pow10((w - 1) as nat));
    assert(q1 <= q2);
    assert(q1 == q2 ==> r1 < r2);
    lemma_dec_padded_shape(q1, (w - 1) as nat);
    lemma_dec_padded_shape(q2, (w - 1) as nat);
    if q1 == q2 {
        let a = dec_padded(n1, w);
        let b = dec_padded(n2, w);
        assert(a.take(w - 1) =~= dec_padded(q1, (w - 1) as nat));
        assert(b.take(w - 1) =~= dec_padded(q2, (w - 1) as nat));
        assert(digit_char(n1 % 10) < digit_char(n2 % 10));
        assert(a[w - 1] == digit_char(n1 % 10));
        assert(b[w - 1] == digit_char(n2 % 10));
        lemma_lex_lt_first_difference(a, b, w - 1);
        lemma_lex_le_refl(b);
    } else {
        lemma_dec_padded_order(q1, q2, (w - 1) as nat);
        lemma_lex_lt_push(
            dec_padded(q1, (w - 1) as nat),
            dec_padded(q2, (w - 1) as nat),
            digit_char(n1 % 10),
            digit_char(n2 % 10),
        );
    }
}

/// Append the digit characters of `n`, zero-padded to `width`, to `out`.
pub fn push_dec_padded(out: &mut Vec<char>, n: u64, width: usize)
    ensures
        final(out)@ == old(out)@ + dec_padded(n as nat, width as nat),
    decreases width,
{
    if width == 0 {
        assert(out@ =~= old(out)@ + dec_padded(n as nat, 0));
        return ;
    }
    push_dec_padded(out, n / 10, width - 1);
    let d: u8 = (n % 10) as u8;
    let c: char = (('0' as u8) + d) as char;
    assert(c == digit_char((n % 10) as nat));
    out.push(c);
    assert(out@ =~= old(out)@ + dec_padded(n as nat, width as nat));
}

/// Append the minimal decimal digit characters of `n` to `out`.
pub fn push_dec_min(out: &mut Vec<char>, n: u64)
    ensures
        final(out)@ == old(out)@ + dec_min(n as nat),
    decreases n,
{
    if n < 10 {
        let d: u8 = n as u8;
        let c: char = (('0' as u8) + d) as char;
        assert(c == digit_char(n as nat));
        out.push(c);
        assert(out@ =~= old(out)@ + dec_min(n as nat));
        return ;
    }
    push_dec_min(out, n / 10);
    let d: u8 = (n % 10) as u8;
    let c: char = (('0' as u8) + d) as char;
    assert(c == digit_char((n % 10) as nat));
    out.push(c);
    assert(out@ =~= old(out)@ + dec_min(n as nat));
}

/// Whether `a` is lexicographically at or before `b`.
pub fn str_lex_le(a: &str, b: &str) -> (r: bool)
    ensures
        r == lex_le(a@, b@),
{
    let alen = a.unicode_len();
    let blen = b.unicode_len();
    let mut i: usize = 0;
    proof {
        assert(a@.skip(0) =~= a@);
        assert(b@.skip(0) =~= b@);
    }
    loop
        invariant
            i <= alen,
            i <= blen,
            alen == a@.len(),
            blen == b@.len(),
            lex_le(a@, b@) == lex_le(a@.skip(i as int), b@.skip(i as int)),
        decreases alen - i,
    {
        if i >= alen {
            return true;
        }
        if i >= blen {
            return false;
        }
        let ca = a.get_char(i);
        let cb = b.get_char(i);
        proof {
            assert(a@.skip(i as int)[0] == a@[i as int]);
            assert(b@.skip(i as int)[0] == b@[i as int]);
        }
        if (ca as u32) < (cb as u32) {
            return true;
        }
        if (cb as u32) < (ca as u32) {
            return false;
        }
        proof {
            assert(a@.skip(i as int).skip(1) =~= a@.skip(i + 1));
            assert(b@.skip(i as int).skip(1) =~= b@.skip(i + 1));
        }
        i = i + 1;
    }
}

/// The first position of `c` in `v`, if any.
pub fn find_first_char(v: &Vec<char>, c: char) -> (r: Option<usize>)
    ensures
        match r {
            Some(a) => a < v@.len() && v@[a as int] == c && (forall|j: int|
                0 <= j < a ==> v@[j] != c),
            None => forall|j: int| 0 <= j < v@.len() ==> v@[j] != c,
        },
{
    let n = v.len();
    let mut i: usize = 0;
    loop
        invariant
            i <= n,
            n == v@.len(),
            forall|j: int| 0 <= j < i ==> v@[j] != c,
        decreases n - i,
    {
        if i >= n {
            return None;
        }
        if v[i] == c {
            return Some(i);
        }
        i = i + 1;
    }
}

/// Whether two strings hold the same characters.
pub fn str_eq(a: &str, b: &str) -> (r: bool)
    ensures
        r == (a@ == b@),
{
    let alen = a.unicode_len();
    let blen = b.unicode_len();
    if alen != blen {
        return false;
    }
    let mut i: usize = 0;
    loop
        invariant
            i <= alen,
            alen == a@.len(),
            alen == b@.len(),
            a@.take(i as int) == b@.take(i as int),
        decreases alen - i,
    {
        if i >= alen {
            assert(a@.take(alen as int) =~= a@);
            assert(b@.take(alen as int) =~= b@);
            return true;
        }
        let ca = a.get_char(i);
        let cb = b.get_char(i);
        if (ca as u32) != (cb as u32) {
            proof {
                let j = i as int;
                assert(a@ == b@ ==> a@[j] == b@[j]);
            }
            return false;
        }
        proof {
            assert(a@.take(i + 1) =~= a@.take(i as int).push(a@[i as int]));
            assert(b@.take(i + 1) =~= b@.take(i as int).push(b@[i as int]));
        }
        i = i + 1;
    }
}

/// Whether `p` is a prefix of `s`.
pub fn str_has_prefix(s: &str, p: &str) -> (r: bool)
    ensures
        r == (p@.len() <= s@.len() && s@.take(p@.len() as int) == p@),
{
    let slen = s.unicode_len();
    let plen = p.unicode_len();
    if plen > slen {
        return false;
    }
    let mut i: usize = 0;
    loop
        invariant
            i <= plen,
            plen <= slen,
            slen == s@.len(),
            plen == p@.len(),
            s@.take(i as int) == p@.take(i as int),
        decreases plen - i,
    {
        if i >= plen {
            assert(s@.take(plen as int) =~= p@.take(plen as int));
            assert(p@.take(plen as int) =~= p@);
            return true;
        }
        let cs = s.get_char(i);
        let cp = p.get_char(i);
        if (cs as u32) != (cp as u32) {
            proof {
                let j = i as int;
                assert(s@.take(p@.len() as int) == p@ ==> s@.take(p@.len() as int)[j] == p@[j]);
            }
            return false;
        }
        proof {
            assert(s@.take(i + 1) =~= s@.take(i as int).push(s@[i as int]));
            assert(p@.take(i + 1) =~= p@.take(i as int).push(p@[i as int]));
        }
        i = i + 1;
    }
}

} // verus!
