//! Small pure helpers of the marketplace surface.

use vstd::prelude::*;
use vstd::string::StringSliceAdditionalSpecFns;
use vstd::string::StrSliceExecFns;
use crate::errors::ApiError;
use crate::polyfill::string_to_chars;
use crate::text::find_first_char;
use crate::unicode::{char_is_lowercase, char_is_numeric, char_is_uppercase, lower_of, lowercase_of, numeric_of, to_lowercase, uppercase_of};

verus! {

/// A rough email shape check: an at sign, a dot, and more than five
/// bytes.  The RFQ domain's validated address type is the strict one;
/// this is the marketplace's quick gate.
pub fn is_valid_email(email: &str) -> (r: bool)
    ensures
        r == (email@.contains('@') && email@.contains('.') && email.len() > 5),
{
    let v = string_to_chars(email);
    let at = find_first_char(&v, '@');
    let dot = find_first_char(&v, '.');
    let has_at = at.is_some();
    let has_dot = dot.is_some();
    proof {
        match at {
            Some(a) => {
                assert(email@[a as int] == '@');
                assert(email@.contains('@'));
            },
            None => {
                if email@.contains('@') {
                    let i = choose|i: int| 0 <= i < email@.len() && email@[i] == '@';
                    assert(v@[i] == '@');
                    assert(false);
                }
            },
        }
        match dot {
            Some(a) => {
                assert(email@[a as int] == '.');
                assert(email@.contains('.'));
            },
            None => {
                if email@.contains('.') {
                    let i = choose|i: int| 0 <= i < email@.len() && email@[i] == '.';
                    assert(v@[i] == '.');
                    assert(false);
                }
            },
        }
    }
    has_at && has_dot && email.len() > 5
}

/// Pagination inputs with their defaults and bounds: page at least one,
/// page size between one and one hundred, twenty when absent.
pub fn parse_pagination_params(page: Option<u32>, limit: Option<u32>) -> (r: (u32, u32))
    ensures
        r.0 == (match page {
            Some(p) => if p >= 1 {
                p
            } else {
                1u32
            },
            None => 1u32,
        }),
        r.1 == (match limit {
            Some(l) => if l < 1 {
                1u32
            } else if l > 100 {
                100u32
            } else {
                l
            },
            None => 20u32,
        }),
        1 <= r.0,
        1 <= r.1 <= 100,
{
    let p = match page {
        Some(p) => if p >= 1 {
            p
        } else {
            1
        },
        None => 1,
    };
    let l = match limit {
        Some(l) => if l < 1 {
            1
        } else if l > 100 {
            100
        } else {
            l
        },
        None => 20,
    };
    (p, l)
}

/// The row offset of a page.
pub fn calculate_offset(page: u32, limit: u32) -> (r: u32)
    requires
        page >= 1,
        (page - 1) * limit <= u32::MAX,
    ensures
        r == (page - 1) * limit,
{
    (page - 1) * limit
}

/// Some character of the sequence has the Uppercase property.
pub open spec fn any_uppercase(s: Seq<char>) -> bool {
    exists|i: int| 0 <= i < s.len() && uppercase_of(s[i])
}

/// Some character of the sequence has the Lowercase property.
pub open spec fn any_lowercase(s: Seq<char>) -> bool {
    exists|i: int| 0 <= i < s.len() && lowercase_of(s[i])
}

/// Some character of the sequence is numeric.
pub open spec fn any_numeric(s: Seq<char>) -> bool {
    exists|i: int| 0 <= i < s.len() && numeric_of(s[i])
}

fn find_uppercase(v: &Vec<char>) -> (r: bool)
    ensures
        r == any_uppercase(v@),
{
    let n = v.len();
    let mut i: usize = 0;
    loop
        invariant
            i <= n,
            n == v@.len(),
            forall|j: int| 0 <= j < i ==> !uppercase_of(v@[j]),
        decreases n - i,
    {
        if i >= n {
            proof {
                if any_uppercase(v@) {
                    let w = choose|w: int| 0 <= w < v@.len() && uppercase_of(v@[w]);
                }
            }
            return false;
        }
        if char_is_uppercase(v[i]) {
            return true;
        }
        i = i + 1;
    }
}

fn find_lowercase(v: &Vec<char>) -> (r: bool)
    ensures
        r == any_lowercase(v@),
{
    let n = v.len();
    let mut i: usize = 0;
    loop
        invariant
            i <= n,
            n == v@.len(),
            forall|j: int| 0 <= j < i ==> !lowercase_of(v@[j]),
        decreases n - i,
    {
        if i >= n {
            proof {
                if any_lowercase(v@) {
                    let w = choose|w: int| 0 <= w < v@.len() && lowercase_of(v@[w]);
                }
            }
            return false;
        }
        if char_is_lowercase(v[i]) {
            return true;
        }
        i = i + 1;
    }
}

fn find_numeric(v: &Vec<char>) -> (r: bool)
    ensures
        r == any_numeric(v@),
{
    let n = v.len();
    let mut i: usize = 0;
    loop
        invariant
            i <= n,
            n == v@.len(),
            forall|j: int| 0 <= j < i ==> !numeric_of(v@[j]),
        decreases n - i,
    {
        if i >= n {
            proof {
                if any_numeric(v@) {
                    let w = choose|w: int| 0 <= w < v@.len() && numeric_of(v@[w]);
                }
            }
            return false;
        }
        if char_is_numeric(v[i]) {
            return true;
        }
        i = i + 1;
    }
}

/// A password must hold at least eight bytes, an uppercase letter, a
/// lowercase letter and a numeral; the first missing rule names the
/// failure.
pub fn validate_password_strength(password: &str) -> (r: Result<(), ApiError>)
    ensures
        match r {
            Ok(_) => password.len() >= 8 && any_uppercase(password@) && any_lowercase(password@)
                && any_numeric(password@),
            Err(e) => e matches ApiError::ValidationError(_) && !(password.len() >= 8
                && any_uppercase(password@) && any_lowercase(password@) && any_numeric(
                password@,
            )),
        },
{
    if password.len() < 8 {
        return Err(
            ApiError::ValidationError("Password must be at least 8 characters long".to_owned()),
        );
    }
    let v = string_to_chars(password);
    if !find_uppercase(&v) {
        return Err(
            ApiError::ValidationError(
                "Password must contain at least one uppercase letter".to_owned(),
            ),
        );
    }
    if !find_lowercase(&v) {
        return Err(
            ApiError::ValidationError(
                "Password must contain at least one lowercase letter".to_owned(),
            ),
        );
    }
    if !find_numeric(&v) {
        return Err(
            ApiError::ValidationError("Password must contain at least one number".to_owned()),
        );
    }
    Ok(())
}

/// A whitespace scalar, per the Unicode White_Space property that
/// `str::trim` strips: the ASCII whitespace and the listed separator
/// code points.
pub open spec fn is_ws_code(u: u32) -> bool {
    ||| u == 0x20
    ||| u == 0x9
    ||| u == 0xA
    ||| u == 0xB
    ||| u == 0xC
    ||| u == 0xD
    ||| u == 0x85
    ||| u == 0xA0
    ||| u == 0x1680
    ||| (0x2000 <= u && u <= 0x200A)
    ||| u == 0x2028
    ||| u == 0x2029
    ||| u == 0x202F
    ||| u == 0x3000
}

/// A whitespace character.
pub open spec fn is_ws_char(c: char) -> bool {
    is_ws_code(c as u32)
}

fn is_ws_exec(c: char) -> (r: bool)
    ensures
        r == is_ws_char(c),
{
    let u = c as u32;
    u == 0x20 || u == 0x9 || u == 0xA || u == 0xB || u == 0xC || u == 0xD || u == 0x85 || u
        == 0xA0 || u == 0x1680 || (0x2000 <= u && u <= 0x200A) || u == 0x2028 || u == 0x2029 || u
        == 0x202F || u == 0x3000
}

/// The characters of `s` between its first and last non-whitespace
/// character: what trimming keeps.
pub open spec fn trimmed(s: Seq<char>) -> Seq<char> {
    trim_back(trim_front(s))
}

/// `s` without its leading whitespace.
pub open spec fn trim_front(s: Seq<char>) -> Seq<char>
    decreases s.len(),
{
    if s.len() > 0 && is_ws_char(s[0]) {
        trim_front(s.skip(1))
    } else {
        s
    }
}

/// `s` without its trailing whitespace.
pub open spec fn trim_back(s: Seq<char>) -> Seq<char>
    decreases s.len(),
{
    if s.len() > 0 && is_ws_char(s.last()) {
        trim_back(s.drop_last())
    } else {
        s
    }
}

proof fn lemma_trim_front_at(s: Seq<char>, i: int)
    requires
        0 <= i <= s.len(),
        forall|j: int| 0 <= j < i ==> is_ws_char(s[j]),
        i < s.len() ==> !is_ws_char(s[i]),
    ensures
        trim_front(s) == s.skip(i),
    decreases i,
{
    if i == 0 {
        assert(s.skip(0) =~= s);
    } else {
        assert(is_ws_char(s[0]));
        assert(forall|j: int| 0 <= j < i - 1 ==> is_ws_char(#[trigger] s.skip(1)[j]));
        lemma_trim_front_at(s.skip(1), i - 1);
        assert(s.skip(1).skip(i - 1) =~= s.skip(i));
    }
}

proof fn lemma_trim_back_at(s: Seq<char>, j: int)
    requires
        0 <= j <= s.len(),
        forall|k: int| j <= k < s.len() ==> is_ws_char(s[k]),
        j > 0 ==> !is_ws_char(s[j - 1]),
    ensures
        trim_back(s) == s.take(j),
    decreases s.len() - j,
{
    if j == s.len() {
        assert(s.take(j) =~= s);
    } else {
        assert(is_ws_char(s.last()));
        assert(forall|k: int| j <= k < s.len() - 1 ==> is_ws_char(#[trigger] s.drop_last()[k]));
        lemma_trim_back_at(s.drop_last(), j);
        assert(s.drop_last().take(j) =~= s.take(j));
    }
}

/// Trim surrounding whitespace from the input.
#[verifier::loop_isolation(false)]
pub fn sanitize_string(input: &str) -> (r: String)
    ensures
        r@ == trimmed(input@),
{
    let n = input.unicode_len();
    let mut a: usize = 0;
    while a < n && is_ws_exec(input.get_char(a))
        invariant
            a <= n,
            n == input@.len(),
            forall|j: int| 0 <= j < a ==> is_ws_char(input@[j]),
        decreases n - a,
    {
        a = a + 1;
    }
    proof {
        lemma_trim_front_at(input@, a as int);
    }
    let mut b: usize = n;
    while b > a && is_ws_exec(input.get_char(b - 1))
        invariant
            a <= b <= n,
            forall|k: int| b <= k < n ==> is_ws_char(input@[k]),
        decreases b,
    {
        b = b - 1;
    }
    let out = input.substring_char(a, b);
    proof {
        let tf = input@.skip(a as int);
        assert(forall|k: int|
            b - a <= k < tf.len() ==> is_ws_char(#[trigger] tf[k]));
        if b > a {
            assert(!is_ws_char(tf[b - a - 1]));
        }
        lemma_trim_back_at(tf, b - a);
        assert(tf.take(b - a) =~= input@.subrange(a as int, b as int));
    }
    out.to_owned()
}

/// The segment of `s` after its last dot, or all of `s` when it has
/// none: the file extension as splitting on dots reads it.
pub open spec fn extension_of(s: Seq<char>) -> Seq<char>
    decreases s.len(),
{
    if s.len() == 0 {
        s
    } else if s.last() == '.' {
        Seq::empty()
    } else {
        extension_of(s.drop_last()).push(s.last())
    }
}

proof fn lemma_extension_at(s: Seq<char>, k: int)
    requires
        0 <= k <= s.len(),
        k > 0 ==> s[k - 1] == '.',
        k == 0 ==> forall|j: int| 0 <= j < s.len() ==> s[j] != '.',
        forall|j: int| k <= j < s.len() ==> s[j] != '.',
    ensures
        extension_of(s) == s.skip(k),
    decreases s.len() - k,
{
    if k == s.len() {
        if k > 0 {
            assert(s.skip(k) =~= Seq::<char>::empty());
        } else {
            assert(s.skip(0) =~= s);
            assert(s.len() == 0);
        }
    } else {
        assert(s.last() != '.');
        assert(forall|j: int| k <= j < s.len() - 1 ==> #[trigger] s.drop_last()[j] == s[j]);
        lemma_extension_at(s.drop_last(), k);
        assert(extension_of(s) == s.drop_last().skip(k).push(s.last()));
        assert(s.drop_last().skip(k).push(s.last()) =~= s.skip(k));
    }
}

/// Whether the file name's extension, lowercased, is one of the allowed
/// words.
#[verifier::loop_isolation(false)]
pub fn is_valid_file_extension(filename: &str, allowed_extensions: &Vec<String>) -> (r: bool)
    ensures
        r == (exists|k: int|
            0 <= k < allowed_extensions@.len() && (#[trigger] allowed_extensions@[k])@ == lower_of(
                extension_of(filename@),
            )),
{
    let v = string_to_chars(filename);
    let n = v.len();
    // The last dot, if any.
    let mut cut: usize = 0;
    let mut i: usize = 0;
    while i < n
        invariant
            i <= n,
            n == v@.len(),
            cut <= i,
            cut > 0 ==> v@[cut - 1] == '.',
            cut == 0 ==> forall|j: int| 0 <= j < i ==> v@[j] != '.',
            forall|j: int| cut <= j < i ==> v@[j] != '.',
        decreases n - i,
    {
        if v[i] == '.' {
            cut = i + 1;
        }
        i = i + 1;
    }
    proof {
        lemma_extension_at(v@, cut as int);
    }
    let ext = filename.substring_char(cut, n);
    let lowered = to_lowercase(ext);
    let m = allowed_extensions.len();
    let mut k: usize = 0;
    loop
        invariant
            k <= m,
            forall|j: int| 0 <= j < k ==> (#[trigger] allowed_extensions@[j])@ != lowered@,
        decreases m - k,
    {
        if k >= m {
            proof {
                if exists|j: int|
                    0 <= j < allowed_extensions@.len() && (#[trigger] allowed_extensions@[j])@
                        == lowered@ {
                    let w = choose|j: int|
                        0 <= j < allowed_extensions@.len() && (#[trigger] allowed_extensions@[j])@
                            == lowered@;
                }
            }
            return false;
        }
        if crate::text::str_eq(allowed_extensions[k].as_str(), lowered.as_str()) {
            return true;
        }
        k = k + 1;
    }
}

} // verus!
