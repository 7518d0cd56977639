//! Self-validating identifiers and scalars.  Each type has one fallible
//! constructor; an invalid instance is never constructed.  Lengths are
//! counted in characters.

use vstd::prelude::*;
use crate::error::DomainError;
use crate::ids::{fresh_uuid_simple, is_simple_uuid};
use crate::polyfill::{chars_to_string, string_to_chars};
use crate::text::{all_id_chars, is_ascii_letter, is_digit_char, is_id_char, str_eq, str_has_prefix};

verus! {

/// A character the local part of an email address may hold.
pub open spec fn is_email_local_char(c: char) -> bool {
    is_ascii_letter(c) || is_digit_char(c) || c == '.' || c == '_' || c == '%' || c == '+' || c
        == '-'
}

/// A character the domain part of an email address may hold.
pub open spec fn is_email_domain_char(c: char) -> bool {
    is_ascii_letter(c) || is_digit_char(c) || c == '.' || c == '-'
}

/// The split of `s` as `local @ domain . tld` at positions `a` (the `@`)
/// and `k` (the dot before the top-level domain): nonempty local part of
/// local characters, nonempty domain part of domain characters, and a
/// top-level domain of two or more letters.
pub open spec fn email_split_ok(s: Seq<char>, a: int, k: int) -> bool {
    &&& 1 <= a
    &&& a + 2 <= k
    &&& k + 3 <= s.len()
    &&& s[a] == '@'
    &&& s[k] == '.'
    &&& forall|j: int| 0 <= j < a ==> is_email_local_char(#[trigger] s[j])
    &&& forall|j: int| a < j < k ==> is_email_domain_char(#[trigger] s[j])
    &&& forall|j: int| k < j < s.len() ==> is_ascii_letter(#[trigger] s[j])
}

/// A well-formed email address: some split as `local @ domain . tld`.
pub open spec fn email_ok(s: Seq<char>) -> bool {
    exists|a: int, k: int| email_split_ok(s, a, k)
}

/// If `email_ok` holds and `a` is the first `@`, every witness split uses
/// `a`.
proof fn lemma_email_witness_at(s: Seq<char>, a: int)
    requires
        email_ok(s),
        0 <= a < s.len(),
        s[a] == '@',
        forall|j: int| 0 <= j < a ==> s[j] != '@',
    ensures
        exists|k: int| email_split_ok(s, a, k),
{
    let (a0, k0) = choose|a0: int, k0: int| email_split_ok(s, a0, k0);
    if a0 < a {
        assert(s[a0] == '@');
        assert(false);
    } else if a0 > a {
        assert(is_email_local_char(s[a]));
        assert(false);
    }
    assert(email_split_ok(s, a, k0));
}

/// If some split at `a` exists and `d` is the last dot after `a`, the
/// split's dot is `d`.
proof fn lemma_email_witness_dot(s: Seq<char>, a: int, d: int)
    requires
        exists|k: int| email_split_ok(s, a, k),
        a < d < s.len(),
        s[d] == '.',
        forall|j: int| d < j < s.len() ==> s[j] != '.',
    ensures
        email_split_ok(s, a, d),
{
    let k0 = choose|k0: int| email_split_ok(s, a, k0);
    if k0 > d {
        assert(s[k0] == '.');
        assert(false);
    } else if k0 < d {
        assert(is_ascii_letter(s[d]));
        assert(false);
    }
}

/// Email address value object.
#[derive(Debug, Clone, PartialEq, Eq)]
pub struct Email(String);

impl View for Email {
    type V = Seq<char>;

    closed spec fn view(&self) -> Seq<char> {
        self.0@
    }
}

fn is_email_local_char_exec(c: char) -> (r: bool)
    ensures
        r == is_email_local_char(c),
{
    ('a' <= c && c <= 'z') || ('A' <= c && c <= 'Z') || ('0' <= c && c <= '9') || c == '.' || c
        == '_' || c == '%' || c == '+' || c == '-'
}

fn is_email_domain_char_exec(c: char) -> (r: bool)
    ensures
        r == is_email_domain_char(c),
{
    ('a' <= c && c <= 'z') || ('A' <= c && c <= 'Z') || ('0' <= c && c <= '9') || c == '.' || c
        == '-'
}

fn is_ascii_letter_exec(c: char) -> (r: bool)
    ensures
        r == is_ascii_letter(c),
{
    ('a' <= c && c <= 'z') || ('A' <= c && c <= 'Z')
}

fn is_id_char_exec(c: char) -> (r: bool)
    ensures
        r == is_id_char(c),
{
    ('a' <= c && c <= 'z') || ('A' <= c && c <= 'Z') || ('0' <= c && c <= '9') || c == '_' || c
        == '-'
}

impl Email {
    /// Accepts exactly the addresses of the shape `local@domain.tld`
    /// described by `email_ok`.
    #[verifier::loop_isolation(false)]
    pub fn new(email: &str) -> (r: Result<Email, DomainError>)
        ensures
            match r {
                Ok(e) => email_ok(email@) && e@ == email@,
                Err(err) => !email_ok(email@) && (err matches DomainError::ValidationFailed(m)
                    && m@ == "Invalid email format"@),
            },
    {
        let v = string_to_chars(email);
        let n = v.len();
        let err: Result<Email, DomainError> = Err(
            DomainError::ValidationFailed("Invalid email format".to_owned()),
        );
        // First '@'.
        let at: usize = match crate::text::find_first_char(&v, '@') {
            Some(a) => a,
            None => {
                proof {
                    if email_ok(email@) {
                        let (a0, k0) = choose|a0: int, k0: int| email_split_ok(email@, a0, k0);
                        assert(email@[a0] == '@');
                    }
                }
                return err;
            },
        };
        if at == 0 {
            proof {
                if email_ok(email@) {
                    lemma_email_witness_at(email@, 0);
                    let k0 = choose|k0: int| email_split_ok(email@, 0, k0);
                }
            }
            return err;
        }
        // Local part.
        let mut i: usize = 0;
        while i < at
            invariant
                i <= at,
                at < n,
                n == v@.len(),
                v@ == email@,
                v@[at as int] == '@',
                forall|j: int| 0 <= j < at ==> v@[j] != '@',
                forall|j: int| 0 <= j < i ==> is_email_local_char(#[trigger] v@[j]),
            decreases at - i,
        {
            if !is_email_local_char_exec(v[i]) {
                proof {
                    if email_ok(email@) {
                        lemma_email_witness_at(email@, at as int);
                        let k0 = choose|k0: int| email_split_ok(email@, at as int, k0);
                        assert(email_split_ok(email@, at as int, k0));
                        assert(is_email_local_char(email@[i as int]));
                    }
                }
                return err;
            }
            i = i + 1;
        }
        // Last '.' after the '@'.
        let mut dot: usize = 0;
        let mut dot_found = false;
        let mut i: usize = at + 1;
        while i < n
            invariant
                at < i <= n,
                n == v@.len(),
                v@ == email@,
                !dot_found ==> forall|j: int| at < j < i ==> v@[j] != '.',
                dot_found ==> at < dot && dot < i && v@[dot as int] == '.' && (forall|j: int|
                    dot < j < i ==> v@[j] != '.'),
            decreases n - i,
        {
            if v[i] == '.' {
                dot = i;
                dot_found = true;
            }
            i = i + 1;
        }
        if !dot_found {
            proof {
                if email_ok(email@) {
                    lemma_email_witness_at(email@, at as int);
                    let k0 = choose|k0: int| email_split_ok(email@, at as int, k0);
                    assert(email_split_ok(email@, at as int, k0));
                    assert(email@[k0] == '.');
                }
            }
            return err;
        }
        proof {
            if email_ok(email@) {
                lemma_email_witness_at(email@, at as int);
                lemma_email_witness_dot(email@, at as int, dot as int);
            }
        }
        // Shape around the dot: nonempty domain, top-level domain of two
        // or more letters.
        if dot - at < 2 || n - dot < 3 {
            return err;
        }
        // Domain part.
        let mut i: usize = at + 1;
        while i < dot
            invariant
                at < i <= dot,
                dot < n,
                n == v@.len(),
                v@ == email@,
                forall|j: int| at < j < i ==> is_email_domain_char(#[trigger] v@[j]),
            decreases dot - i,
        {
            if !is_email_domain_char_exec(v[i]) {
                proof {
                    if email_ok(email@) {
                        assert(is_email_domain_char(email@[i as int]));
                    }
                }
                return err;
            }
            i = i + 1;
        }
        // Top-level domain.
        let mut i: usize = dot + 1;
        while i < n
            invariant
                dot < i <= n,
                n == v@.len(),
                v@ == email@,
                forall|j: int| dot < j < i ==> is_ascii_letter(#[trigger] v@[j]),
            decreases n - i,
        {
            if !is_ascii_letter_exec(v[i]) {
                proof {
                    if email_ok(email@) {
                        assert(is_ascii_letter(email@[i as int]));
                    }
                }
                return err;
            }
            i = i + 1;
        }
        proof {
            assert(email_split_ok(email@, at as int, dot as int));
        }
        Ok(Email(email.to_owned()))
    }

    pub fn as_str(&self) -> (r: &str)
        ensures
            r@ == self@,
    {
        self.0.as_str()
    }
}

/// A well-formed tenant identifier: one to fifty characters of the
/// identifier alphabet.
pub open spec fn tenant_id_ok(s: Seq<char>) -> bool {
    1 <= s.len() <= 50 && all_id_chars(s)
}

/// Tenant identifier value object.
#[derive(Debug, Clone, PartialEq, Eq)]
pub struct TenantId(String);

impl View for TenantId {
    type V = Seq<char>;

    closed spec fn view(&self) -> Seq<char> {
        self.0@
    }
}

impl TenantId {
    /// Accepts exactly one to fifty identifier characters.
    #[verifier::loop_isolation(false)]
    pub fn new(id: &str) -> (r: Result<TenantId, DomainError>)
        ensures
            match r {
                Ok(t) => tenant_id_ok(id@) && t@ == id@,
                Err(err) => !tenant_id_ok(id@) && err matches DomainError::ValidationFailed(_),
            },
    {
        let v = string_to_chars(id);
        let n = v.len();
        if n == 0 || n > 50 {
            return Err(
                DomainError::ValidationFailed("Tenant ID must be 1-50 characters".to_owned()),
            );
        }
        let mut i: usize = 0;
        while i < n
            invariant
                i <= n,
                n == v@.len(),
                v@ == id@,
                forall|j: int| 0 <= j < i ==> is_id_char(#[trigger] v@[j]),
            decreases n - i,
        {
            if !is_id_char_exec(v[i]) {
                return Err(
                    DomainError::ValidationFailed(
                        "Tenant ID can only contain alphanumeric characters, underscores, and hyphens".to_owned(),
                    ),
                );
            }
            i = i + 1;
        }
        Ok(TenantId(id.to_owned()))
    }

    pub fn as_str(&self) -> (r: &str)
        ensures
            r@ == self@,
    {
        self.0.as_str()
    }
}

/// A well-formed RFQ identifier: one to fifty characters, free-form.
pub open spec fn rfq_id_ok(s: Seq<char>) -> bool {
    1 <= s.len() <= 50
}

/// RFQ identifier value object.  Either supplied by the caller or
/// generated as `r_` followed by eight uppercase hexadecimal digits.
#[derive(Debug, Clone, PartialEq, Eq)]
pub struct RfqId(String);

impl View for RfqId {
    type V = Seq<char>;

    closed spec fn view(&self) -> Seq<char> {
        self.0@
    }
}

/// An uppercase hexadecimal digit.
pub open spec fn is_upper_hex_char(c: char) -> bool {
    ('0' <= c && c <= '9') || ('A' <= c && c <= 'F')
}

/// The shape of a generated RFQ identifier: `r_` and eight uppercase
/// hexadecimal digits.
pub open spec fn generated_rfq_id_ok(s: Seq<char>) -> bool {
    &&& s.len() == 10
    &&& s[0] == 'r'
    &&& s[1] == '_'
    &&& forall|i: int| 2 <= i < 10 ==> is_upper_hex_char(#[trigger] s[i])
}

fn upper_hex_of_lower(c: char) -> (r: char)
    requires
        crate::text::is_lower_hex_char(c),
    ensures
        is_upper_hex_char(r),
{
    match c {
        'a' => 'A',
        'b' => 'B',
        'c' => 'C',
        'd' => 'D',
        'e' => 'E',
        'f' => 'F',
        _ => c,
    }
}

impl RfqId {
    /// Accepts exactly one to fifty characters.
    pub fn new(id: &str) -> (r: Result<RfqId, DomainError>)
        ensures
            match r {
                Ok(t) => rfq_id_ok(id@) && t@ == id@,
                Err(err) => !rfq_id_ok(id@) && err matches DomainError::ValidationFailed(_),
            },
    {
        let n = vstd::string::StrSliceExecFns::unicode_len(id);
        if n == 0 || n > 50 {
            return Err(DomainError::ValidationFailed("RFQ ID must be 1-50 characters".to_owned()));
        }
        Ok(RfqId(id.to_owned()))
    }

    /// A fresh identifier: `r_` and the first eight digits of a random
    /// UUID, uppercased.
    #[verifier::loop_isolation(false)]
    pub fn generate() -> (r: RfqId)
        ensures
            generated_rfq_id_ok(r@),
            rfq_id_ok(r@),
            r@.take(2) == "r_"@,
    {
        let raw = fresh_uuid_simple();
        let rawc = string_to_chars(raw.as_str());
        let mut out: Vec<char> = Vec::new();
        out.push('r');
        out.push('_');
        let mut i: usize = 0;
        while i < 8
            invariant
                i <= 8,
                rawc@.len() == 32,
                is_simple_uuid(rawc@),
                out@.len() == i + 2,
                out@[0] == 'r',
                out@[1] == '_',
                forall|j: int| 2 <= j < out@.len() ==> is_upper_hex_char(#[trigger] out@[j]),
            decreases 8 - i,
        {
            out.push(upper_hex_of_lower(rawc[i]));
            i = i + 1;
        }
        let s = chars_to_string(&out);
        proof {
            assert(s@.take(2) =~= "r_"@) by {
                vstd::string::axiom_str_literal_len("r_");
                vstd::string::axiom_str_literal_get_char("r_", 0);
                vstd::string::axiom_str_literal_get_char("r_", 1);
                reveal_strlit("r_");
            }
        }
        RfqId(s)
    }

    pub fn as_str(&self) -> (r: &str)
        ensures
            r@ == self@,
    {
        self.0.as_str()
    }
}

/// A well-formed manufacturer identifier: `mfg_` followed by at least one
/// identifier character, fifty characters at most.
pub open spec fn manufacturer_id_ok(s: Seq<char>) -> bool {
    &&& 5 <= s.len() <= 50
    &&& s.take(4) == "mfg_"@
    &&& all_id_chars(s)
}

/// Manufacturer identifier value object.
#[derive(Debug, Clone, PartialEq, Eq)]
pub struct ManufacturerId(String);

impl View for ManufacturerId {
    type V = Seq<char>;

    closed spec fn view(&self) -> Seq<char> {
        self.0@
    }
}

impl ManufacturerId {
    /// Accepts exactly `mfg_` plus one to forty-six identifier characters.
    #[verifier::loop_isolation(false)]
    pub fn new(id: &str) -> (r: Result<ManufacturerId, DomainError>)
        ensures
            match r {
                Ok(t) => manufacturer_id_ok(id@) && t@ == id@,
                Err(err) => !manufacturer_id_ok(id@) && err matches DomainError::ValidationFailed(
                    _,
                ),
            },
    {
        let v = string_to_chars(id);
        let n = v.len();
        if n == 0 || n > 50 {
            return Err(
                DomainError::ValidationFailed("Manufacturer ID must be 1-50 characters".to_owned()),
            );
        }
        let err: Result<ManufacturerId, DomainError> = Err(
            DomainError::ValidationFailed(
                "Manufacturer ID must start with 'mfg_' and contain only alphanumeric characters, underscores, and hyphens".to_owned(),
            ),
        );
        if !str_has_prefix(id, "mfg_") {
            proof {
                reveal_strlit("mfg_");
            }
            return err;
        }
        proof {
            reveal_strlit("mfg_");
        }
        if n < 5 {
            return err;
        }
        let mut i: usize = 0;
        while i < n
            invariant
                i <= n,
                n == v@.len(),
                v@ == id@,
                forall|j: int| 0 <= j < i ==> is_id_char(#[trigger] v@[j]),
            decreases n - i,
        {
            if !is_id_char_exec(v[i]) {
                proof {
                    if manufacturer_id_ok(id@) {
                        assert(is_id_char(id@[i as int]));
                    }
                }
                return err;
            }
            i = i + 1;
        }
        Ok(ManufacturerId(id.to_owned()))
    }

    /// A fresh identifier: `mfg_` and the first eight digits of a random
    /// UUID.
    #[verifier::loop_isolation(false)]
    pub fn generate() -> (r: ManufacturerId)
        ensures
            manufacturer_id_ok(r@),
            r@.take(4) == "mfg_"@,
            r@.len() == 12,
    {
        let raw = fresh_uuid_simple();
        let rawc = string_to_chars(raw.as_str());
        let mut out: Vec<char> = Vec::new();
        out.push('m');
        out.push('f');
        out.push('g');
        out.push('_');
        let mut i: usize = 0;
        while i < 8
            invariant
                i <= 8,
                rawc@.len() == 32,
                is_simple_uuid(rawc@),
                out@.len() == i + 4,
                out@[0] == 'm',
                out@[1] == 'f',
                out@[2] == 'g',
                out@[3] == '_',
                forall|j: int| 4 <= j < out@.len() ==> is_id_char(#[trigger] out@[j]),
            decreases 8 - i,
        {
            let c = rawc[i];
            proof {
                assert(crate::text::is_lower_hex_char(rawc@[i as int]));
            }
            out.push(c);
            i = i + 1;
        }
        let s = chars_to_string(&out);
        proof {
            assert(s@.take(4) =~= "mfg_"@) by {
                reveal_strlit("mfg_");
            }
            assert(all_id_chars(s@));
        }
        ManufacturerId(s)
    }

    pub fn as_str(&self) -> (r: &str)
        ensures
            r@ == self@,
    {
        self.0.as_str()
    }
}

/// A well-formed object-store key: one to 1024 characters, no leading
/// slash, no empty path segment.
pub open spec fn s3_key_ok(s: Seq<char>) -> bool {
    &&& 1 <= s.len() <= 1024
    &&& s[0] != '/'
    &&& forall|i: int| 0 <= i < s.len() - 1 ==> !(#[trigger] s[i] == '/' && s[i + 1] == '/')
}

/// Object-store key value object.
#[derive(Debug, Clone, PartialEq, Eq)]
pub struct S3Key(String);

impl View for S3Key {
    type V = Seq<char>;

    closed spec fn view(&self) -> Seq<char> {
        self.0@
    }
}

impl S3Key {
    /// Accepts exactly the keys described by `s3_key_ok`.
    #[verifier::loop_isolation(false)]
    pub fn new(key: &str) -> (r: Result<S3Key, DomainError>)
        ensures
            match r {
                Ok(t) => s3_key_ok(key@) && t@ == key@,
                Err(err) => !s3_key_ok(key@) && err matches DomainError::ValidationFailed(_),
            },
    {
        let v = string_to_chars(key);
        let n = v.len();
        if n == 0 || n > 1024 {
            return Err(DomainError::ValidationFailed("S3 key must be 1-1024 characters".to_owned()));
        }
        let bad = Err(DomainError::ValidationFailed("Invalid S3 key format".to_owned()));
        if v[0] == '/' {
            return bad;
        }
        let mut i: usize = 0;
        while i + 1 < n
            invariant
                i < n,
                n == v@.len(),
                v@ == key@,
                forall|j: int| 0 <= j < i ==> !(#[trigger] v@[j] == '/' && v@[j + 1] == '/'),
            decreases n - i,
        {
            if v[i] == '/' && v[i + 1] == '/' {
                proof {
                    if s3_key_ok(key@) {
                        assert(!(key@[i as int] == '/' && key@[i as int + 1] == '/'));
                    }
                }
                return bad;
            }
            i = i + 1;
        }
        Ok(S3Key(key.to_owned()))
    }

    pub fn as_str(&self) -> (r: &str)
        ensures
            r@ == self@,
    {
        self.0.as_str()
    }
}

/// The closed allow-list of attachment content types.
pub open spec fn content_type_ok(s: Seq<char>) -> bool {
    ||| s == "image/jpeg"@
    ||| s == "image/png"@
    ||| s == "image/webp"@
    ||| s == "image/avif"@
    ||| s == "application/pdf"@
}

/// Content type value object.
#[derive(Debug, Clone, PartialEq, Eq)]
pub struct ContentType(String);

impl View for ContentType {
    type V = Seq<char>;

    closed spec fn view(&self) -> Seq<char> {
        self.0@
    }
}

impl ContentType {
    /// Accepts exactly the five allow-listed content types.
    pub fn new(content_type: &str) -> (r: Result<ContentType, DomainError>)
        ensures
            match r {
                Ok(t) => content_type_ok(content_type@) && t@ == content_type@,
                Err(err) => !content_type_ok(content_type@)
                    && err matches DomainError::ValidationFailed(_),
            },
    {
        if str_eq(content_type, "image/jpeg") || str_eq(content_type, "image/png") || str_eq(
            content_type,
            "image/webp",
        ) || str_eq(content_type, "image/avif") || str_eq(content_type, "application/pdf") {
            Ok(ContentType(content_type.to_owned()))
        } else {
            Err(DomainError::ValidationFailed("Content type is not allowed".to_owned()))
        }
    }

    pub fn as_str(&self) -> (r: &str)
        ensures
            r@ == self@,
    {
        self.0.as_str()
    }

    /// Whether this is an image type, i.e. starts with `image/`.
    pub fn is_image(&self) -> (r: bool)
        ensures
            r == (self@.len() >= 6 && self@.take(6) == "image/"@),
    {
        proof {
            reveal_strlit("image/");
        }
        str_has_prefix(self.0.as_str(), "image/")
    }
}

/// The largest accepted attachment, in bytes: 15 MiB.
pub const MAX_FILE_SIZE_BYTES: u64 = 15 * 1024 * 1024;

/// A well-formed file size: one byte up to 15 MiB inclusive.
pub open spec fn file_size_ok(n: u64) -> bool {
    1 <= n <= MAX_FILE_SIZE_BYTES
}

/// File size value object.
#[derive(Debug, Clone, PartialEq, Eq)]
pub struct FileSize(u64);

impl View for FileSize {
    type V = u64;

    closed spec fn view(&self) -> u64 {
        self.0
    }
}

impl FileSize {
    /// Accepts exactly one byte up to 15 MiB.
    pub fn new(size_bytes: u64) -> (r: Result<FileSize, DomainError>)
        ensures
            match r {
                Ok(t) => file_size_ok(size_bytes) && t@ == size_bytes,
                Err(err) => !file_size_ok(size_bytes) && err matches DomainError::ValidationFailed(
                    _,
                ),
            },
    {
        if size_bytes == 0 {
            return Err(DomainError::ValidationFailed("File size cannot be zero".to_owned()));
        }
        if size_bytes > MAX_FILE_SIZE_BYTES {
            return Err(DomainError::ValidationFailed("File size exceeds the maximum".to_owned()));
        }
        Ok(FileSize(size_bytes))
    }

    pub fn as_u64(&self) -> (r: u64)
        ensures
            r == self@,
    {
        self.0
    }
}

/// The longest accepted message body, in characters.
pub const MAX_MESSAGE_BODY_CHARS: usize = 8000;

/// A well-formed message body: one to eight thousand characters, and not
/// both `<` and `>` anywhere in it.  The angle-bracket rule is a crude
/// heuristic against HTML fragments, kept exactly as stated; it is no
/// sanitizer.
pub open spec fn message_body_ok(s: Seq<char>) -> bool {
    &&& 1 <= s.len() <= MAX_MESSAGE_BODY_CHARS
    &&& !(s.contains('<') && s.contains('>'))
}

/// Message body value object.
#[derive(Debug, Clone, PartialEq, Eq)]
pub struct MessageBody(String);

impl View for MessageBody {
    type V = Seq<char>;

    closed spec fn view(&self) -> Seq<char> {
        self.0@
    }
}

impl MessageBody {
    /// Accepts exactly the bodies described by `message_body_ok`.
    #[verifier::loop_isolation(false)]
    pub fn new(body: &str) -> (r: Result<MessageBody, DomainError>)
        ensures
            match r {
                Ok(t) => message_body_ok(body@) && t@ == body@,
                Err(err) => !message_body_ok(body@) && err matches DomainError::ValidationFailed(
                    _,
                ),
            },
    {
        let v = string_to_chars(body);
        let n = v.len();
        if n == 0 {
            return Err(DomainError::ValidationFailed("Message body cannot be empty".to_owned()));
        }
        if n > MAX_MESSAGE_BODY_CHARS {
            return Err(
                DomainError::ValidationFailed("Message body exceeds maximum length".to_owned()),
            );
        }
        let mut has_lt = false;
        let mut has_gt = false;
        let mut i: usize = 0;
        while i < n
            invariant
                i <= n,
                n == v@.len(),
                v@ == body@,
                has_lt == v@.take(i as int).contains('<'),
                has_gt == v@.take(i as int).contains('>'),
            decreases n - i,
        {
            let c = v[i];
            proof {
                let t = v@.take(i + 1);
                assert(t.drop_last() =~= v@.take(i as int));
                assert(t.last() == v@[i as int]);
                assert(t.contains('<') == (v@.take(i as int).contains('<') || v@[i as int] == '<'))
                    by {
                    if t.contains('<') {
                        let w = choose|w: int| 0 <= w < t.len() && t[w] == '<';
                        if w < i {
                            assert(v@.take(i as int)[w] == '<');
                        }
                    }
                    if v@.take(i as int).contains('<') {
                        let w = choose|w: int| 0 <= w < i && v@.take(i as int)[w] == '<';
                        assert(t[w] == '<');
                    }
                    if v@[i as int] == '<' {
                        assert(t[i as int] == '<');
                    }
                }
                assert(t.contains('>') == (v@.take(i as int).contains('>') || v@[i as int] == '>'))
                    by {
                    if t.contains('>') {
                        let w = choose|w: int| 0 <= w < t.len() && t[w] == '>';
                        if w < i {
                            assert(v@.take(i as int)[w] == '>');
                        }
                    }
                    if v@.take(i as int).contains('>') {
                        let w = choose|w: int| 0 <= w < i && v@.take(i as int)[w] == '>';
                        assert(t[w] == '>');
                    }
                    if v@[i as int] == '>' {
                        assert(t[i as int] == '>');
                    }
                }
            }
            if c == '<' {
                has_lt = true;
            }
            if c == '>' {
                has_gt = true;
            }
            i = i + 1;
        }
        proof {
            assert(v@.take(n as int) =~= v@);
        }
        if has_lt && has_gt {
            return Err(
                DomainError::ValidationFailed("HTML tags are not allowed in message body".to_owned()),
            );
        }
        Ok(MessageBody(body.to_owned()))
    }

    pub fn as_str(&self) -> (r: &str)
        ensures
            r@ == self@,
    {
        self.0.as_str()
    }
}

} // verus!
