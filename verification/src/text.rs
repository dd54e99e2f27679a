//! Verified text utilities: string equality, decimal formatting and parsing,
//! the `Range` header value, HLS routing by URL, and relative URI resolution.

use vstd::prelude::*;
use vstd::string::StrSliceExecFns;
use vstd::string::StringExecFns;
use vstd::string::StringSliceAdditionalSpecFns;

verus! {

/// Structural equality of two string slices, decided by comparing their
/// UTF-8 bytes.
pub fn str_eq(a: &str, b: &str) -> (r: bool)
    ensures
        r == (a@ == b@),
{
    let ab = a.as_bytes();
    let bb = b.as_bytes();
    if ab.len() != bb.len() {
        proof {
            // Equal views would encode to equal byte sequences.
            assert(a@ != b@);
        }
        return false;
    }
    let n = ab.len();
    let mut i: usize = 0;
    while i < n
        invariant
            n == ab@.len() == bb@.len(),
            i <= n,
            ab@ == a.spec_bytes(),
            bb@ == b.spec_bytes(),
            forall|j: int| 0 <= j < i ==> ab@[j] == bb@[j],
        decreases n - i,
    {
        if ab[i] != bb[i] {
            proof {
                assert(a.spec_bytes() != b.spec_bytes());
                assert(a@ != b@);
            }
            return false;
        }
        i += 1;
    }
    proof {
        assert(a.spec_bytes() =~= b.spec_bytes());
        vstd::utf8::encode_utf8_decode_utf8(a@);
        vstd::utf8::encode_utf8_decode_utf8(b@);
    }
    true
}

/// The character for a single decimal digit.
pub open spec fn spec_digit_char(d: nat) -> char {
    if d == 0 {
        '0'
    } else if d == 1 {
        '1'
    } else if d == 2 {
        '2'
    } else if d == 3 {
        '3'
    } else if d == 4 {
        '4'
    } else if d == 5 {
        '5'
    } else if d == 6 {
        '6'
    } else if d == 7 {
        '7'
    } else if d == 8 {
        '8'
    } else {
        '9'
    }
}

/// Decimal representation of a natural number, most significant digit first.
pub open spec fn spec_dec_u64(n: nat) -> Seq<char>
    decreases n,
{
    if n < 10 {
        seq![spec_digit_char(n)]
    } else {
        spec_dec_u64(n / 10).push(spec_digit_char(n % 10))
    }
}

/// Decimal representation of a signed number: a leading minus sign for
/// negative values, then the digits of the magnitude.
pub open spec fn spec_dec_i64(n: int) -> Seq<char> {
    if n < 0 {
        seq!['-'] + spec_dec_u64((-n) as nat)
    } else {
        spec_dec_u64(n as nat)
    }
}

fn digit_str(d: u64) -> (r: &'static str)
    requires
        d < 10,
    ensures
        r@ == seq![spec_digit_char(d as nat)],
{
    let r: &'static str = if d == 0 {
        "0"
    } else if d == 1 {
        "1"
    } else if d == 2 {
        "2"
    } else if d == 3 {
        "3"
    } else if d == 4 {
        "4"
    } else if d == 5 {
        "5"
    } else if d == 6 {
        "6"
    } else if d == 7 {
        "7"
    } else if d == 8 {
        "8"
    } else {
        "9"
    };
    proof {
        reveal_strlit("0");
        reveal_strlit("1");
        reveal_strlit("2");
        reveal_strlit("3");
        reveal_strlit("4");
        reveal_strlit("5");
        reveal_strlit("6");
        reveal_strlit("7");
        reveal_strlit("8");
        reveal_strlit("9");
        assert(r@ =~= seq![spec_digit_char(d as nat)]);
    }
    r
}

/// Formats `n` in decimal.
pub fn u64_to_string(n: u64) -> (r: String)
    ensures
        r@ == spec_dec_u64(n as nat),
    decreases n,
{
    if n < 10 {
        let r = digit_str(n).to_owned();
        proof {
            assert(r@ =~= spec_dec_u64(n as nat));
        }
        r
    } else {
        let prefix = u64_to_string(n / 10);
        let r = prefix.concat(digit_str(n % 10));
        proof {
            assert(r@ =~= spec_dec_u64(n as nat));
        }
        r
    }
}

/// Formats `n` in decimal, with a minus sign when negative.
pub fn i64_to_string(n: i64) -> (r: String)
    ensures
        r@ == spec_dec_i64(n as int),
{
    if n >= 0 {
        u64_to_string(n as u64)
    } else {
        let wide: i128 = n as i128;
        let magnitude: u64 = (-wide) as u64;
        let r = "-".to_owned().concat(u64_to_string(magnitude).as_str());
        proof {
            reveal_strlit("-");
            assert(r@ =~= spec_dec_i64(n as int));
        }
        r
    }
}

/// Whether every byte is an ASCII decimal digit.
pub open spec fn spec_all_digits(s: Seq<u8>) -> bool {
    forall|i: int| 0 <= i < s.len() ==> 48 <= #[trigger] s[i] <= 57
}

/// The numeric value of a big-endian sequence of ASCII decimal digits.
pub open spec fn spec_dec_value(s: Seq<u8>) -> nat
    decreases s.len(),
{
    if s.len() == 0 {
        0
    } else {
        spec_dec_value(s.drop_last()) * 10 + (s.last() - 48) as nat
    }
}

/// Parses an unsigned decimal number, as a `Content-Length` header carries
/// it. Returns `None` on an empty string, a non-digit byte, or overflow.
pub fn parse_u64_dec(s: &[u8]) -> (r: Option<u64>)
    ensures
        match r {
            Some(v) => s@.len() > 0 && spec_all_digits(s@) && v == spec_dec_value(s@)
                && spec_dec_value(s@) <= u64::MAX,
            None => s@.len() == 0 || !spec_all_digits(s@) || spec_dec_value(s@) > u64::MAX,
        },
{
    let n = s.len();
    if n == 0 {
        return None;
    }
    let mut acc: u128 = 0;
    let mut i: usize = 0;
    while i < n
        invariant
            n == s@.len(),
            0 < n,
            i <= n,
            spec_all_digits(s@.subrange(0, i as int)),
            acc == spec_dec_value(s@.subrange(0, i as int)),
            acc <= u64::MAX,
        decreases n - i,
    {
        let b = s[i];
        if b < 48 || b > 57 {
            proof {
                assert(!spec_all_digits(s@));
            }
            return None;
        }
        let d = (b - 48) as u128;
        let next = acc * 10 + d;
        proof {
            assert(s@.subrange(0, i as int + 1).drop_last() =~= s@.subrange(0, i as int));
            assert(s@.subrange(0, i as int + 1).last() == s@[i as int]);
        }
        if next > 0xffff_ffff_ffff_ffff {
            proof {
                lemma_dec_value_monotone(s@, i as int + 1);
            }
            return None;
        }
        acc = next;
        i += 1;
    }
    proof {
        assert(s@.subrange(0, n as int) =~= s@);
    }
    Some(acc as u64)
}

/// Appending digits never decreases a decimal value: the value of a prefix
/// bounds the value of the whole from below.
proof fn lemma_dec_value_monotone(s: Seq<u8>, i: int)
    requires
        0 <= i <= s.len(),
    ensures
        spec_dec_value(s.subrange(0, i)) <= spec_dec_value(s),
    decreases s.len() - i,
{
    if i < s.len() {
        lemma_dec_value_monotone(s, i + 1);
        let p = s.subrange(0, i);
        let q = s.subrange(0, i + 1);
        assert(q.drop_last() =~= p);
        assert(spec_dec_value(q) == spec_dec_value(p) * 10 + (q.last() - 48) as nat);
        assert(spec_dec_value(p) * 10 >= spec_dec_value(p)) by (nonlinear_arith);
    } else {
        assert(s.subrange(0, i) =~= s);
    }
}

/// The value of a `Range` header that resumes a fetch at byte `offset`.
pub open spec fn spec_range_value(offset: u64) -> Seq<char> {
    "bytes="@ + spec_dec_u64(offset as nat) + "-"@
}

/// Builds the `Range` header value `bytes=<offset>-` used to resume a direct
/// download that already holds `offset` bytes.
pub fn range_header_value(offset: u64) -> (r: String)
    ensures
        r@ == spec_range_value(offset),
{
    let r = "bytes=".to_owned().concat(u64_to_string(offset).as_str()).concat("-");
    proof {
        assert(r@ =~= spec_range_value(offset));
    }
    r
}

/// Whether the four characters starting at `i` spell `m3u8`, ignoring the
/// case of the letters.
pub open spec fn spec_hls_tag_at(s: Seq<char>, i: int) -> bool {
    &&& 0 <= i
    &&& i + 4 <= s.len()
    &&& (s[i] == 'm' || s[i] == 'M')
    &&& s[i + 1] == '3'
    &&& (s[i + 2] == 'u' || s[i + 2] == 'U')
    &&& s[i + 3] == '8'
}

/// Whether a stream URL names an HLS manifest: it contains `m3u8`,
/// case-insensitively.
pub open spec fn spec_url_is_hls(s: Seq<char>) -> bool {
    exists|i: int| spec_hls_tag_at(s, i)
}

/// Routing test between the two fetch engines: an URL that mentions `m3u8`
/// (in any case) is fetched as HLS, anything else directly.
pub fn url_is_hls(url: &str) -> (r: bool)
    ensures
        r == spec_url_is_hls(url@),
{
    let n = url.unicode_len();
    if n < 4 {
        return false;
    }
    let mut i: usize = 0;
    while i <= n - 4
        invariant
            4 <= n == url@.len(),
            i <= n - 3,
            forall|j: int| 0 <= j < i ==> !spec_hls_tag_at(url@, j),
        decreases n - i,
    {
        let c0 = url.get_char(i);
        let c1 = url.get_char(i + 1);
        let c2 = url.get_char(i + 2);
        let c3 = url.get_char(i + 3);
        if (c0 == 'm' || c0 == 'M') && c1 == '3' && (c2 == 'u' || c2 == 'U') && c3 == '8' {
            proof {
                assert(spec_hls_tag_at(url@, i as int));
            }
            return true;
        }
        i += 1;
    }
    proof {
        assert(forall|j: int| spec_hls_tag_at(url@, j) ==> 0 <= j && j + 4 <= url@.len());
    }
    false
}

/// Whether the string opens with `http`, which marks a playlist URI as
/// absolute.
pub open spec fn spec_starts_with_http(s: Seq<char>) -> bool {
    s.len() >= 4 && s[0] == 'h' && s[1] == 't' && s[2] == 't' && s[3] == 'p'
}

pub fn starts_with_http(s: &str) -> (r: bool)
    ensures
        r == spec_starts_with_http(s@),
{
    let n = s.unicode_len();
    if n < 4 {
        return false;
    }
    s.get_char(0) == 'h' && s.get_char(1) == 't' && s.get_char(2) == 't' && s.get_char(3) == 'p'
}

/// The base of a playlist URL: everything up to and including its last
/// slash, or the whole URL when it has none.
pub open spec fn spec_url_base(base: Seq<char>) -> Seq<char> {
    match base.index_of_last('/') {
        Some(j) => base.subrange(0, j + 1),
        None => base,
    }
}

/// A URI from a playlist, resolved against the URL the playlist was fetched
/// from: an absolute URI (one that starts with `http`) passes through,
/// anything else is appended to the base of the playlist URL.
pub open spec fn spec_resolve_uri(base: Seq<char>, uri: Seq<char>) -> Seq<char> {
    if spec_starts_with_http(uri) {
        uri
    } else {
        spec_url_base(base) + uri
    }
}

/// Resolves a possibly-relative playlist URI against the playlist's own URL.
pub fn resolve_uri(base: &str, uri: &str) -> (r: String)
    ensures
        r@ == spec_resolve_uri(base@, uri@),
{
    if starts_with_http(uri) {
        return uri.to_owned();
    }
    let n = base.unicode_len();
    let mut i: usize = n;
    while i > 0
        invariant
            n == base@.len(),
            i <= n,
            !spec_starts_with_http(uri@),
            forall|j: int| i <= j < n ==> base@[j] != '/',
        decreases i,
    {
        if base.get_char(i - 1) == '/' {
            proof {
                base@.index_of_last_ensures('/');
                assert(base@.contains('/'));
                assert(base@.index_of_last('/') == Some(i as int - 1));
            }
            let prefix = base.substring_char(0, i);
            let r = prefix.to_owned().concat(uri);
            proof {
                assert(r@ =~= spec_resolve_uri(base@, uri@));
            }
            return r;
        }
        i -= 1;
    }
    proof {
        base@.index_of_last_ensures('/');
        assert(base@.index_of_last('/') is None);
    }
    let r = base.to_owned().concat(uri);
    proof {
        assert(r@ =~= spec_resolve_uri(base@, uri@));
    }
    r
}

} // verus!
