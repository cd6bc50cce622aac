use vstd::prelude::*;
use vstd::string::StringExecFns;

verus! {

/// The Unicode lowercase mapping of a text, as `str::to_lowercase` applies it to a
/// text that is not all ASCII (the case tables are not written out).
pub uninterp spec fn unicode_lowercase(s: Seq<char>) -> Seq<char>;

/// ASCII lowercase: 'A' to 'Z' become 'a' to 'z', every other character is kept.
pub open spec fn ascii_lowercase(s: Seq<char>) -> Seq<char> {
    Seq::new(
        s.len(),
        |i: int|
            if 'A' <= s[i] <= 'Z' {
                ((s[i] as u32) + 32) as char
            } else {
                s[i]
            },
    )
}

/// The lowercase form of a text, as `str::to_lowercase` gives it.
pub open spec fn lowercase(s: Seq<char>) -> Seq<char> {
    if vstd::utf8::is_ascii_chars(s) {
        ascii_lowercase(s)
    } else {
        unicode_lowercase(s)
    }
}

/// A text of ASCII characters without capital letters is its own lowercase form.
pub proof fn lemma_lowercase_unchanged(s: Seq<char>)
    requires
        forall|i: int| 0 <= i < s.len() ==> '\0' <= #[trigger] s[i] <= '\u{7f}' && !('A' <= s[i] <= 'Z'),
    ensures
        lowercase(s) == s,
{
    assert(vstd::utf8::is_ascii_chars(s));
    assert(ascii_lowercase(s) =~= s);
}

/// Whether `suffix` is a final segment of `s`.
pub open spec fn has_suffix(s: Seq<char>, suffix: Seq<char>) -> bool {
    suffix.len() <= s.len() && s.subrange(s.len() - suffix.len(), s.len() as int) == suffix
}

/// Calls `str::to_lowercase`. Claimed: an ASCII text has its letters 'A' to 'Z'
/// turned into 'a' to 'z' and keeps every other character (the Unicode mapping
/// agrees with ASCII's there); any other text gets `unicode_lowercase`, whose
/// tables are not written out.
#[verifier::external_body]
pub(crate) fn to_lowercase(s: &str) -> (r: String)
    ensures
        vstd::utf8::is_ascii_chars(s@) ==> r@ == ascii_lowercase(s@),
        !vstd::utf8::is_ascii_chars(s@) ==> r@ == unicode_lowercase(s@),
{
    s.to_lowercase()
}

/// Calls `str::ends_with` with a string pattern. Claimed: it tells whether `suffix`
/// is a final segment of `s` (for valid UTF-8 a byte suffix and a char suffix agree).
#[verifier::external_body]
pub(crate) fn ends_with(s: &str, suffix: &str) -> (r: bool)
    ensures
        r == has_suffix(s@, suffix@),
{
    s.ends_with(suffix)
}

/// Calls `std::str::from_utf8`. Claimed: it succeeds exactly on valid UTF-8.
#[verifier::external_body]
pub(crate) fn is_utf8(bytes: &[u8]) -> (r: bool)
    ensures
        r == vstd::utf8::valid_utf8(bytes@),
{
    std::str::from_utf8(bytes).is_ok()
}

/// The decimal digit for `d < 10`.
pub open spec fn decimal_digit(d: nat) -> char {
    ((d + 48) as u32) as char
}

/// The decimal representation of `n`, without leading zeros.
pub open spec fn decimal(n: nat) -> Seq<char>
    decreases n,
{
    if n < 10 {
        seq![decimal_digit(n)]
    } else {
        decimal(n / 10) + seq![decimal_digit(n % 10)]
    }
}

/// Calls `ToString::to_string` on a `u64`. Claimed: the result is the number in
/// decimal, as `Display` for integers writes it.
#[verifier::external_body]
pub(crate) fn u64_decimal(n: u64) -> (r: String)
    ensures
        r@ == decimal(n as nat),
{
    n.to_string()
}

/// Whether `p` opens `m`.
pub open spec fn has_prefix(m: Seq<char>, p: Seq<char>) -> bool {
    p.len() <= m.len() && m.subrange(0, p.len() as int) == p
}

/// A concatenation opens with its first part.
pub proof fn lemma_concat_prefix(p: Seq<char>, e: Seq<char>)
    ensures
        (p + e).subrange(0, p.len() as int) == p,
        has_prefix(p + e, p),
{
    assert((p + e).subrange(0, p.len() as int) =~= p);
}

/// The concatenation of two strings, as a new string.
pub fn concat_str(a: &str, b: &str) -> (r: String)
    ensures
        r@ == a@ + b@,
{
    let r = a.to_owned();
    r.concat(b)
}


/// `pat` occurs in `s` at byte `i`.
pub open spec fn occurs_at(s: Seq<u8>, pat: Seq<u8>, i: int) -> bool {
    0 <= i && i + pat.len() <= s.len() && s.subrange(i, i + pat.len()) == pat
}

/// The last place at or below `i` where `pat` occurs in `s`.
pub open spec fn last_at_or_below(s: Seq<u8>, pat: Seq<u8>, i: int) -> Option<int>
    decreases i + 1,
{
    if i < 0 {
        None
    } else if occurs_at(s, pat, i) {
        Some(i)
    } else {
        last_at_or_below(s, pat, i - 1)
    }
}

/// The last place where `pat` occurs in `s`.
pub open spec fn last_index_of(s: Seq<u8>, pat: Seq<u8>) -> Option<int> {
    last_at_or_below(s, pat, s.len() - pat.len())
}

proof fn lemma_last_at_or_below(s: Seq<u8>, pat: Seq<u8>, i: int)
    requires
        i + pat.len() <= s.len(),
    ensures
        match last_at_or_below(s, pat, i) {
            Some(k) => occurs_at(s, pat, k) && k <= i,
            None => forall|j: int| j <= i ==> !occurs_at(s, pat, j),
        },
    decreases i + 1,
{
    if i >= 0 && !occurs_at(s, pat, i) {
        lemma_last_at_or_below(s, pat, i - 1);
    }
}

/// Where `pat` last occurs in `s`, if anywhere.
pub fn last_occurrence(s: &[u8], pat: &[u8]) -> (r: Option<usize>)
    ensures
        match last_index_of(s@, pat@) {
            Some(k) => r is Some && r->Some_0 == k,
            None => r is None,
        },
        r matches Some(k) ==> occurs_at(s@, pat@, k as int),
        r is None ==> forall|j: int| !occurs_at(s@, pat@, j),
{
    if pat.len() > s.len() {
        return None;
    }
    let top: usize = s.len() - pat.len();
    let mut k: usize = top;
    loop
        invariant
            k <= top,
            top == s@.len() - pat@.len(),
            pat@.len() <= s@.len() <= usize::MAX,
            last_index_of(s@, pat@) == last_at_or_below(s@, pat@, k as int),
        decreases k,
    {
        let mut j: usize = 0;
        let mut same = true;
        assert(s@.subrange(k as int, k as int) =~= pat@.subrange(0, 0));
        while j < pat.len()
            invariant
                k + pat@.len() <= s@.len() <= usize::MAX,
                j <= pat@.len(),
                same == (s@.subrange(k as int, k + j) == pat@.subrange(0, j as int)),
            decreases pat@.len() - j,
        {
            if s[k + j] != pat[j] {
                if same {
                    assert(s@.subrange(k as int, k + j + 1)[j as int] != pat@.subrange(0, j + 1)[j as int]);
                }
                same = false;
            } else if same {
                assert(s@.subrange(k as int, k + j + 1) =~= pat@.subrange(0, j + 1));
            }
            if !same {
                assert(s@.subrange(k as int, k + j + 1) != pat@.subrange(0, j + 1)) by {
                    if s@.subrange(k as int, k + j + 1) == pat@.subrange(0, j + 1) {
                        assert(s@.subrange(k as int, k + j) =~= s@.subrange(k as int, k + j + 1).subrange(0, j as int));
                        assert(pat@.subrange(0, j as int) =~= pat@.subrange(0, j + 1).subrange(0, j as int));
                    }
                }
            }
            j = j + 1;
        }
        assert(pat@.subrange(0, pat@.len() as int) =~= pat@);
        if same {
            return Some(k);
        }
        if k == 0 {
            proof {
                assert(last_at_or_below(s@, pat@, -1) is None);
                assert forall|j: int| !occurs_at(s@, pat@, j) by {
                    if occurs_at(s@, pat@, j) {
                        lemma_last_at_or_below(s@, pat@, s@.len() - pat@.len());
                    }
                }
            }
            return None;
        }
        k = k - 1;
    }
}


/// `p` opens the bytes `s`.
pub open spec fn has_byte_prefix(s: Seq<u8>, p: Seq<u8>) -> bool {
    p.len() <= s.len() && s.subrange(0, p.len() as int) == p
}

/// Whether the bytes `p` open the bytes `s`.
pub fn starts_with_bytes(s: &[u8], p: &[u8]) -> (r: bool)
    ensures
        r == has_byte_prefix(s@, p@),
{
    if p.len() > s.len() {
        return false;
    }
    let mut j: usize = 0;
    while j < p.len()
        invariant
            p@.len() <= s@.len(),
            j <= p@.len(),
            s@.subrange(0, j as int) == p@.subrange(0, j as int),
        decreases p@.len() - j,
    {
        if s[j] != p[j] {
            assert(s@.subrange(0, p@.len() as int)[j as int] != p@[j as int]);
            return false;
        }
        j = j + 1;
        assert(s@.subrange(0, j as int) =~= p@.subrange(0, j as int));
    }
    assert(p@.subrange(0, p@.len() as int) =~= p@);
    true
}


/// Calls `String::from_utf8`. Claimed: it succeeds exactly on valid UTF-8 and then
/// holds the characters the bytes encode; the error is the `Display` text of
/// `FromUtf8Error`, which no clause states.
#[verifier::external_body]
pub(crate) fn utf8_string(bytes: Vec<u8>) -> (r: Result<String, String>)
    ensures
        r is Ok <==> vstd::utf8::valid_utf8(bytes@),
        r matches Ok(s) ==> s@ == vstd::utf8::decode_utf8(bytes@),
{
    String::from_utf8(bytes).map_err(|e| e.to_string())
}

} // verus!
