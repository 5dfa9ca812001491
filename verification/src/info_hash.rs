//! Case folding of info hashes.
//!
//! Every registry is keyed by the lower-case form of the info hash, so that a
//! hash names the same torrent however its hex digits are written.

use vstd::prelude::*;

verus! {

/// The lower-case form of a string that is not plain ASCII, as the standard
/// library's `str::to_lowercase` computes it from the Unicode tables.
pub uninterp spec fn unicode_lowercase(s: Seq<char>) -> Seq<char>;

/// `A` to `Z` become `a` to `z`; every other character stays.
pub open spec fn ascii_lower(c: char) -> char {
    if 'A' <= c && c <= 'Z' {
        ((c as u32) + 32) as char
    } else {
        c
    }
}

pub open spec fn ascii_folded(s: Seq<char>) -> Seq<char> {
    Seq::new(s.len(), |i: int| ascii_lower(s[i]))
}

/// The form under which a hash is stored and looked up.
pub open spec fn folded(s: Seq<char>) -> Seq<char> {
    if vstd::utf8::is_ascii_chars(s) {
        ascii_folded(s)
    } else {
        unicode_lowercase(s)
    }
}

/// Calls `str::to_lowercase`. The result is a function of the characters alone;
/// on ASCII text it maps `A` to `Z` to `a` to `z` and keeps the rest.
#[verifier::external_body]
pub(crate) fn fold_hash(s: &str) -> (r: String)
    ensures
        r@ == (if vstd::utf8::is_ascii_chars(s@) {
            ascii_folded(s@)
        } else {
            unicode_lowercase(s@)
        }),
{
    s.to_lowercase()
}

/// Folding an ASCII hash twice is folding it once.
pub proof fn folding_ascii_is_idempotent(s: Seq<char>)
    requires
        vstd::utf8::is_ascii_chars(s),
    ensures
        folded(folded(s)) == folded(s),
{
    let t = ascii_folded(s);
    assert(vstd::utf8::is_ascii_chars(t)) by {
        assert forall|i: int| 0 <= i < t.len() implies '\0' <= #[trigger] t[i] <= '\u{7f}' by {
            assert('\0' <= s[i] <= '\u{7f}');
        }
    }
    assert(ascii_folded(t) =~= t);
}

/// Folding an ASCII hash keeps its length, turns each capital into its small letter and
/// leaves every other character alone.
pub proof fn folding_lowers_capitals(s: Seq<char>, i: int)
    requires
        vstd::utf8::is_ascii_chars(s),
    ensures
        folded(s).len() == s.len(),
        0 <= i < s.len() && 'A' <= s[i] <= 'Z' ==> folded(s)[i] as int == s[i] as int + 32,
        0 <= i < s.len() && !('A' <= s[i] <= 'Z') ==> folded(s)[i] == s[i],
{
}

/// Hashes in ASCII that differ in the case of letters only are one when folded.
pub proof fn case_does_not_matter(a: Seq<char>, b: Seq<char>)
    requires
        vstd::utf8::is_ascii_chars(a),
        vstd::utf8::is_ascii_chars(b),
        a.len() == b.len(),
        forall|i: int|
            0 <= i < a.len() ==> {
                ||| #[trigger] a[i] == b[i]
                ||| 'A' <= a[i] <= 'Z' && b[i] as int == a[i] as int + 32
                ||| 'A' <= b[i] <= 'Z' && a[i] as int == b[i] as int + 32
            },
    ensures
        folded(a) == folded(b),
{
    assert(ascii_folded(a) =~= ascii_folded(b));
}

} // verus!
