use vstd::prelude::*;
use vstd::string::StringSliceAdditionalSpecFns;
use vstd::utf8::encode_utf8_decode_utf8;

verus! {

/// The character sequences of a sequence of strings.
pub open spec fn texts(names: Seq<String>) -> Seq<Seq<char>> {
    names.map_values(|s: String| s@)
}

/// Whether two string slices hold the same characters.
///
/// The slices are compared byte by byte; equal encodings decode to equal
/// character sequences and the other way round.
pub fn same_text(a: &str, b: &str) -> (r: bool)
    ensures
        r == (a@ == b@),
{
    let x = a.as_bytes();
    let y = b.as_bytes();
    proof {
        encode_utf8_decode_utf8(a@);
        encode_utf8_decode_utf8(b@);
    }
    if x.len() != y.len() {
        return false;
    }
    let mut i: usize = 0;
    while i < x.len()
        invariant
            i <= x.len(),
            x@.len() == y@.len(),
            x@ == a.spec_bytes(),
            y@ == b.spec_bytes(),
            forall|k: int| 0 <= k < i ==> x@[k] == y@[k],
        decreases x.len() - i,
    {
        if x[i] != y[i] {
            return false;
        }
        i += 1;
    }
    assert(x@ =~= y@);
    true
}

/// Whether `text` begins with `prefix`.
pub fn starts_with(text: &str, prefix: &str) -> (r: bool)
    ensures
        r == prefix@.is_prefix_of(text@),
{
    let n = prefix.unicode_len();
    n <= text.unicode_len() && same_text(text.substring_char(0, n), prefix)
}

/// Whether `text` ends with `suffix`.
pub fn ends_with(text: &str, suffix: &str) -> (r: bool)
    ensures
        r == suffix@.is_suffix_of(text@),
{
    let n = suffix.unicode_len();
    let len = text.unicode_len();
    n <= len && same_text(text.substring_char(len - n, len), suffix)
}

/// Whether `pattern` stands in `text` from the character at `i` on.
pub open spec fn occurs_at(pattern: Seq<char>, text: Seq<char>, i: int) -> bool {
    &&& 0 <= i
    &&& i + pattern.len() <= text.len()
    &&& text.subrange(i, i + pattern.len()) == pattern
}

/// Whether `pattern` stands somewhere in `text`.
pub open spec fn occurs_in(pattern: Seq<char>, text: Seq<char>) -> bool {
    exists|i: int| occurs_at(pattern, text, i)
}

/// Whether `text` contains `pattern`.
pub fn contains(text: &str, pattern: &str) -> (r: bool)
    ensures
        r == occurs_in(pattern@, text@),
{
    let n = pattern.unicode_len();
    let len = text.unicode_len();
    if n > len {
        return false;
    }
    let last = len - n;
    let mut i: usize = 0;
    while i < last
        invariant
            n == pattern@.len(),
            len == text@.len(),
            last == len - n,
            i <= last,
            forall|k: int| 0 <= k < i ==> !occurs_at(pattern@, text@, k),
        decreases last - i,
    {
        if same_text(text.substring_char(i, i + n), pattern) {
            assert(occurs_at(pattern@, text@, i as int));
            return true;
        }
        i += 1;
    }
    let found = same_text(text.substring_char(last, len), pattern);
    assert(found == occurs_at(pattern@, text@, last as int));
    found
}

} // verus!
