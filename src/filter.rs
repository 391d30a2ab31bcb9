use vstd::prelude::*;
use vstd::string::*;

verus! {

/// The lower-case form of a string, as Rust's Unicode case mapping gives it.
pub uninterp spec fn lower_of(s: Seq<char>) -> Seq<char>;

/// Relies on `str::to_lowercase`: the result depends on the characters
/// alone, and an empty string stays empty.
#[verifier::external_body]
pub(crate) fn lowercase(s: &str) -> (r: String)
    ensures
        r@ == lower_of(s@),
        s@.len() == 0 ==> r@.len() == 0,
{
    s.to_lowercase()
}

/// `needle` occurs in `hay` as a contiguous run of characters.
pub open spec fn is_substring(hay: Seq<char>, needle: Seq<char>) -> bool {
    exists|i: int|
        0 <= i && i + needle.len() <= hay.len() && #[trigger] hay.subrange(i, i + needle.len())
            == needle
}

/// A quest whose name is `name` is shown under the filter `filter`: the
/// lower-cased filter occurs in the lower-cased name.
pub open spec fn passes_filter(name: Seq<char>, filter: Seq<char>) -> bool {
    is_substring(lower_of(name), lower_of(filter))
}

fn chars_of(s: &str) -> (r: Vec<char>)
    ensures
        r@ == s@,
{
    let n = s.unicode_len();
    let mut v: Vec<char> = Vec::new();
    let mut i: usize = 0;
    while i < n
        invariant
            n == s@.len(),
            i <= n,
            v@ == s@.take(i as int),
        decreases n - i,
    {
        let c = s.get_char(i);
        v.push(c);
        i = i + 1;
        assert(v@ =~= s@.take(i as int));
    }
    assert(v@ =~= s@);
    v
}

fn matches_at(hay: &Vec<char>, needle: &Vec<char>, i: usize) -> (r: bool)
    requires
        i + needle@.len() <= hay@.len(),
    ensures
        r == (hay@.subrange(i as int, i + needle@.len()) == needle@),
{
    let ghost window = hay@.subrange(i as int, i + needle@.len());
    let hay_len = hay.len();
    let mut j: usize = 0;
    while j < needle.len()
        invariant
            hay_len == hay@.len(),
            i + needle@.len() <= hay@.len(),
            j <= needle@.len(),
            window == hay@.subrange(i as int, i + needle@.len()),
            forall|k: int| 0 <= k < j ==> window[k] == needle@[k],
        decreases needle@.len() - j,
    {
        if hay[i + j] != needle[j] {
            assert(window[j as int] != needle@[j as int]);
            return false;
        }
        j = j + 1;
    }
    assert(window =~= needle@);
    true
}

/// Whether `needle` occurs in `hay`. The filter calls it on lower-cased
/// strings.
pub fn contains_chars(hay: &str, needle: &str) -> (r: bool)
    ensures
        r == is_substring(hay@, needle@),
{
    let h = chars_of(hay);
    let nd = chars_of(needle);
    if nd.len() > h.len() {
        return false;
    }
    let last = h.len() - nd.len();
    let mut i: usize = 0;
    loop
        invariant
            h@ == hay@,
            nd@ == needle@,
            last == h@.len() - nd@.len(),
            i <= last,
            forall|k: int|
                0 <= k < i ==> #[trigger] h@.subrange(k, k + nd@.len()) != nd@,
        ensures
            forall|k: int|
                0 <= k <= last ==> #[trigger] h@.subrange(k, k + nd@.len()) != nd@,
        decreases last - i,
    {
        if matches_at(&h, &nd, i) {
            return true;
        }
        if i == last {
            break;
        }
        i = i + 1;
    }
    assert forall|k: int| 0 <= k && k + nd@.len() <= h@.len() implies #[trigger] h@.subrange(
        k,
        k + nd@.len(),
    ) != nd@ by {}
    false
}

/// Whether a quest named `name` is shown under the filter `filter`.
pub fn matches_filter(name: &str, filter: &str) -> (r: bool)
    ensures
        r == passes_filter(name@, filter@),
{
    let n = lowercase(name);
    let f = lowercase(filter);
    contains_chars(n.as_str(), f.as_str())
}

} // verus!
