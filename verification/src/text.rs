//! Case folding of text and substring search on its bytes.

use vstd::prelude::*;
use vstd::string::*;
use vstd::utf8::encode_utf8;

verus! {

/// The lower-case form of a text, as the standard library's Unicode tables
/// give it.
pub uninterp spec fn lowercase_of(s: Seq<char>) -> Seq<char>;

/// Calls `str::to_lowercase` of the standard library. Nothing is proved of
/// it: the contract only gives the result its name, [`lowercase_of`].
#[verifier::external_body]
pub(crate) fn to_lowercase(s: &str) -> (res: String)
    ensures
        res@ == lowercase_of(s@),
{
    s.to_lowercase()
}

/// The form in which texts are compared: the UTF-8 bytes of the lower-case
/// form.
pub open spec fn folded(s: Seq<char>) -> Seq<u8> {
    encode_utf8(lowercase_of(s))
}

/// The folded form of each text of a list.
pub open spec fn folded_all(texts: Seq<Seq<char>>) -> Seq<Seq<u8>> {
    Seq::new(texts.len(), |k: int| folded(texts[k]))
}

/// `needle` stands in `hay` at byte offset `i`.
pub open spec fn occurs_at(hay: Seq<u8>, needle: Seq<u8>, i: int) -> bool {
    &&& 0 <= i
    &&& i + needle.len() <= hay.len()
    &&& hay.subrange(i, i + needle.len()) == needle
}

/// `needle` stands somewhere in `hay`.
pub open spec fn occurs_in(hay: Seq<u8>, needle: Seq<u8>) -> bool {
    exists|i: int| occurs_at(hay, needle, i)
}

/// `i` is the rightmost offset at which `needle` stands in `hay`.
pub open spec fn is_last_occurrence(hay: Seq<u8>, needle: Seq<u8>, i: int) -> bool {
    &&& occurs_at(hay, needle, i)
    &&& forall|j: int| i < j ==> !occurs_at(hay, needle, j)
}

/// The rightmost offset at which `needle` stands in `hay`, where there is one.
pub open spec fn last_occurrence(hay: Seq<u8>, needle: Seq<u8>) -> int {
    choose|i: int| is_last_occurrence(hay, needle, i)
}

/// There is only one rightmost offset.
pub proof fn lemma_last_occurrence_unique(hay: Seq<u8>, needle: Seq<u8>, i: int)
    requires
        is_last_occurrence(hay, needle, i),
    ensures
        last_occurrence(hay, needle) == i,
        0 <= i <= hay.len(),
{
    let j = last_occurrence(hay, needle);
    assert(is_last_occurrence(hay, needle, j));
    if i < j {
        assert(!occurs_at(hay, needle, j));
    }
    if j < i {
        assert(!occurs_at(hay, needle, i));
    }
}

/// Lower-cases `s` and returns the UTF-8 bytes of the result.
pub fn fold_case(s: &str) -> (res: Vec<u8>)
    ensures
        res@ == folded(s@),
{
    let lower = to_lowercase(s);
    lower.as_str().as_bytes_vec()
}

/// Tells whether `needle` stands in `hay` at offset `i`.
pub fn matches_at(hay: &[u8], needle: &[u8], i: usize) -> (res: bool)
    ensures
        res == occurs_at(hay@, needle@, i as int),
{
    let n: usize = needle.len();
    let h: usize = hay.len();
    if n > h || i > h - n {
        return false;
    }
    let mut k: usize = 0;
    while k < n
        invariant
            n == needle@.len(),
            h == hay@.len(),
            k <= n,
            i + n <= hay@.len(),
            forall|m: int| 0 <= m < k ==> hay@[i + m] == needle@[m],
        decreases n - k,
    {
        if hay[i + k] != needle[k] {
            proof {
                assert(hay@.subrange(i as int, i + n)[k as int] == hay@[i + k]);
            }
            return false;
        }
        k += 1;
    }
    proof {
        assert(hay@.subrange(i as int, i + n) =~= needle@);
    }
    true
}

/// The byte offset of the rightmost place where `needle` stands in `hay`, or
/// `None` where it stands nowhere. An empty `needle` stands at every offset,
/// the last of them being the length of `hay`.
pub fn rfind_bytes(hay: &[u8], needle: &[u8]) -> (res: Option<usize>)
    ensures
        match res {
            Some(i) => is_last_occurrence(hay@, needle@, i as int),
            None => !occurs_in(hay@, needle@),
        },
{
    if needle.len() > hay.len() {
        return None;
    }
    let mut i: usize = hay.len() - needle.len();
    loop
        invariant
            i + needle@.len() <= hay@.len(),
            forall|j: int| i < j ==> !occurs_at(hay@, needle@, j),
        decreases i,
    {
        if matches_at(hay, needle, i) {
            return Some(i);
        }
        if i == 0 {
            return None;
        }
        i -= 1;
    }
}

} // verus!
