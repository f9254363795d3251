use vstd::prelude::*;
use vstd::string::StringSliceAdditionalSpecFns;

verus! {

/// `needle` occurs in `hay` starting at index `i`.
pub open spec fn occurs_at(hay: Seq<u8>, needle: Seq<u8>, i: int) -> bool {
    0 <= i && i + needle.len() <= hay.len() && hay.subrange(i, i + needle.len()) =~= needle
}

/// `needle` is a contiguous part of `hay` (the empty needle always is).
pub open spec fn contains_seq(hay: Seq<u8>, needle: Seq<u8>) -> bool {
    exists|i: int| occurs_at(hay, needle, i)
}

/// A line matches when it contains every pattern; no patterns match every line.
pub open spec fn matches_all(line: Seq<u8>, patterns: Seq<Seq<u8>>) -> bool {
    forall|k: int| 0 <= k < patterns.len() ==> contains_seq(line, #[trigger] patterns[k])
}

/// The byte encodings of the patterns.
pub open spec fn pattern_bytes(patterns: Seq<&str>) -> Seq<Seq<u8>> {
    patterns.map_values(|p: &str| p.spec_bytes())
}

fn occurs_at_exec(hay: &[u8], needle: &[u8], i: usize) -> (r: bool)
    requires
        i + needle@.len() <= hay@.len(),
    ensures
        r == occurs_at(hay@, needle@, i as int),
{
    let mut j: usize = 0;
    while j < needle.len()
        invariant
            i + needle@.len() <= hay@.len(),
            hay@.len() == hay.len(),
            j <= needle@.len(),
            forall|t: int| 0 <= t < j ==> hay@[i + t] == needle@[t],
        decreases needle@.len() - j,
    {
        if hay[i + j] != needle[j] {
            assert(hay@.subrange(i as int, i + needle@.len())[j as int] != needle@[j as int]);
            return false;
        }
        j = j + 1;
    }
    assert(hay@.subrange(i as int, i + needle@.len()) =~= needle@);
    true
}

/// Whether `needle` occurs anywhere in `hay`.
pub fn contains_bytes(hay: &[u8], needle: &[u8]) -> (r: bool)
    ensures
        r == contains_seq(hay@, needle@),
{
    if needle.len() > hay.len() {
        return false;
    }
    let last: usize = hay.len() - needle.len();
    let mut i: usize = 0;
    loop
        invariant
            last + needle@.len() == hay@.len(),
            i <= last,
            forall|t: int| 0 <= t < i ==> !occurs_at(hay@, needle@, t),
        decreases last - i,
    {
        if occurs_at_exec(hay, needle, i) {
            return true;
        }
        if i == last {
            return false;
        }
        i = i + 1;
    }
}

/// Whether `line` contains every one of `patterns`; true when there are none.
pub fn is_line_match_all_patterns(line: &[u8], patterns: &Vec<&str>) -> (r: bool)
    ensures
        r == matches_all(line@, pattern_bytes(patterns@)),
{
    let mut k: usize = 0;
    while k < patterns.len()
        invariant
            k <= patterns@.len(),
            forall|t: int| 0 <= t < k ==> contains_seq(line@, #[trigger] pattern_bytes(patterns@)[t]),
        decreases patterns@.len() - k,
    {
        let p: &str = patterns[k];
        if !contains_bytes(line, p.as_bytes()) {
            assert(!contains_seq(line@, pattern_bytes(patterns@)[k as int]));
            return false;
        }
        k = k + 1;
    }
    true
}

} // verus!
