use vstd::prelude::*;

verus! {

/// The delimiter occurs in the buffer starting exactly at index `i`.
pub open spec fn match_at(haystack: Seq<u8>, needle: Seq<u8>, i: int) -> bool {
    &&& 0 <= i
    &&& i + needle.len() <= haystack.len()
    &&& haystack.subrange(i, i + needle.len() as int) == needle
}

/// The index of the first occurrence of `needle` in `haystack`, if any.
pub open spec fn spec_find(haystack: Seq<u8>, needle: Seq<u8>) -> Option<int>
    decreases haystack.len(),
{
    if needle.len() == 0 {
        Some(0)
    } else if haystack.len() < needle.len() {
        None
    } else if haystack.subrange(0, needle.len() as int) == needle {
        Some(0)
    } else {
        match spec_find(haystack.skip(1), needle) {
            None => None,
            Some(i) => Some(i + 1),
        }
    }
}

/// `spec_find` returns the lowest matching index, and `None` exactly when no
/// index matches.
pub proof fn lemma_spec_find_characterization(haystack: Seq<u8>, needle: Seq<u8>)
    ensures
        match spec_find(haystack, needle) {
            Some(i) => match_at(haystack, needle, i) && (forall|j: int|
                0 <= j < i ==> !match_at(haystack, needle, j)),
            None => forall|j: int| !match_at(haystack, needle, j),
        },
    decreases haystack.len(),
{
    if needle.len() == 0 {
        assert(haystack.subrange(0, 0) =~= needle);
        assert(match_at(haystack, needle, 0));
    } else if haystack.len() < needle.len() {
        assert forall|j: int| !match_at(haystack, needle, j) by {
            if 0 <= j && j + needle.len() <= haystack.len() {
                assert(needle.len() <= haystack.len());
            }
        }
    } else if haystack.subrange(0, needle.len() as int) == needle {
        assert(match_at(haystack, needle, 0));
    } else {
        lemma_spec_find_characterization(haystack.skip(1), needle);
        assert forall|j: int| 1 <= j && j + needle.len() <= haystack.len() implies match_at(
            haystack,
            needle,
            j,
        ) == match_at(haystack.skip(1), needle, j - 1) by {
            assert(haystack.subrange(j, j + needle.len() as int) =~= haystack.skip(1).subrange(
                j - 1,
                j - 1 + needle.len() as int,
            ));
        }
        assert(!match_at(haystack, needle, 0));
        match spec_find(haystack.skip(1), needle) {
            None => {
                assert forall|j: int| !match_at(haystack, needle, j) by {
                    if 1 <= j && j + needle.len() <= haystack.len() {
                        assert(!match_at(haystack.skip(1), needle, j - 1));
                    }
                }
            },
            Some(i) => {
                assert(match_at(haystack, needle, i + 1));
                assert forall|j: int| 0 <= j < i + 1 implies !match_at(haystack, needle, j) by {
                    if 1 <= j {
                        assert(!match_at(haystack.skip(1), needle, j - 1));
                    }
                }
            },
        }
    }
}

/// A lowest matching index determines the result of `spec_find`.
pub proof fn lemma_spec_find_exact(haystack: Seq<u8>, needle: Seq<u8>, i: int)
    requires
        match_at(haystack, needle, i),
        forall|j: int| 0 <= j < i ==> !match_at(haystack, needle, j),
    ensures
        spec_find(haystack, needle) == Some(i),
{
    lemma_spec_find_characterization(haystack, needle);
    match spec_find(haystack, needle) {
        None => {
            assert(!match_at(haystack, needle, i));
        },
        Some(k) => {
            if k < i {
                assert(!match_at(haystack, needle, k));
            }
            if i < k {
                assert(!match_at(haystack, needle, i));
            }
        },
    }
}

/// If no index matches, `spec_find` returns `None`.
pub proof fn lemma_spec_find_none(haystack: Seq<u8>, needle: Seq<u8>)
    requires
        forall|j: int| !match_at(haystack, needle, j),
    ensures
        spec_find(haystack, needle) is None,
{
    lemma_spec_find_characterization(haystack, needle);
    if let Some(i) = spec_find(haystack, needle) {
        assert(!match_at(haystack, needle, i));
    }
}

/// A delimiter found in a buffer is found at the same place in every
/// extension of that buffer.
pub proof fn lemma_spec_find_prefix(h1: Seq<u8>, h2: Seq<u8>, needle: Seq<u8>)
    requires
        h1.len() <= h2.len(),
        h1 == h2.subrange(0, h1.len() as int),
        spec_find(h1, needle) is Some,
    ensures
        spec_find(h2, needle) == spec_find(h1, needle),
{
    lemma_spec_find_characterization(h1, needle);
    let i = spec_find(h1, needle)->Some_0;
    assert forall|j: int| 0 <= j && j + needle.len() <= h1.len() implies match_at(
        h1,
        needle,
        j,
    ) == match_at(h2, needle, j) by {
        assert(h1.subrange(j, j + needle.len() as int) =~= h2.subrange(
            j,
            j + needle.len() as int,
        ));
    }
    assert(match_at(h2, needle, i));
    assert forall|j: int| 0 <= j < i implies !match_at(h2, needle, j) by {
        assert(j + needle.len() <= i + needle.len() <= h1.len());
        assert(!match_at(h1, needle, j));
    }
    lemma_spec_find_exact(h2, needle, i);
}

/// Whether `delimiter` occurs in `bytes` starting at `index`.
fn is_match(bytes: &[u8], delimiter: &[u8], index: usize) -> (r: bool)
    requires
        index + delimiter@.len() <= bytes@.len(),
    ensures
        r == match_at(bytes@, delimiter@, index as int),
{
    let bytes_length = bytes.len();
    let delimiter_length = delimiter.len();
    let mut j: usize = 0;
    while j < delimiter_length
        invariant
            j <= delimiter_length,
            bytes_length == bytes@.len(),
            delimiter_length == delimiter@.len(),
            index + delimiter_length <= bytes_length,
            forall|k: int| 0 <= k < j ==> bytes@[index + k] == delimiter@[k],
        decreases delimiter_length - j,
    {
        if bytes[index + j] != delimiter[j] {
            assert(bytes@.subrange(index as int, index + delimiter@.len() as int)[j as int]
                != delimiter@[j as int]);
            return false;
        }
        j += 1;
    }
    assert(bytes@.subrange(index as int, index + delimiter@.len() as int) =~= delimiter@);
    true
}

/// Returns the start index of the first occurrence of the `delimiter` in
/// `bytes`, or `None` if there is none (in particular whenever `bytes` is
/// shorter than `delimiter`).
pub fn find(bytes: &[u8], delimiter: &[u8]) -> (r: Option<usize>)
    ensures
        match r {
            Some(i) => spec_find(bytes@, delimiter@) == Some(i as int),
            None => spec_find(bytes@, delimiter@) is None,
        },
{
    let bytes_length = bytes.len();
    let delimiter_length = delimiter.len();

    if bytes_length < delimiter_length {
        proof {
            lemma_spec_find_none(bytes@, delimiter@);
        }
        return None;
    }
    if delimiter_length == 0 {
        proof {
            assert(bytes@.subrange(0, 0) =~= delimiter@);
            lemma_spec_find_exact(bytes@, delimiter@, 0);
        }
        return Some(0);
    }
    let mut index: usize = 0;
    while index <= bytes_length - delimiter_length
        invariant
            bytes_length == bytes@.len(),
            delimiter_length == delimiter@.len(),
            0 < delimiter_length <= bytes_length,
            index <= bytes_length - delimiter_length + 1,
            forall|j: int| 0 <= j < index ==> !match_at(bytes@, delimiter@, j),
        decreases bytes_length - index,
    {
        if is_match(bytes, delimiter, index) {
            proof {
                lemma_spec_find_exact(bytes@, delimiter@, index as int);
            }
            return Some(index);
        }
        index += 1;
    }
    proof {
        lemma_spec_find_none(bytes@, delimiter@);
    }
    None
}

} // verus!
