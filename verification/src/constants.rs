//! The CRLF separator: the exact two-byte sequence that terminates the
//! fields of the wire grammar, and the search for its first occurrence.

use vstd::prelude::*;

verus! {

pub const CR: u8 = 13;

pub const LF: u8 = 10;

/// True when the two-byte CRLF separator stands at position `i` of `s`.
pub open spec fn crlf_at(s: Seq<u8>, i: int) -> bool {
    0 <= i && i + 2 <= s.len() && s[i] == 13 && s[i + 1] == 10
}

/// The position of the first CRLF pair in `s`, if any.
pub open spec fn find_crlf(s: Seq<u8>) -> Option<int>
    decreases s.len(),
{
    if s.len() < 2 {
        None
    } else if s[0] == 13 && s[1] == 10 {
        Some(0)
    } else {
        match find_crlf(s.skip(1)) {
            Some(i) => Some(i + 1),
            None => None,
        }
    }
}

/// `find_crlf` returns the first position holding CRLF, and `None` exactly
/// when no position does.
pub proof fn lemma_find_crlf(s: Seq<u8>)
    ensures
        match find_crlf(s) {
            Some(i) => crlf_at(s, i) && forall|j: int| 0 <= j < i ==> !crlf_at(s, j),
            None => forall|j: int| !crlf_at(s, j),
        },
    decreases s.len(),
{
    if s.len() < 2 {
    } else if s[0] == 13 && s[1] == 10 {
    } else {
        lemma_find_crlf(s.skip(1));
        assert(forall|j: int| 0 <= j ==> crlf_at(s, j + 1) == crlf_at(s.skip(1), j));
        match find_crlf(s.skip(1)) {
            Some(i) => {
                assert(crlf_at(s.skip(1), i));
                assert(crlf_at(s, i + 1));
                assert forall|j: int| 0 <= j < i + 1 implies !crlf_at(s, j) by {
                    if j > 0 {
                        assert(!crlf_at(s.skip(1), j - 1));
                    }
                }
            },
            None => {
                assert forall|j: int| true implies !crlf_at(s, j) by {
                    if j > 0 {
                        assert(!crlf_at(s.skip(1), j - 1));
                    }
                }
            },
        }
    }
}

/// If CRLF stands at `i` and nowhere earlier, the search finds `i`.
pub proof fn lemma_find_crlf_first(s: Seq<u8>, i: int)
    requires
        crlf_at(s, i),
        forall|j: int| 0 <= j < i ==> !crlf_at(s, j),
    ensures
        find_crlf(s) == Some(i),
    decreases s.len(),
{
    if i == 0 {
    } else {
        assert(!crlf_at(s, 0));
        assert(!(s[0] == 13 && s[1] == 10));
        assert(crlf_at(s.skip(1), i - 1));
        assert forall|j: int| 0 <= j < i - 1 implies !crlf_at(s.skip(1), j) by {
            assert(!crlf_at(s, j + 1));
        }
        lemma_find_crlf_first(s.skip(1), i - 1);
    }
}

/// Recognizes the hard frame separator of the wire grammar.
pub struct CRLFValidator;

impl CRLFValidator {
    /// The index of the first CRLF pair in `arr`, if one occurs.
    pub fn find(arr: &[u8]) -> (r: Option<usize>)
        ensures
            match r {
                Some(i) => find_crlf(arr@) == Some(i as int),
                None => find_crlf(arr@) is None,
            },
    {
        if arr.len() < 2 {
            proof {
                lemma_find_crlf(arr@);
            }
            return None;
        }
        let mut i: usize = 0;
        while i < arr.len() - 1
            invariant
                arr@.len() >= 2,
                0 <= i <= arr@.len() - 1,
                forall|j: int| 0 <= j < i ==> !crlf_at(arr@, j),
            decreases arr@.len() - i,
        {
            if arr[i] == 13 && arr[i + 1] == 10 {
                proof {
                    lemma_find_crlf_first(arr@, i as int);
                }
                return Some(i);
            }
            i = i + 1;
        }
        proof {
            lemma_find_crlf(arr@);
        }
        None
    }
}

} // verus!
