use vstd::prelude::*;

verus! {

/// The text that `String::from_utf8_lossy` makes of `b`.
pub uninterp spec fn utf8_lossy(b: Seq<u8>) -> Seq<char>;

/// Relies on std's `String::from_utf8_lossy`, whose result depends on the
/// bytes alone.
#[verifier::external_body]
pub(crate) fn lossy_string(b: &[u8], start: usize, end: usize) -> (r: String)
    requires
        start <= end <= b@.len(),
    ensures
        r@ == utf8_lossy(b@.subrange(start as int, end as int)),
{
    String::from_utf8_lossy(&b[start..end]).into_owned()
}

/// `i` is the index of the first non-NUL byte of `s`.
pub open spec fn is_first_nonzero(s: Seq<u8>, i: int) -> bool {
    &&& 0 <= i < s.len()
    &&& s[i] != 0
    &&& forall|k: int| 0 <= k < i ==> s[k] == 0
}

/// `j` is the index of the last non-NUL byte of `s`.
pub open spec fn is_last_nonzero(s: Seq<u8>, j: int) -> bool {
    &&& 0 <= j < s.len()
    &&& s[j] != 0
    &&& forall|k: int| j < k < s.len() ==> s[k] == 0
}

/// `s` without its leading and trailing NUL bytes.
pub open spec fn nul_trimmed(s: Seq<u8>) -> Seq<u8> {
    if exists|i: int| is_first_nonzero(s, i) {
        s.subrange(choose|i: int| is_first_nonzero(s, i), (choose|j: int| is_last_nonzero(s, j)) + 1)
    } else {
        Seq::empty()
    }
}

/// The name held by the NUL-padded field `b[p..p + width]`.
pub open spec fn name_field(b: Seq<u8>, p: int, width: int) -> Seq<char> {
    utf8_lossy(nul_trimmed(b.subrange(p, p + width)))
}

/// Decodes the NUL-padded name field `b[start..end]`: NUL bytes are trimmed
/// from both ends and the rest is read as UTF-8, invalid sequences replaced.
pub(crate) fn read_name(b: &[u8], start: usize, end: usize) -> (r: String)
    requires
        start <= end <= b@.len(),
    ensures
        r@ == name_field(b@, start as int, end - start),
{
    let ghost s = b@.subrange(start as int, end as int);
    let mut i = start;
    while i < end && b[i] == 0
        invariant
            start <= i <= end <= b@.len(),
            forall|k: int| start <= k < i ==> b@[k] == 0,
        decreases end - i,
    {
        i = i + 1;
    }
    if i == end {
        assert forall|x: int| !is_first_nonzero(s, x) by {
            if 0 <= x < s.len() {
                assert(s[x] == b@[start + x]);
            }
        }
        assert(nul_trimmed(s) =~= Seq::<u8>::empty());
        assert(b@.subrange(end as int, end as int) =~= Seq::<u8>::empty());
        return lossy_string(b, end, end);
    }
    let mut j = end;
    while j > i && b[j - 1] == 0
        invariant
            start <= i < end <= b@.len(),
            b@[i as int] != 0,
            i < j <= end,
            forall|k: int| j <= k < end ==> b@[k] == 0,
        decreases j,
    {
        j = j - 1;
    }
    let ghost fi = i - start;
    let ghost lj = j - 1 - start;
    assert(is_first_nonzero(s, fi));
    assert(is_last_nonzero(s, lj));
    assert forall|x: int| is_first_nonzero(s, x) implies x == fi by {
        if x < fi {
            assert(s[x] == b@[start + x]);
        }
        if x > fi {
            assert(s[fi] == 0);
        }
    }
    assert forall|x: int| is_last_nonzero(s, x) implies x == lj by {
        if x > lj {
            assert(s[x] == b@[start + x]);
        }
        if x < lj {
            assert(s[lj] == 0);
        }
    }
    assert(nul_trimmed(s) =~= b@.subrange(i as int, j as int));
    lossy_string(b, i, j)
}

} // verus!
