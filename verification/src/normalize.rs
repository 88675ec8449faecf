//! ASCII case folding of byte strings.

use vstd::prelude::*;

verus! {

/// Whether `b` is one of the ASCII letters `A` to `Z`.
pub open spec fn is_ascii_upper(b: u8) -> bool {
    0x41 <= b <= 0x5a
}

/// The lower-case form of one byte: `A`..`Z` move to `a`..`z`, every other
/// byte (non-ASCII bytes included) stays as it is.
pub open spec fn lower_byte(b: u8) -> u8 {
    if is_ascii_upper(b) {
        (b + 0x20) as u8
    } else {
        b
    }
}

/// The byte-wise lower-case form of a byte string.
pub open spec fn lowercase(s: Seq<u8>) -> Seq<u8> {
    Seq::new(s.len(), |i: int| lower_byte(s[i]))
}

/// Two bytes that are equal, or the same ASCII letter in different case.
pub open spec fn byte_differs_only_in_case(x: u8, y: u8) -> bool {
    ||| x == y
    ||| (is_ascii_upper(x) && y == x + 0x20)
    ||| (is_ascii_upper(y) && x == y + 0x20)
}

/// Two byte strings of one length that differ, position by position, in
/// ASCII case at most.
pub open spec fn differs_only_in_case(s: Seq<u8>, t: Seq<u8>) -> bool {
    &&& s.len() == t.len()
    &&& forall|i: int| 0 <= i < s.len() ==> byte_differs_only_in_case(#[trigger] s[i], t[i])
}

/// Folds one byte to lower case.
pub fn lower_ascii_byte(b: u8) -> (r: u8)
    ensures
        r == lower_byte(b),
{
    if 0x41 <= b && b <= 0x5a {
        b + 0x20
    } else {
        b
    }
}

/// Folds a byte string to lower case, byte by byte.
pub fn to_ascii_lowercase(bytes: &Vec<u8>) -> (folded: Vec<u8>)
    ensures
        folded@ == lowercase(bytes@),
{
    let mut folded: Vec<u8> = Vec::new();
    let mut i: usize = 0;
    while i < bytes.len()
        invariant
            i <= bytes.len(),
            folded@.len() == i,
            forall|j: int| 0 <= j < i ==> folded@[j] == lower_byte(bytes@[j]),
        decreases bytes.len() - i,
    {
        folded.push(lower_ascii_byte(bytes[i]));
        i += 1;
    }
    assert(folded@ =~= lowercase(bytes@));
    folded
}

/// Folding is idempotent: a folded string folds to itself.
pub proof fn lemma_lowercase_idempotent(s: Seq<u8>)
    ensures
        lowercase(lowercase(s)) == lowercase(s),
{
    assert(lowercase(lowercase(s)) =~= lowercase(s));
}

/// Strings that differ only in ASCII case fold to the same string.
pub proof fn lemma_case_variants_fold_alike(s: Seq<u8>, t: Seq<u8>)
    requires
        differs_only_in_case(s, t),
    ensures
        lowercase(s) == lowercase(t),
{
    assert forall|i: int| 0 <= i < s.len() implies lower_byte(s[i]) == lower_byte(t[i]) by {
        assert(byte_differs_only_in_case(s[i], t[i]));
    }
    assert(lowercase(s) =~= lowercase(t));
}

/// Strings that fold to the same string differ only in ASCII case.
pub proof fn lemma_fold_alike_are_case_variants(s: Seq<u8>, t: Seq<u8>)
    requires
        lowercase(s) == lowercase(t),
    ensures
        differs_only_in_case(s, t),
{
    assert(lowercase(s).len() == s.len());
    assert(lowercase(t).len() == t.len());
    assert forall|i: int| 0 <= i < s.len() implies byte_differs_only_in_case(
        #[trigger] s[i],
        t[i],
    ) by {
        assert(lowercase(s)[i] == lower_byte(s[i]));
        assert(lowercase(t)[i] == lower_byte(t[i]));
    }
}

} // verus!
