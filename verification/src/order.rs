use crate::text::Text;
use core::cmp::Ordering;
use vstd::prelude::*;

verus! {

/// Lexicographic comparison of two byte sequences: the order that `str`
/// and byte-slice comparisons use.
pub open spec fn lex_cmp_bytes(a: Seq<u8>, b: Seq<u8>) -> Ordering
    decreases a.len(),
{
    if a.len() == 0 && b.len() == 0 {
        Ordering::Equal
    } else if a.len() == 0 {
        Ordering::Less
    } else if b.len() == 0 {
        Ordering::Greater
    } else if a[0] < b[0] {
        Ordering::Less
    } else if a[0] > b[0] {
        Ordering::Greater
    } else {
        lex_cmp_bytes(a.drop_first(), b.drop_first())
    }
}

/// Dropping an equal prefix from both sequences does not change how they
/// compare.
proof fn lemma_lex_after_common_prefix(a: Seq<u8>, b: Seq<u8>, i: int)
    requires
        0 <= i <= a.len(),
        i <= b.len(),
        forall|j: int| 0 <= j < i ==> a[j] == b[j],
    ensures
        lex_cmp_bytes(a, b) == lex_cmp_bytes(a.skip(i), b.skip(i)),
    decreases i,
{
    if i == 0 {
        assert(a.skip(0) =~= a);
        assert(b.skip(0) =~= b);
    } else {
        assert(a[0] == b[0]);
        assert(a.drop_first().skip(i - 1) =~= a.skip(i));
        assert(b.drop_first().skip(i - 1) =~= b.skip(i));
        assert forall|j: int| 0 <= j < i - 1 implies a.drop_first()[j] == b.drop_first()[j] by {
            assert(a[j + 1] == b[j + 1]);
        }
        lemma_lex_after_common_prefix(a.drop_first(), b.drop_first(), i - 1);
    }
}

impl PartialOrd for Text {
    /// Ordering is content-based: handles compare as their byte contents
    /// do, lexicographically, regardless of representation.
    fn partial_cmp(&self, other: &Self) -> (r: Option<Ordering>) {
        proof {
            use_type_invariant(self);
            use_type_invariant(other);
            self.lemma_view_valid();
            other.lemma_view_valid();
        }
        let a: &[u8] = self.as_str().as_bytes();
        let b: &[u8] = other.as_str().as_bytes();
        let an = a.len();
        let bn = b.len();
        let m = if an < bn {
            an
        } else {
            bn
        };
        let mut i: usize = 0;
        while i < m
            invariant
                an == a@.len(),
                bn == b@.len(),
                m == if an < bn {
                    an as int
                } else {
                    bn as int
                },
                i <= m,
                a@ == self@,
                b@ == other@,
                forall|j: int| 0 <= j < i ==> a@[j] == b@[j],
            decreases m - i,
        {
            let x = a[i];
            let y = b[i];
            if x < y {
                proof {
                    lemma_lex_after_common_prefix(a@, b@, i as int);
                    assert(a@.skip(i as int)[0] == a@[i as int]);
                    assert(b@.skip(i as int)[0] == b@[i as int]);
                }
                return Some(Ordering::Less);
            }
            if x > y {
                proof {
                    lemma_lex_after_common_prefix(a@, b@, i as int);
                    assert(a@.skip(i as int)[0] == a@[i as int]);
                    assert(b@.skip(i as int)[0] == b@[i as int]);
                }
                return Some(Ordering::Greater);
            }
            i += 1;
        }
        proof {
            lemma_lex_after_common_prefix(a@, b@, m as int);
            assert(a@.skip(m as int).len() == an - m);
            assert(b@.skip(m as int).len() == bn - m);
        }
        if an < bn {
            Some(Ordering::Less)
        } else if an > bn {
            Some(Ordering::Greater)
        } else {
            Some(Ordering::Equal)
        }
    }
}

impl vstd::std_specs::cmp::PartialOrdSpecImpl for Text {
    open spec fn obeys_partial_cmp_spec() -> bool {
        true
    }

    open spec fn partial_cmp_spec(&self, other: &Text) -> Option<Ordering> {
        Some(lex_cmp_bytes(self@, other@))
    }
}

} // verus!
