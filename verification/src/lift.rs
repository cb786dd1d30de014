use crate::text::{lemma_suffix_boundary, lemma_valid_prefix_boundary, Text};
use vstd::prelude::*;
use vstd::string::StringSliceAdditionalSpecFns;
use vstd::utf8::*;

verus! {

/// Relies on `str::as_ptr` and `str::len`. The body compares the address
/// range of `slice` with the address range of `original`. When it answers
/// `Some(off)`, `slice`'s memory lies inside `original`'s memory at byte
/// offset `off`; both are live immutable borrows, so they alias the same
/// bytes there, and `slice`'s content equals `original`'s content on
/// `[off, off + slice.len())`. Whether a given pair of borrows overlaps
/// depends on where the allocator placed them, so nothing is promised
/// about when `None` is answered.
#[verifier::external_body]
fn get_offset(original: &str, slice: &str) -> (r: Option<usize>)
    ensures
        r matches Some(off) ==> off + slice.spec_bytes().len() <= original.spec_bytes().len()
            && slice.spec_bytes() == original.spec_bytes().subrange(
            off as int,
            off + slice.spec_bytes().len(),
        ),
{
    let orig_pos = original.as_ptr() as usize;
    let orig_end = orig_pos + original.len();
    let slice_pos = slice.as_ptr() as usize;
    let slice_end = slice_pos + slice.len();
    if slice_pos < orig_pos || slice_end > orig_end {
        None
    } else {
        Some(slice_pos - orig_pos)
    }
}

/// Holds when `r` carries the bytes of a possible result of applying `f` to
/// `h`'s content: some `&str` holding `h`'s bytes was passed to `f`, and
/// `r`'s content equals the bytes of what `f` returned for it.
pub open spec fn lift_result<F: Fn(&str) -> &str>(h: Text, f: F, r: Text) -> bool {
    exists|a: &str, b: &str|
        #[trigger] f.ensures((a,), b) && a.spec_bytes() == h@ && r@ == b.spec_bytes()
}

/// Lifting through a function that behaves as the identity yields a handle
/// whose content equals the original handle's content.
pub proof fn lemma_lift_identity<F: Fn(&str) -> &str>(h: Text, f: F, r: Text)
    requires
        forall|a: &str, b: &str| #[trigger] f.ensures((a,), b) ==> b@ == a@,
        lift_result(h, f, r),
    ensures
        r@ == h@,
{
    let (a, b) = choose|a: &str, b: &str|
        #[trigger] f.ensures((a,), b) && a.spec_bytes() == h@ && r@ == b.spec_bytes();
    assert(b@ == a@);
}

impl Text {
    /// Attempts to turn a `&str` that was sliced out of this handle's
    /// contents back into a zero-copy `Text` over the same backing buffer.
    /// Answers `None` when `slice`'s memory does not lie within this
    /// handle's contents — in particular, whenever `slice` comes from an
    /// unrelated allocation, however its content compares.
    pub fn lift_slice(&self, slice: &str) -> (r: Option<Text>)
        ensures
            r matches Some(t) ==> t.valid() && t.origin() == self.origin() && t@
                == slice.spec_bytes(),
    {
        proof {
            use_type_invariant(self);
            self.lemma_view_valid();
        }
        let me: &str = self.as_str();
        match get_offset(me, slice) {
            None => None,
            Some(off) => {
                let n = slice.len();
                if n == 0 {
                    proof {
                        is_char_boundary_start_end_of_seq(self@);
                        assert(slice.spec_bytes() =~= self@.subrange(0, 0));
                    }
                    Some(self.substring(0, 0))
                } else {
                    proof {
                        broadcast use encode_utf8_valid_utf8;

                        let sb = slice.spec_bytes();
                        is_char_boundary_iff_not_is_continuation_byte(self@, off as int);
                        assert(self@[off as int] == sb[0]);
                        assert(valid_first_scalar(sb));
                        assert(!is_continuation_byte(sb[0]));
                        valid_utf8_split(self@, off as int);
                        let suf = self@.subrange(off as int, self@.len() as int);
                        assert(suf.subrange(0, n as int) =~= sb);
                        lemma_valid_prefix_boundary(suf, n as int);
                        lemma_suffix_boundary(self@, off as int, n as int);
                    }
                    let t = self.substring(off, n);
                    proof {
                        assert(t@ =~= slice.spec_bytes());
                    }
                    Some(t)
                }
            },
        }
    }

    /// Applies `f` to this handle's contents and lifts the returned `&str`
    /// back into a `Text`. Answers `None` when `f`'s result is not
    /// contained in this handle's memory.
    pub fn try_lift<F: Fn(&str) -> &str>(&self, f: F) -> (r: Option<Text>)
        requires
            forall|a: &str| #[trigger] f.requires((a,)),
        ensures
            r matches Some(t) ==> t.valid() && t.origin() == self.origin() && lift_result(
                *self,
                f,
                t,
            ),
    {
        proof {
            use_type_invariant(self);
        }
        let me: &str = self.as_str();
        let res: &str = f(me);
        let out = self.lift_slice(res);
        proof {
            if out is Some {
                assert(f.ensures((me,), res) && me.spec_bytes() == self@ && out->Some_0@
                    == res.spec_bytes());
            }
        }
        out
    }

    /// Applies `f` to this handle's contents and lifts the returned `&str`
    /// back into a `Text`. When `f`'s result is not contained in this
    /// handle's memory, a fresh buffer is allocated for it instead, so a
    /// handle is always returned.
    pub fn lift<F: Fn(&str) -> &str>(&self, f: F) -> (r: Text)
        requires
            forall|a: &str| #[trigger] f.requires((a,)),
        ensures
            r.valid(),
            lift_result(*self, f, r),
    {
        proof {
            use_type_invariant(self);
        }
        let me: &str = self.as_str();
        let res: &str = f(me);
        let r = match self.lift_slice(res) {
            Some(t) => t,
            None => Text::new(res),
        };
        proof {
            assert(f.ensures((me,), res) && me.spec_bytes() == self@ && r@ == res.spec_bytes());
        }
        r
    }

    /// Applies `f` to this handle's contents to obtain a sequence of
    /// sub-slices, and lifts each one. A sub-slice that is not contained in
    /// this handle's memory gets a fresh buffer of its own, so every
    /// element of `f`'s result yields a handle.
    pub fn lift_many<'a, F: Fn(&'a str) -> Vec<&'a str>>(&'a self, f: F) -> (r: Vec<Text>)
        requires
            forall|a: &'a str| #[trigger] f.requires((a,)),
        ensures
            exists|a: &'a str, bs: Vec<&'a str>|
                {
                    &&& #[trigger] f.ensures((a,), bs)
                    &&& a.spec_bytes() == self@
                    &&& r@.len() == bs@.len()
                    &&& forall|i: int|
                        #![trigger r@[i]]
                        0 <= i < r@.len() ==> r@[i].valid() && r@[i]@ == bs@[i].spec_bytes()
                },
    {
        proof {
            use_type_invariant(self);
        }
        let me: &'a str = self.as_str();
        let parts: Vec<&'a str> = f(me);
        let mut out: Vec<Text> = Vec::new();
        let mut i: usize = 0;
        while i < parts.len()
            invariant
                i == out@.len(),
                i <= parts@.len(),
                forall|j: int|
                    #![trigger out@[j]]
                    0 <= j < i ==> out@[j].valid() && out@[j]@ == parts@[j].spec_bytes(),
            decreases parts@.len() - i,
        {
            let p: &str = parts[i];
            let t = match self.lift_slice(p) {
                Some(t) => t,
                None => Text::new(p),
            };
            proof {
                use_type_invariant(&t);
            }
            out.push(t);
            i += 1;
        }
        proof {
            assert(f.ensures((me,), parts) && me.spec_bytes() == self@);
        }
        out
    }

    /// Applies `f` to this handle's contents to obtain a sequence of
    /// sub-slices, and lifts each one in order, stopping at the first
    /// sub-slice that is not contained in this handle's memory. The handles
    /// produced up to that point are returned; each shares this handle's
    /// backing buffer.
    pub fn try_lift_many<'a, F: Fn(&'a str) -> Vec<&'a str>>(&'a self, f: F) -> (r: Vec<Text>)
        requires
            forall|a: &'a str| #[trigger] f.requires((a,)),
        ensures
            exists|a: &'a str, bs: Vec<&'a str>|
                {
                    &&& #[trigger] f.ensures((a,), bs)
                    &&& a.spec_bytes() == self@
                    &&& r@.len() <= bs@.len()
                    &&& forall|i: int|
                        #![trigger r@[i]]
                        0 <= i < r@.len() ==> r@[i].valid() && r@[i].origin() == self.origin()
                            && r@[i]@ == bs@[i].spec_bytes()
                },
    {
        proof {
            use_type_invariant(self);
        }
        let me: &'a str = self.as_str();
        let parts: Vec<&'a str> = f(me);
        let mut out: Vec<Text> = Vec::new();
        let mut i: usize = 0;
        while i < parts.len()
            invariant
                i == out@.len(),
                i <= parts@.len(),
                forall|j: int|
                    #![trigger out@[j]]
                    0 <= j < i ==> out@[j].valid() && out@[j].origin() == self.origin()
                        && out@[j]@ == parts@[j].spec_bytes(),
            decreases parts@.len() - i,
        {
            let p: &str = parts[i];
            match self.lift_slice(p) {
                Some(t) => {
                    out.push(t);
                },
                None => {
                    break ;
                },
            }
            i += 1;
        }
        proof {
            assert(f.ensures((me,), parts) && me.spec_bytes() == self@);
        }
        out
    }
}

} // verus!
