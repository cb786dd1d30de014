use std::rc::Rc;
use vstd::prelude::*;
use vstd::string::StringSliceAdditionalSpecFns;
use vstd::utf8::*;

verus! {

/// Internal representation: either an entire shared buffer, or a byte range
/// of one. The `Rc` makes cloning cheap and lets many handles share one
/// allocation.
#[derive(Debug)]
pub(crate) enum TextData {
    Entire(Rc<String>),
    Slice { string: Rc<String>, start: usize, len: usize },
}

/// An immutable sequence of UTF-8 encoded characters.
///
/// A `Text` is either a whole reference-counted buffer or a byte range of
/// one; the distinction is not observable through its content. Cloning is
/// cheap, and slicing shares the backing buffer instead of copying.
///
/// The mathematical content of a `Text` is its byte sequence, written `t@`.
#[derive(Debug)]
pub struct Text {
    pub(crate) data: TextData,
}

impl Text {
    /// The character contents of the backing buffer this handle points into.
    pub closed spec fn origin(&self) -> Seq<char> {
        match self.data {
            TextData::Entire(s) => s@,
            TextData::Slice { string, start: _, len: _ } => string@,
        }
    }

    /// The UTF-8 bytes of the backing buffer.
    pub closed spec fn origin_bytes(&self) -> Seq<u8> {
        encode_utf8(self.origin())
    }

    /// Byte offset of this handle's view within the backing buffer.
    pub closed spec fn start_byte(&self) -> int {
        match self.data {
            TextData::Entire(_) => 0,
            TextData::Slice { string: _, start, len: _ } => start as int,
        }
    }

    /// Byte length of this handle's view.
    pub closed spec fn byte_len(&self) -> int {
        match self.data {
            TextData::Entire(_) => self.origin_bytes().len() as int,
            TextData::Slice { string: _, start: _, len } => len as int,
        }
    }

    /// Structural soundness of a handle: its byte range lies within the
    /// backing buffer and both endpoints fall on character boundaries, so
    /// the view is itself well-formed UTF-8. Every `Text` built by this
    /// library satisfies it.
    #[verifier::type_invariant]
    pub closed spec fn valid(&self) -> bool {
        &&& self.origin_bytes().len() <= usize::MAX
        &&& self.start_byte() + self.byte_len() <= self.origin_bytes().len()
        &&& is_char_boundary(self.origin_bytes(), self.start_byte())
        &&& is_char_boundary(self.origin_bytes(), self.start_byte() + self.byte_len())
    }
}

impl View for Text {
    type V = Seq<u8>;

    /// The content of the handle: the byte range it denotes within its
    /// backing buffer.
    closed spec fn view(&self) -> Seq<u8> {
        self.origin_bytes().subrange(self.start_byte(), self.start_byte() + self.byte_len())
    }
}

/// If a prefix of a valid UTF-8 byte sequence is itself valid UTF-8, the
/// position where the prefix ends is a character boundary: decoding is
/// driven byte by byte from the front, so a decodable prefix can never end
/// in the middle of a character's encoding.
pub(crate) proof fn lemma_valid_prefix_boundary(bytes: Seq<u8>, i: int)
    requires
        valid_utf8(bytes),
        0 <= i <= bytes.len(),
        valid_utf8(bytes.subrange(0, i)),
    ensures
        is_char_boundary(bytes, i),
    decreases bytes.len(),
{
    if i == 0 {
        is_char_boundary_start_end_of_seq(bytes);
    } else {
        let pre = bytes.subrange(0, i);
        let w = length_of_first_scalar(bytes);
        assert(valid_first_scalar(bytes));
        assert(valid_first_scalar(pre));
        assert(pre[0] == bytes[0]);
        assert(length_of_first_scalar(pre) == w);
        assert(i >= w);
        let tail = pop_first_scalar(bytes);
        assert(tail =~= bytes.subrange(w, bytes.len() as int));
        assert(pop_first_scalar(pre) =~= tail.subrange(0, i - w));
        assert(valid_utf8(pop_first_scalar(pre)));
        lemma_valid_prefix_boundary(tail, i - w);
        assert(is_char_boundary(bytes, i));
    }
}

/// A position inside a suffix of a valid UTF-8 byte sequence is a character
/// boundary exactly when the corresponding position of the whole sequence is.
pub(crate) proof fn lemma_suffix_boundary(ob: Seq<u8>, s: int, k: int)
    requires
        valid_utf8(ob),
        is_char_boundary(ob, s),
        0 <= s,
        0 <= k,
        s + k <= ob.len(),
    ensures
        is_char_boundary(ob.subrange(s, ob.len() as int), k) <==> is_char_boundary(ob, s + k),
{
    let suf = ob.subrange(s, ob.len() as int);
    valid_utf8_split(ob, s);
    if s + k == ob.len() {
        is_char_boundary_start_end_of_seq(suf);
        is_char_boundary_start_end_of_seq(ob);
    } else {
        is_char_boundary_iff_not_is_continuation_byte(ob, s + k);
        is_char_boundary_iff_not_is_continuation_byte(suf, k);
        assert(suf[k] == ob[s + k]);
    }
}

impl Text {
    /// The view of a sound handle is itself valid UTF-8.
    pub proof fn lemma_view_valid(&self)
        requires
            self.valid(),
        ensures
            valid_utf8(self@),
            self@.len() == self.byte_len(),
            self@.len() <= usize::MAX,
    {
        broadcast use encode_utf8_valid_utf8;

        let ob = self.origin_bytes();
        let s = self.start_byte();
        let l = self.byte_len();
        let suf = ob.subrange(s, ob.len() as int);
        valid_utf8_split(ob, s);
        lemma_suffix_boundary(ob, s, l);
        valid_utf8_split(suf, l);
        assert(self@ =~= suf.subrange(0, l));
    }

    /// A position inside a handle's view is a character boundary exactly
    /// when the corresponding position of the backing buffer is.
    pub proof fn lemma_view_boundary(&self, k: int)
        requires
            self.valid(),
            0 <= k <= self.byte_len(),
        ensures
            is_char_boundary(self@, k) <==> is_char_boundary(
                self.origin_bytes(),
                self.start_byte() + k,
            ),
    {
        broadcast use encode_utf8_valid_utf8;

        let ob = self.origin_bytes();
        let s = self.start_byte();
        let l = self.byte_len();
        let suf = ob.subrange(s, ob.len() as int);
        self.lemma_view_valid();
        valid_utf8_split(ob, s);
        lemma_suffix_boundary(ob, s, l);
        valid_utf8_split(suf, l);
        assert(self@ =~= suf.subrange(0, l));
        lemma_suffix_boundary(ob, s, k);
        if k == l {
            is_char_boundary_start_end_of_seq(self@);
        } else {
            is_char_boundary_iff_not_is_continuation_byte(suf, k);
            is_char_boundary_iff_not_is_continuation_byte(self@, k);
            assert(self@[k] == suf[k]);
        }
    }
}

impl Text {
    /// Creates a new `Text` by copying the provided slice into a fresh
    /// shared buffer. This is the only operation that copies text.
    pub fn new(s: &str) -> (r: Text)
        ensures
            r.valid(),
            r@ == s.spec_bytes(),
            r.origin() == s@,
    {
        let n: usize = s.as_bytes().len();
        let owned: String = s.to_owned();
        let rc: Rc<String> = Rc::new(owned);
        proof {
            broadcast use encode_utf8_valid_utf8, is_char_boundary_start_end_of_seq;

            assert(encode_utf8(rc@) == s.spec_bytes());
            assert(s.spec_bytes().len() == n);
        }
        let r = Text { data: TextData::Entire(rc) };
        proof {
            assert(r@ =~= s.spec_bytes());
        }
        r
    }

    /// Borrows the handle's contents as a `&str`.
    pub fn as_str<'a>(&'a self) -> (r: &'a str)
        ensures
            r.spec_bytes() == self@,
            r@ == decode_utf8(self@),
    {
        proof {
            use_type_invariant(self);
            self.lemma_view_valid();
            broadcast use encode_utf8_valid_utf8, decode_utf8_encode_utf8, encode_utf8_decode_utf8;

        }
        match &self.data {
            TextData::Entire(s) => {
                let whole: &str = (&**s).as_str();
                proof {
                    assert(self@ =~= whole.spec_bytes());
                }
                whole
            },
            TextData::Slice { string, start, len } => {
                let whole: &str = (&**string).as_str();
                proof {
                    let ob = self.origin_bytes();
                    let suf = ob.subrange(*start as int, ob.len() as int);
                    valid_utf8_split(ob, *start as int);
                    lemma_suffix_boundary(ob, *start as int, *len as int);
                }
                let (_, tail) = whole.split_at(*start);
                let (head, _) = tail.split_at(*len);
                proof {
                    assert(head.spec_bytes() =~= self@);
                }
                head
            },
        }
    }

    /// Returns a handle onto the byte range `[start, start + len)` of this
    /// handle's contents, sharing the backing buffer.
    ///
    /// The range must lie within the handle's contents and must not split a
    /// multi-byte character; a call outside those bounds is a programming
    /// error, which verification rules out.
    pub fn substring(&self, start: usize, len: usize) -> (r: Text)
        requires
            start + len <= self@.len(),
            is_char_boundary(self@, start as int),
            is_char_boundary(self@, start + len),
        ensures
            is_slice_of(r, *self, start as int, len as int),
            r@ == self@.subrange(start as int, start + len),
    {
        proof {
            use_type_invariant(self);
            self.lemma_view_valid();
            self.lemma_view_boundary(start as int);
            self.lemma_view_boundary(start + len);
        }
        let n = self.len();
        if start > n || len > n - start {
            // Out-of-bounds slicing is a caller contract violation, which
            // the precondition rules out for verified callers; an
            // unverified caller that breaks it aborts here.
            return vstd::pervasive::unreached();
        }
        let r = match &self.data {
            TextData::Entire(s) => Text {
                data: TextData::Slice { string: s.clone(), start, len },
            },
            TextData::Slice { string, start: s2, len: _ } => Text {
                data: TextData::Slice { string: string.clone(), start: *s2 + start, len },
            },
        };
        proof {
            assert(r@ =~= self@.subrange(start as int, start + len));
        }
        r
    }

    /// Returns a handle onto the byte range `[start, end)` of this handle's
    /// contents, like the slice operator. The same bounds discipline as for
    /// [`Text::substring`] applies, and additionally `start <= end`.
    pub fn slice(&self, start: usize, end: usize) -> (r: Text)
        requires
            start <= end,
            end <= self@.len(),
            is_char_boundary(self@, start as int),
            is_char_boundary(self@, end as int),
        ensures
            is_slice_of(r, *self, start as int, end - start),
            r@ == self@.subrange(start as int, end as int),
    {
        if end < start {
            // An inverted range is a caller contract violation, which the
            // precondition rules out for verified callers; an unverified
            // caller that breaks it aborts here.
            return vstd::pervasive::unreached();
        }
        self.substring(start, end - start)
    }

    /// The length of the handle's contents, in bytes.
    pub fn len(&self) -> (n: usize)
        ensures
            n == self@.len(),
    {
        proof {
            use_type_invariant(self);
            self.lemma_view_valid();
        }
        self.as_str().len()
    }

    /// Is this handle's content the empty string?
    pub fn is_empty(&self) -> (r: bool)
        ensures
            r == (self@.len() == 0),
    {
        self.len() == 0
    }
}

/// `sub` is a handle onto the byte range `[start, start + len)` of `h`'s
/// view, pointing into the very same backing buffer. This is what
/// [`Text::substring`] ensures of its result.
pub open spec fn is_slice_of(sub: Text, h: Text, start: int, len: int) -> bool {
    &&& sub.valid()
    &&& sub.origin() == h.origin()
    &&& sub.start_byte() == h.start_byte() + start
    &&& sub.byte_len() == len
}

/// Slicing a slice flattens. A sub-handle of a sub-handle of `h` is itself
/// a direct sub-handle of `h`: it points into `h`'s own backing buffer, its
/// offset is the sum of the two offsets, and its content is the
/// corresponding byte range of `h`'s content. Repeated slicing therefore
/// never builds a chain of indirections.
pub proof fn lemma_slicing_flattens(h: Text, s1: Text, s2: Text, a: int, b: int, c: int, d: int)
    requires
        h.valid(),
        0 <= a,
        0 <= c,
        a + b <= h@.len(),
        c + d <= b,
        0 <= d,
        is_slice_of(s1, h, a, b),
        is_slice_of(s2, s1, c, d),
    ensures
        is_slice_of(s2, h, a + c, d),
        s2@ == h@.subrange(a + c, a + c + d),
{
    assert(s2.origin_bytes() == h.origin_bytes());
    assert(s2@ =~= h@.subrange(a + c, a + c + d));
}

impl PartialEq for Text {
    /// Equality is content-based: two handles are equal exactly when their
    /// byte contents are equal, regardless of which buffers back them or
    /// where in those buffers they point.
    fn eq(&self, other: &Self) -> (r: bool) {
        proof {
            use_type_invariant(self);
            use_type_invariant(other);
            self.lemma_view_valid();
            other.lemma_view_valid();
        }
        let a: &[u8] = self.as_str().as_bytes();
        let b: &[u8] = other.as_str().as_bytes();
        if a.len() != b.len() {
            return false;
        }
        let n = a.len();
        let mut i: usize = 0;
        while i < n
            invariant
                n == a@.len() == b@.len(),
                i <= n,
                a@ == self@,
                b@ == other@,
                forall|j: int| 0 <= j < i ==> a@[j] == b@[j],
            decreases n - i,
        {
            if a[i] != b[i] {
                return false;
            }
            i += 1;
        }
        proof {
            assert(self@ =~= other@);
        }
        true
    }
}

impl Eq for Text {

}

impl vstd::std_specs::cmp::PartialEqSpecImpl for Text {
    open spec fn obeys_eq_spec() -> bool {
        true
    }

    open spec fn eq_spec(&self, other: &Text) -> bool {
        self@ == other@
    }
}

impl std::str::FromStr for Text {
    type Err = ();

    /// Parsing from a string never fails; it copies the input into a fresh
    /// buffer, like [`Text::new`].
    fn from_str(s: &str) -> (r: Result<Text, ()>)
        ensures
            r matches Ok(t) ==> t.valid() && t@ == s.spec_bytes(),
            r is Ok,
    {
        Ok(Text::new(s))
    }
}

impl Clone for Text {
    /// Cloning is cheap: the clone shares the backing buffer.
    fn clone(&self) -> (r: Self)
        ensures
            r == *self,
    {
        proof {
            use_type_invariant(self);
        }
        match &self.data {
            TextData::Entire(s) => Text { data: TextData::Entire(s.clone()) },
            TextData::Slice { string, start, len } => Text {
                data: TextData::Slice { string: string.clone(), start: *start, len: *len },
            },
        }
    }
}

impl Default for Text {
    /// An empty `Text`, equivalent to `Text::new("")`.
    fn default() -> (r: Text)
        ensures
            r.valid(),
            r@ == Seq::<u8>::empty(),
    {
        let rc: Rc<String> = Rc::new(String::new());
        proof {
            assert(encode_utf8(rc@) =~= Seq::<u8>::empty());
        }
        let r = Text { data: TextData::Entire(rc) };
        proof {
            assert(r@ =~= Seq::<u8>::empty());
        }
        r
    }
}

} // verus!
