//! UTF-8 scanning: lead-byte classification, single-character encoding and
//! segmentation of a byte buffer into per-codepoint slices.
use vstd::prelude::*;
use vstd::string::StringSliceAdditionalSpecFns;
use vstd::utf8::{
    encode_scalar, has_width_1_encoding, has_width_2_encoding, has_width_3_encoding,
    has_width_4_encoding, is_continuation_byte, is_leading_byte_width_1, is_leading_byte_width_2,
    is_leading_byte_width_3, is_leading_byte_width_4, is_scalar, leading_byte_width_1,
    leading_byte_width_2, leading_byte_width_3, leading_byte_width_4, length_of_first_scalar,
    pop_first_scalar, valid_first_scalar, valid_utf8,
};

verus! {

/// The encoded length that a lead byte declares, or `None` for a
/// continuation byte (`10xxxxxx`) and for `11111xxx`.
pub open spec fn lead_byte_len(b: u8) -> Option<u8> {
    if is_leading_byte_width_1(b) {
        Some(1u8)
    } else if is_leading_byte_width_2(b) {
        Some(2u8)
    } else if is_leading_byte_width_3(b) {
        Some(3u8)
    } else if is_leading_byte_width_4(b) {
        Some(4u8)
    } else {
        None
    }
}

/// Bit tests on a value.
pub trait BitFlag: Sized {
    spec fn spec_has_flag(&self, flag: Self) -> bool;

    spec fn spec_has_flag_with_mask(&self, mask: Self, flag: Self) -> bool;

    /// Whether every bit of `flag` is set.
    fn has_flag(&self, flag: Self) -> (r: bool)
        ensures
            r == self.spec_has_flag(flag),
    ;

    /// Whether the bits selected by `mask` are exactly `flag`.
    fn has_flag_with_mask(&self, mask: Self, flag: Self) -> (r: bool)
        ensures
            r == self.spec_has_flag_with_mask(mask, flag),
    ;
}

/// Classification of a byte by its UTF-8 bit pattern.
pub trait UTF8Flag: Sized {
    spec fn spec_glyph_size(&self) -> Option<u8>;

    spec fn spec_is_next_glyph(&self) -> bool;

    /// The codepoint length (1 to 4) that this byte declares as a lead byte.
    fn utf8_glyth_size(&self) -> (r: Option<u8>)
        ensures
            r == self.spec_glyph_size(),
    ;

    /// Whether this byte is a continuation byte.
    fn utf8_is_next_glyth(&self) -> (r: bool)
        ensures
            r == self.spec_is_next_glyph(),
    ;
}

impl BitFlag for u8 {
    open spec fn spec_has_flag(&self, flag: u8) -> bool {
        *self & flag == flag
    }

    open spec fn spec_has_flag_with_mask(&self, mask: u8, flag: u8) -> bool {
        *self & mask == flag
    }

    fn has_flag(&self, flag: u8) -> (r: bool) {
        *self & flag == flag
    }

    fn has_flag_with_mask(&self, mask: u8, flag: u8) -> (r: bool) {
        *self & mask == flag
    }
}

impl UTF8Flag for u8 {
    open spec fn spec_glyph_size(&self) -> Option<u8> {
        lead_byte_len(*self)
    }

    open spec fn spec_is_next_glyph(&self) -> bool {
        is_continuation_byte(*self)
    }

    fn utf8_glyth_size(&self) -> (r: Option<u8>) {
        let b = *self;
        proof {
            assert(b & 0xf8 == 0xf0 <==> 0xf0 <= b <= 0xf7) by (bit_vector);
            assert(b & 0xf0 == 0xe0 <==> 0xe0 <= b <= 0xef) by (bit_vector);
            assert(b & 0xe0 == 0xc0 <==> 0xc0 <= b <= 0xdf) by (bit_vector);
            assert(b & 0x80 == 0x00 <==> b <= 0x7f) by (bit_vector);
        }
        let size: u8 = if self.has_flag_with_mask(0b11111_000u8, 0b11110_000u8) {
            4
        } else if self.has_flag_with_mask(0b1111_0000u8, 0b1110_0000u8) {
            3
        } else if self.has_flag_with_mask(0b111_00000u8, 0b110_00000u8) {
            2
        } else if self.has_flag_with_mask(0b1_0000000u8, 0b0_0000000u8) {
            1
        } else {
            return None;
        };
        Some(size)
    }

    fn utf8_is_next_glyth(&self) -> (r: bool) {
        let b = *self;
        proof {
            assert(b & 0xc0 == 0x80 <==> 0x80 <= b <= 0xbf) by (bit_vector);
        }
        self.has_flag_with_mask(0b11_000000u8, 0b10_000000u8)
    }
}


/// `s` followed by zero bytes up to a length of four.
pub open spec fn zero_padded(s: Seq<u8>) -> Seq<u8> {
    s + Seq::new((4 - s.len()) as nat, |_j: int| 0u8)
}

/// The first byte of a scalar's encoding declares the encoding's length.
pub proof fn lemma_encoded_lead_byte(v: u32)
    requires
        is_scalar(v),
    ensures
        lead_byte_len(encode_scalar(v)[0]) == Some(encode_scalar(v).len() as u8),
        1 <= encode_scalar(v).len() <= 4,
{
    if has_width_1_encoding(v) {
        assert(leading_byte_width_1(v) <= 0x7f) by (bit_vector);
    } else if has_width_2_encoding(v) {
        assert(0xc0 <= leading_byte_width_2(v) <= 0xdf) by (bit_vector);
    } else if has_width_3_encoding(v) {
        assert(0xe0 <= leading_byte_width_3(v) <= 0xef) by (bit_vector);
    } else {
        assert(0xf0 <= leading_byte_width_4(v) <= 0xf7) by (bit_vector);
    }
}

/// Relies on `char::encode_utf8`: it writes the UTF-8 encoding of `c` at the
/// start of the given buffer and returns that part, so the bytes after it keep
/// the zeros the buffer was made with.
#[verifier::external_body]
fn encode_zero_padded(c: char) -> (r: [u8; 4])
    ensures
        r@ == zero_padded(encode_scalar(c as u32)),
{
    let mut buffer: [u8; 4] = [0; 4];
    c.encode_utf8(&mut buffer);
    buffer
}

/// Conversion of a character into its UTF-8 bytes.
pub trait Utf8ToBytes: Sized {
    /// The encoded length and the zero-padded four-byte buffer, or `None`.
    spec fn spec_utf8_to_bytes(self) -> Option<(u8, Seq<u8>)>;

    /// The encoded length and a four-byte buffer holding the encoding,
    /// zero-padded after it.
    fn utf8_to_bytes(self) -> (r: Option<(u8, [u8; 4])>)
        ensures
            match r {
                Some((n, buf)) => self.spec_utf8_to_bytes() == Some((n, buf@)),
                None => self.spec_utf8_to_bytes() is None,
            },
    ;
}

impl Utf8ToBytes for char {
    /// Always `Some`: the length is that of the UTF-8 encoding, as the lead
    /// byte declares it.
    open spec fn spec_utf8_to_bytes(self) -> Option<(u8, Seq<u8>)> {
        Some((encode_scalar(self as u32).len() as u8, zero_padded(encode_scalar(self as u32))))
    }

    fn utf8_to_bytes(self) -> (r: Option<(u8, [u8; 4])>) {
        let buffer = encode_zero_padded(self);
        proof {
            vstd::utf8::char_is_scalar(self);
            lemma_encoded_lead_byte(self as u32);
            assert(buffer@[0] == encode_scalar(self as u32)[0]);
        }
        let size = buffer[0].utf8_glyth_size();
        match size {
            Some(size) => Some((size, buffer)),
            None => None,
        }
    }
}


/// The length of the glyph at the start of `bytes`: the length its lead byte
/// declares, when that byte is a lead byte and all the declared bytes are
/// present.
pub open spec fn first_glyph_len(bytes: Seq<u8>) -> Option<int> {
    if bytes.len() > 0 && lead_byte_len(bytes[0]) is Some && lead_byte_len(bytes[0])->0
        <= bytes.len() {
        Some(lead_byte_len(bytes[0])->0 as int)
    } else {
        None
    }
}

/// The slices that segmentation yields from `bytes`: one per glyph, ending at
/// the end of the bytes, at a byte that is no lead byte, or at a glyph that
/// the bytes cut short.
pub open spec fn glyphs(bytes: Seq<u8>) -> Seq<Seq<u8>>
    decreases bytes.len(),
{
    if first_glyph_len(bytes) is Some {
        let n = first_glyph_len(bytes)->0;
        seq![bytes.subrange(0, n)] + glyphs(bytes.subrange(n, bytes.len() as int))
    } else {
        seq![]
    }
}

proof fn lemma_flatten_cons(x: Seq<u8>, s: Seq<Seq<u8>>)
    ensures
        (seq![x] + s).flatten() == x + s.flatten(),
{
    let t = seq![x] + s;
    assert(t.first() == x);
    assert(t.drop_first() =~= s);
}

/// Joining the glyphs back together gives the bytes they were cut from, up
/// to where segmentation stopped.
pub proof fn lemma_glyphs_join_to_prefix(bytes: Seq<u8>)
    ensures
        glyphs(bytes).flatten().is_prefix_of(bytes),
    decreases bytes.len(),
{
    if first_glyph_len(bytes) is Some {
        let n = first_glyph_len(bytes)->0;
        let rest = bytes.subrange(n, bytes.len() as int);
        lemma_glyphs_join_to_prefix(rest);
        lemma_flatten_cons(bytes.subrange(0, n), glyphs(rest));
        let joined = glyphs(bytes).flatten();
        assert(joined =~= bytes.subrange(0, n) + glyphs(rest).flatten());
        assert(joined =~= bytes.subrange(0, joined.len() as int));
    } else {
        assert(glyphs(bytes).flatten() =~= Seq::<u8>::empty());
    }
}

/// Over valid UTF-8, segmentation runs to the end: the glyphs join back to
/// exactly the bytes.
pub proof fn lemma_glyphs_join_valid_utf8(bytes: Seq<u8>)
    requires
        valid_utf8(bytes),
    ensures
        glyphs(bytes).flatten() == bytes,
    decreases bytes.len(),
{
    if bytes.len() == 0 {
        assert(glyphs(bytes).flatten() =~= bytes);
    } else {
        assert(valid_first_scalar(bytes));
        let n = length_of_first_scalar(bytes);
        assert(first_glyph_len(bytes) == Some(n));
        let rest = bytes.subrange(n, bytes.len() as int);
        assert(rest == pop_first_scalar(bytes));
        lemma_glyphs_join_valid_utf8(rest);
        lemma_flatten_cons(bytes.subrange(0, n), glyphs(rest));
        assert(glyphs(bytes).flatten() =~= bytes.subrange(0, n) + rest);
        assert(glyphs(bytes).flatten() =~= bytes);
    }
}

/// A restartable segmentation of a byte slice into glyphs, from byte offset
/// `i` on.
///
/// A glyph whose lead byte declares more bytes than are left ends the
/// sequence, as a byte that is no lead byte does: no slice runs past the end.
pub struct UTF8Iter<'a> {
    pub i: usize,
    pub data: &'a [u8],
}

impl<'a> UTF8Iter<'a> {
    /// The glyphs still to come.
    pub open spec fn remaining(&self) -> Seq<Seq<u8>> {
        if self.i <= self.data@.len() {
            glyphs(self.data@.subrange(self.i as int, self.data@.len() as int))
        } else {
            seq![]
        }
    }

    /// The next glyph, or `None` once the sequence has ended.
    pub fn next(&mut self) -> (r: Option<&'a [u8]>)
        ensures
            final(self).data == old(self).data,
            match r {
                Some(g) => {
                    &&& old(self).remaining().len() > 0
                    &&& g@ == old(self).remaining()[0]
                    &&& final(self).i == old(self).i + g@.len()
                    &&& final(self).remaining() == old(self).remaining().drop_first()
                },
                None => old(self).remaining().len() == 0 && *final(self) == *old(self),
            },
    {
        let i = self.i;
        let len = self.data.len();
        if i >= len {
            return None;
        }
        let size: usize = match self.data[i].utf8_glyth_size() {
            Some(n) => n as usize,
            None => return None,
        };
        if size > len - i {
            return None;
        }
        let glyph = &self.data[i..i + size];
        self.i = i + size;
        proof {
            let rest = self.data@.subrange(i as int, len as int);
            assert(rest[0] == self.data@[i as int]);
            assert(rest.subrange(size as int, rest.len() as int) =~= self.data@.subrange(
                (i + size) as int,
                len as int,
            ));
            assert(rest.subrange(0, size as int) =~= glyph@);
            assert(glyphs(rest).drop_first() =~= glyphs(rest.subrange(size as int, rest.len() as int)));
        }
        Some(glyph)
    }
}


/// Glyph segmentation of a byte container, from its first byte.
pub trait UTF8IntoIter<'a> {
    /// The bytes that segmentation runs over.
    spec fn utf8_bytes(&self) -> Seq<u8>;

    /// A segmentation of these bytes, starting at offset zero.
    fn utf8_iter(&'a self) -> (r: UTF8Iter<'a>)
        ensures
            r.i == 0,
            r.data@ == self.utf8_bytes(),
            r.remaining() == glyphs(self.utf8_bytes()),
    ;
}

impl<'a> UTF8IntoIter<'a> for &[u8] {
    open spec fn utf8_bytes(&self) -> Seq<u8> {
        (*self)@
    }

    fn utf8_iter(&'a self) -> (r: UTF8Iter<'a>) {
        let r = UTF8Iter { i: 0, data: *self };
        assert(r.data@.subrange(0, r.data@.len() as int) =~= r.data@);
        r
    }
}

impl<'a> UTF8IntoIter<'a> for &str {
    open spec fn utf8_bytes(&self) -> Seq<u8> {
        (*self).spec_bytes()
    }

    fn utf8_iter(&'a self) -> (r: UTF8Iter<'a>) {
        let r = UTF8Iter { i: 0, data: self.as_bytes() };
        assert(r.data@.subrange(0, r.data@.len() as int) =~= r.data@);
        r
    }
}

impl<'a> UTF8IntoIter<'a> for Vec<u8> {
    open spec fn utf8_bytes(&self) -> Seq<u8> {
        self@
    }

    fn utf8_iter(&'a self) -> (r: UTF8Iter<'a>) {
        let r = UTF8Iter { i: 0, data: self.as_slice() };
        assert(r.data@.subrange(0, r.data@.len() as int) =~= r.data@);
        r
    }
}

} // verus!
