use vstd::bytes::{
    lemma_auto_spec_u64_to_from_le_bytes, spec_u64_from_le_bytes, spec_u64_to_le_bytes,
    u64_from_le_bytes, u64_to_le_bytes,
};
use vstd::prelude::*;
use vstd::slice::{slice_subrange, slice_to_vec};
use vstd::utf8::{
    decode_utf8, decode_utf8_encode_utf8, encode_utf8, encode_utf8_decode_utf8,
    encode_utf8_valid_utf8, valid_utf8,
};

verus! {

/// One byte, as it is.
pub open spec fn enc_u8(v: u8) -> Seq<u8> {
    seq![v]
}

/// A flag: one byte, 1 for true and 0 for false.
pub open spec fn enc_bool(v: bool) -> Seq<u8> {
    seq![if v { 1u8 } else { 0u8 }]
}

/// A number: eight bytes, the least significant first.
pub open spec fn enc_u64(v: u64) -> Seq<u8> {
    spec_u64_to_le_bytes(v)
}

/// A signed number: the eight bytes of its two's complement.
pub open spec fn enc_i64(v: i64) -> Seq<u8> {
    enc_u64(v as u64)
}

/// A text: the number of its UTF-8 bytes, then the bytes.
pub open spec fn enc_text(text: Seq<char>) -> Seq<u8> {
    enc_u64(encode_utf8(text).len() as u64) + encode_utf8(text)
}

/// Whether the length of a text's encoding can be written down.
pub open spec fn text_fits(text: Seq<char>) -> bool {
    encode_utf8(text).len() <= u64::MAX
}

/// Reads one byte from the front of `s`.
pub open spec fn parse_u8(s: Seq<u8>) -> Option<(u8, Seq<u8>)> {
    if s.len() >= 1 {
        Some((s[0], s.skip(1)))
    } else {
        None
    }
}

/// Reads a flag from the front of `s`; a byte other than 0 and 1 is none.
pub open spec fn parse_bool(s: Seq<u8>) -> Option<(bool, Seq<u8>)> {
    if s.len() >= 1 && s[0] <= 1 {
        Some((s[0] == 1, s.skip(1)))
    } else {
        None
    }
}

/// Reads a number from the front of `s`.
pub open spec fn parse_u64(s: Seq<u8>) -> Option<(u64, Seq<u8>)> {
    if s.len() >= 8 {
        Some((spec_u64_from_le_bytes(s.take(8)), s.skip(8)))
    } else {
        None
    }
}

/// Reads a signed number from the front of `s`.
pub open spec fn parse_i64(s: Seq<u8>) -> Option<(i64, Seq<u8>)> {
    match parse_u64(s) {
        Some((v, rest)) => Some((v as i64, rest)),
        None => None,
    }
}

/// Reads a text from the front of `s`: its bytes must all be there and be
/// valid UTF-8.
pub open spec fn parse_text(s: Seq<u8>) -> Option<(Seq<char>, Seq<u8>)> {
    match parse_u64(s) {
        Some((n, rest)) => if n <= rest.len() && valid_utf8(rest.take(n as int)) {
            Some((decode_utf8(rest.take(n as int)), rest.skip(n as int)))
        } else {
            None
        },
        None => None,
    }
}

/// Reading back a byte gives the byte, and leaves what followed.
pub proof fn lemma_parse_u8(v: u8, rest: Seq<u8>)
    ensures
        parse_u8(enc_u8(v) + rest) == Some((v, rest)),
{
    assert((enc_u8(v) + rest).skip(1) =~= rest);
}

/// Reading back a flag gives the flag, and leaves what followed.
pub proof fn lemma_parse_bool(v: bool, rest: Seq<u8>)
    ensures
        parse_bool(enc_bool(v) + rest) == Some((v, rest)),
{
    assert((enc_bool(v) + rest).skip(1) =~= rest);
}

/// Reading back a number gives the number, and leaves what followed.
pub proof fn lemma_parse_u64(v: u64, rest: Seq<u8>)
    ensures
        parse_u64(enc_u64(v) + rest) == Some((v, rest)),
        enc_u64(v).len() == 8,
{
    lemma_auto_spec_u64_to_from_le_bytes();
    assert((enc_u64(v) + rest).take(8) =~= enc_u64(v));
    assert((enc_u64(v) + rest).skip(8) =~= rest);
}

/// A signed number is found again behind its two's complement.
pub proof fn lemma_i64_through_u64(v: i64)
    ensures
        (v as u64) as i64 == v,
{
    assert((v as u64) as i64 == v) by (bit_vector);
}

/// Reading back a signed number gives the number, and leaves what followed.
pub proof fn lemma_parse_i64(v: i64, rest: Seq<u8>)
    ensures
        parse_i64(enc_i64(v) + rest) == Some((v, rest)),
{
    lemma_parse_u64(v as u64, rest);
    lemma_i64_through_u64(v);
}

/// Reading back a text gives the text, and leaves what followed.
pub proof fn lemma_parse_text(text: Seq<char>, rest: Seq<u8>)
    requires
        text_fits(text),
    ensures
        parse_text(enc_text(text) + rest) == Some((text, rest)),
{
    let bytes = encode_utf8(text);
    let n = bytes.len() as u64;
    lemma_parse_u64(n, bytes + rest);
    assert(enc_text(text) + rest =~= enc_u64(n) + (bytes + rest));
    assert((bytes + rest).take(n as int) =~= bytes);
    assert((bytes + rest).skip(n as int) =~= rest);
    encode_utf8_valid_utf8(text);
    encode_utf8_decode_utf8(text);
}

/// What was read as a byte is what stood there.
pub proof fn lemma_parsed_u8(s: Seq<u8>)
    requires
        parse_u8(s) is Some,
    ensures
        s == enc_u8(parse_u8(s)->Some_0.0) + parse_u8(s)->Some_0.1,
{
    assert(s =~= enc_u8(s[0]) + s.skip(1));
}

/// What was read as a flag is what stood there.
pub proof fn lemma_parsed_bool(s: Seq<u8>)
    requires
        parse_bool(s) is Some,
    ensures
        s == enc_bool(parse_bool(s)->Some_0.0) + parse_bool(s)->Some_0.1,
{
    assert(s =~= enc_bool(s[0] == 1) + s.skip(1));
}

/// What was read as a number is what stood there.
pub proof fn lemma_parsed_u64(s: Seq<u8>)
    requires
        parse_u64(s) is Some,
    ensures
        s == enc_u64(parse_u64(s)->Some_0.0) + parse_u64(s)->Some_0.1,
        parse_u64(s)->Some_0.1.len() + 8 == s.len(),
{
    lemma_auto_spec_u64_to_from_le_bytes();
    let front = s.take(8);
    assert(spec_u64_to_le_bytes(spec_u64_from_le_bytes(front)) == front);
    assert(s =~= front + s.skip(8));
}

/// A number is found again behind the signed number that it is read as.
pub proof fn lemma_u64_through_i64(v: u64)
    ensures
        (v as i64) as u64 == v,
{
    assert((v as i64) as u64 == v) by (bit_vector);
}

/// What was read as a signed number is what stood there.
pub proof fn lemma_parsed_i64(s: Seq<u8>)
    requires
        parse_i64(s) is Some,
    ensures
        s == enc_i64(parse_i64(s)->Some_0.0) + parse_i64(s)->Some_0.1,
        parse_i64(s)->Some_0.1.len() + 8 == s.len(),
{
    lemma_parsed_u64(s);
    lemma_u64_through_i64(parse_u64(s)->Some_0.0);
}

/// What was read as a text is what stood there.
pub proof fn lemma_parsed_text(s: Seq<u8>)
    requires
        parse_text(s) is Some,
    ensures
        s == enc_text(parse_text(s)->Some_0.0) + parse_text(s)->Some_0.1,
        text_fits(parse_text(s)->Some_0.0),
        parse_text(s)->Some_0.1.len() + 8 <= s.len(),
{
    lemma_parsed_u64(s);
    let (n, after) = parse_u64(s)->Some_0;
    let bytes = after.take(n as int);
    decode_utf8_encode_utf8(bytes);
    assert(after =~= bytes + after.skip(n as int));
    assert(s =~= enc_u64(n) + bytes + after.skip(n as int));
}

/// Appends one byte to `out`.
pub fn put_u8(out: &mut Vec<u8>, v: u8)
    ensures
        final(out)@ == old(out)@ + enc_u8(v),
{
    out.push(v);
    assert(out@ =~= old(out)@ + enc_u8(v));
}

/// Appends a flag to `out`.
pub fn put_bool(out: &mut Vec<u8>, v: bool)
    ensures
        final(out)@ == old(out)@ + enc_bool(v),
{
    out.push(if v { 1u8 } else { 0u8 });
    assert(out@ =~= old(out)@ + enc_bool(v));
}

/// Appends all of `bytes` to `out`.
pub fn put_bytes(out: &mut Vec<u8>, bytes: &[u8])
    ensures
        final(out)@ == old(out)@ + bytes@,
{
    let mut i: usize = 0;
    while i < bytes.len()
        invariant
            i <= bytes.len(),
            out@ == old(out)@ + bytes@.take(i as int),
        decreases bytes.len() - i,
    {
        out.push(bytes[i]);
        assert(bytes@.take(i + 1) =~= bytes@.take(i as int).push(bytes@[i as int]));
        assert(out@ =~= old(out)@ + bytes@.take(i + 1));
        i += 1;
    }
    assert(bytes@.take(i as int) =~= bytes@);
}

/// Appends a number to `out`.
pub fn put_u64(out: &mut Vec<u8>, v: u64)
    ensures
        final(out)@ == old(out)@ + enc_u64(v),
{
    let bytes = u64_to_le_bytes(v);
    put_bytes(out, bytes.as_slice());
}

/// Appends a signed number to `out`.
pub fn put_i64(out: &mut Vec<u8>, v: i64)
    ensures
        final(out)@ == old(out)@ + enc_i64(v),
{
    put_u64(out, v as u64);
}

/// Appends a text to `out`.
pub fn put_text(out: &mut Vec<u8>, text: &str)
    ensures
        final(out)@ == old(out)@ + enc_text(text@),
        text_fits(text@),
{
    let bytes = text.as_bytes();
    put_u64(out, bytes.len() as u64);
    put_bytes(out, bytes);
    assert(out@ =~= old(out)@ + enc_text(text@));
}

/// `String::from_utf8` of std: the text that `bytes` encode, where they are
/// valid UTF-8, and nothing where they are not.
#[verifier::external_body]
fn text_from_utf8(bytes: Vec<u8>) -> (text: Option<String>)
    ensures
        text is Some <==> valid_utf8(bytes@),
        text matches Some(t) ==> t@ == decode_utf8(bytes@),
{
    match String::from_utf8(bytes) {
        Ok(text) => Some(text),
        Err(_) => None,
    }
}

/// A place in a run of bytes, from which the rest is still to be read.
pub struct Reader<'a> {
    bytes: &'a [u8],
    pos: usize,
}

impl<'a> Reader<'a> {
    /// The place lies within the bytes.
    pub closed spec fn wf(&self) -> bool {
        self.pos <= self.bytes@.len()
    }

    /// What is still to be read.
    pub closed spec fn rest(&self) -> Seq<u8> {
        self.bytes@.skip(self.pos as int)
    }

    /// Starts at the front of `bytes`.
    pub fn new(bytes: &'a [u8]) -> (reader: Reader<'a>)
        ensures
            reader.wf(),
            reader.rest() == bytes@,
    {
        assert(bytes@.skip(0) =~= bytes@);
        Reader { bytes, pos: 0 }
    }

    /// How many bytes are still to be read.
    pub fn remaining(&self) -> (n: usize)
        requires
            self.wf(),
        ensures
            n == self.rest().len(),
    {
        self.bytes.len() - self.pos
    }

    /// Whether everything has been read.
    pub fn at_end(&self) -> (end: bool)
        requires
            self.wf(),
        ensures
            end == (self.rest().len() == 0),
    {
        self.pos == self.bytes.len()
    }

    /// Reads one byte, or nothing where none is left.
    pub fn read_u8(&mut self) -> (read: Option<u8>)
        requires
            old(self).wf(),
        ensures
            final(self).wf(),
            read matches Some(v) ==> parse_u8(old(self).rest()) == Some((v, final(self).rest())),
            read is None ==> parse_u8(old(self).rest()) is None && *final(self) == *old(self),
    {
        if self.pos < self.bytes.len() {
            let v = self.bytes[self.pos];
            assert(self.bytes@.skip(self.pos as int).skip(1) =~= self.bytes@.skip(self.pos + 1));
            self.pos = self.pos + 1;
            Some(v)
        } else {
            None
        }
    }

    /// Reads a flag, or nothing where the next byte is not one.
    pub fn read_bool(&mut self) -> (read: Option<bool>)
        requires
            old(self).wf(),
        ensures
            final(self).wf(),
            read matches Some(v) ==> parse_bool(old(self).rest()) == Some((v, final(self).rest())),
            read is None ==> parse_bool(old(self).rest()) is None && *final(self) == *old(self),
    {
        if self.pos < self.bytes.len() && self.bytes[self.pos] <= 1 {
            let v = self.bytes[self.pos] == 1;
            assert(self.bytes@.skip(self.pos as int).skip(1) =~= self.bytes@.skip(self.pos + 1));
            self.pos = self.pos + 1;
            Some(v)
        } else {
            None
        }
    }

    /// Reads a number, or nothing where fewer than eight bytes are left.
    pub fn read_u64(&mut self) -> (read: Option<u64>)
        requires
            old(self).wf(),
        ensures
            final(self).wf(),
            read matches Some(v) ==> parse_u64(old(self).rest()) == Some((v, final(self).rest())),
            read is None ==> parse_u64(old(self).rest()) is None && *final(self) == *old(self),
    {
        if self.bytes.len() - self.pos >= 8 {
            let part = slice_subrange(self.bytes, self.pos, self.pos + 8);
            let v = u64_from_le_bytes(part);
            assert(self.bytes@.skip(self.pos as int).take(8) =~= part@);
            assert(self.bytes@.skip(self.pos as int).skip(8) =~= self.bytes@.skip(self.pos + 8));
            self.pos = self.pos + 8;
            Some(v)
        } else {
            None
        }
    }

    /// Reads a signed number, or nothing where fewer than eight bytes are left.
    pub fn read_i64(&mut self) -> (read: Option<i64>)
        requires
            old(self).wf(),
        ensures
            final(self).wf(),
            read matches Some(v) ==> parse_i64(old(self).rest()) == Some((v, final(self).rest())),
            read is None ==> parse_i64(old(self).rest()) is None && *final(self) == *old(self),
    {
        match self.read_u64() {
            Some(v) => Some(v as i64),
            None => None,
        }
    }

    /// Reads a text, or nothing where its bytes are not all there or are not
    /// valid UTF-8.
    pub fn read_text(&mut self) -> (read: Option<String>)
        requires
            old(self).wf(),
        ensures
            final(self).wf(),
            read matches Some(text) ==> parse_text(old(self).rest()) == Some(
                (text@, final(self).rest()),
            ),
            read is None ==> parse_text(old(self).rest()) is None,
            final(self).rest().len() <= old(self).rest().len(),
    {
        let n = match self.read_u64() {
            Some(n) => n,
            None => {
                return None;
            },
        };
        if n > (self.bytes.len() - self.pos) as u64 {
            return None;
        }
        let len = n as usize;
        let part = slice_subrange(self.bytes, self.pos, self.pos + len);
        assert(self.bytes@.skip(self.pos as int).take(len as int) =~= part@);
        assert(self.bytes@.skip(self.pos as int).skip(len as int) =~= self.bytes@.skip(
            self.pos + len,
        ));
        let text = text_from_utf8(slice_to_vec(part));
        if text.is_some() {
            self.pos = self.pos + len;
        }
        text
    }
}

} // verus!
