//! Function signatures recorded into a custom section of Wasm modules.
//!
//! Each catalogued function is serialized as: its kind (a `u32` tag that is
//! `u32::MAX` for exports, or the byte length of the import module name
//! followed by that name), then the length-prefixed function name, then the
//! function arity followed by a bit set marking reference positions. All
//! integers are little-endian; names are UTF-8.

use vstd::prelude::*;
use vstd::slice::{slice_index_get, slice_subrange, slice_to_vec};
use vstd::string::StrSliceExecFns;
use vstd::utf8::{decode_utf8, encode_utf8, valid_utf8};

use crate::error::{ReadError, ReadErrorKind};

verus! {

broadcast use vstd::utf8::encode_utf8_valid_utf8, vstd::utf8::encode_utf8_decode_utf8;

/// Name of the reserved custom section holding the catalog. The byte string
/// is a shared constant between the guest toolchain and this processor.
pub const CUSTOM_SECTION_NAME: &'static str = "__externrefs";

/// Outcome of parsing a value out of a byte buffer at a given position:
/// the value together with the position just past it, or a failure.
pub enum Parsed<T> {
    /// The value was parsed; `next` is the first position after it.
    Done { value: T, next: int },
    /// The buffer ended before the value was complete.
    Eof,
    /// A name in the buffer is not valid UTF-8.
    BadUtf8,
}

/// The four little-endian bytes of `v`.
pub open spec fn u32_le(v: u32) -> Seq<u8> {
    seq![
        (v & 0xff) as u8,
        ((v >> 8) & 0xff) as u8,
        ((v >> 16) & 0xff) as u8,
        ((v >> 24) & 0xff) as u8,
    ]
}

/// The `u32` denoted by four little-endian bytes.
pub open spec fn le_val(b0: u8, b1: u8, b2: u8, b3: u8) -> u32 {
    (b0 as u32) | ((b1 as u32) << 8) | ((b2 as u32) << 16) | ((b3 as u32) << 24)
}

/// `s` preceded by its length as a little-endian `u32`.
pub open spec fn length_prefixed(s: Seq<u8>) -> Seq<u8> {
    u32_le(s.len() as u32) + s
}

/// Number of bytes that hold a bit set over `bit_len` positions.
pub open spec fn byte_len_of(bit_len: int) -> int {
    (bit_len + 7) / 8
}

pub open spec fn parse_u32(b: Seq<u8>, pos: int) -> Parsed<u32> {
    if 0 <= pos && pos + 4 <= b.len() {
        Parsed::Done { value: le_val(b[pos], b[pos + 1], b[pos + 2], b[pos + 3]), next: pos + 4 }
    } else {
        Parsed::Eof
    }
}

pub open spec fn parse_str(b: Seq<u8>, pos: int) -> Parsed<Seq<char>> {
    match parse_u32(b, pos) {
        Parsed::Done { value: len, next } => {
            if next + len <= b.len() {
                let bytes = b.subrange(next, next + len);
                if valid_utf8(bytes) {
                    Parsed::Done { value: decode_utf8(bytes), next: next + len }
                } else {
                    Parsed::BadUtf8
                }
            } else {
                Parsed::Eof
            }
        },
        _ => Parsed::Eof,
    }
}

proof fn lemma_le_round_trip(v: u32)
    ensures
        le_val((v & 0xff) as u8, ((v >> 8) & 0xff) as u8, ((v >> 16) & 0xff) as u8, ((v >> 24) & 0xff) as u8) == v,
{
    assert(((v & 0xff) as u8 as u32) | (((v >> 8) & 0xff) as u8 as u32) << 8 | (((v >> 16) & 0xff) as u8 as u32) << 16 | (((v >> 24) & 0xff) as u8 as u32) << 24 == v) by (bit_vector);
}

/// Parsing four little-endian bytes recovers the encoded value.
pub proof fn lemma_parse_u32_at(b: Seq<u8>, pos: int, v: u32)
    requires
        0 <= pos,
        pos + 4 <= b.len(),
        b.subrange(pos, pos + 4) == u32_le(v),
    ensures
        parse_u32(b, pos) == (Parsed::Done { value: v, next: pos + 4 }),
{
    assert(b[pos] == u32_le(v)[0]);
    assert(b[pos + 1] == u32_le(v)[1]);
    assert(b[pos + 2] == u32_le(v)[2]);
    assert(b[pos + 3] == u32_le(v)[3]);
    lemma_le_round_trip(v);
}

/// Builder for [`BitSlice`]s.
#[derive(Debug)]
pub struct BitSliceBuilder {
    /// The packed bits collected so far; see [`BitSlice::bytes`].
    pub bytes: Vec<u8>,
    /// The number of bits of the slice under construction.
    pub bit_len: usize,
}

/// Slice of bits, stored least-significant-bit first within each byte.
#[derive(Debug, Clone)]
pub struct BitSlice {
    /// The packed bits; bit `i` is bit `i % 8` of byte `i / 8`.
    pub bytes: Vec<u8>,
    /// The number of bits in this slice.
    pub bit_len: usize,
}

impl BitSlice {
    /// The byte storage is exactly large enough for `bit_len` bits, and the
    /// bit length fits the wire format's `u32` length field.
    pub open spec fn wf(&self) -> bool {
        &&& self.bytes@.len() == byte_len_of(self.bit_len as int)
        &&& self.bit_len <= u32::MAX
    }

    /// Whether bit `idx` of this slice is set; `false` beyond `bit_len`.
    pub open spec fn spec_is_set(&self, idx: int) -> bool {
        0 <= idx < self.bit_len && (self.bytes@[idx / 8] >> ((idx % 8) as u8)) & 1 == 1
    }

    /// Returns a builder for a slice of `bit_len` bits, all initially unset.
    pub fn builder(bit_len: usize) -> (b: BitSliceBuilder)
        requires
            bit_len <= u32::MAX,
        ensures
            b.wf(),
            b.bit_len == bit_len,
            forall|i: int| !b.spec_is_set(i),
    {
        let byte_len = bit_len / 8 + if bit_len % 8 == 0 { 0 } else { 1 };
        assert(byte_len == byte_len_of(bit_len as int));
        let bytes = vec![0u8; byte_len];
        let b = BitSliceBuilder { bytes, bit_len };
        assert forall|i: int| !b.spec_is_set(i) by {
            if 0 <= i < bit_len {
                assert(b.bytes@[i / 8] == 0u8);
                let s8: u8 = (i % 8) as u8;
                assert((0u8 >> s8) & 1 == 0) by (bit_vector);
            }
        }
        b
    }

    /// Returns the number of bits in this slice.
    pub fn bit_len(&self) -> (n: usize)
        ensures
            n == self.bit_len,
    {
        self.bit_len
    }

    /// Whether bit `idx` is set. Positions at or past `bit_len` read as unset.
    pub fn is_set(&self, idx: usize) -> (r: bool)
        requires
            self.wf(),
        ensures
            r == self.spec_is_set(idx as int),
    {
        if idx >= self.bit_len {
            return false;
        }
        let shift: u8 = (idx % 8) as u8;
        (self.bytes[idx / 8] >> shift) & 1 == 1
    }

    /// The indices of the set bits of `b` below `n`, in ascending order.
    pub open spec fn set_indices_upto(b: BitSlice, n: int) -> Seq<usize>
        decreases n,
    {
        if n <= 0 {
            Seq::empty()
        } else {
            let prefix = BitSlice::set_indices_upto(b, n - 1);
            if b.spec_is_set(n - 1) {
                prefix.push((n - 1) as usize)
            } else {
                prefix
            }
        }
    }

    /// Returns the indices of set bits in this slice, in ascending order.
    pub fn set_indices(&self) -> (r: Vec<usize>)
        requires
            self.wf(),
        ensures
            r@ == BitSlice::set_indices_upto(*self, self.bit_len as int),
    {
        let mut r: Vec<usize> = Vec::new();
        let mut idx: usize = 0;
        while idx < self.bit_len
            invariant
                idx <= self.bit_len,
                self.wf(),
                r@ == BitSlice::set_indices_upto(*self, idx as int),
            decreases self.bit_len - idx,
        {
            if self.is_set(idx) {
                r.push(idx);
            }
            idx = idx + 1;
        }
        r
    }
}

impl BitSliceBuilder {
    /// See [`BitSlice::wf`].
    pub open spec fn wf(&self) -> bool {
        &&& self.bytes@.len() == byte_len_of(self.bit_len as int)
        &&& self.bit_len <= u32::MAX
    }

    /// See [`BitSlice::spec_is_set`].
    pub open spec fn spec_is_set(&self, idx: int) -> bool {
        0 <= idx < self.bit_len && (self.bytes@[idx / 8] >> ((idx % 8) as u8)) & 1 == 1
    }

    /// Returns the builder with bit `bit_idx` additionally set.
    pub fn with_set_bit(self, bit_idx: usize) -> (r: BitSliceBuilder)
        requires
            self.wf(),
            bit_idx < self.bit_len,
        ensures
            r.wf(),
            r.bit_len == self.bit_len,
            forall|i: int| r.spec_is_set(i) == (i == bit_idx || self.spec_is_set(i)),
    {
        let mut bytes = self.bytes;
        let byte_idx = bit_idx / 8;
        let shift: u8 = (bit_idx % 8) as u8;
        let updated = bytes[byte_idx] | (1u8 << shift);
        bytes[byte_idx] = updated;
        let r = BitSliceBuilder { bytes, bit_len: self.bit_len };
        proof {
            let old_byte = self.bytes@[byte_idx as int];
            assert forall|i: int| r.spec_is_set(i) == (i == bit_idx || self.spec_is_set(i)) by {
                if 0 <= i < r.bit_len {
                    let t: u8 = (i % 8) as u8;
                    if i / 8 == byte_idx {
                        if i == bit_idx {
                            assert(t == shift);
                            assert(shift < 8 ==> ((old_byte | (1u8 << shift)) >> shift) & 1 == 1) by (bit_vector);
                        } else {
                            assert(t != shift);
                            assert(shift < 8 && t < 8 && t != shift ==> ((old_byte | (1u8 << shift)) >> t) & 1 == (old_byte >> t) & 1) by (bit_vector);
                        }
                    } else {
                        assert(r.bytes@[i / 8] == self.bytes@[i / 8]);
                    }
                }
            }
        }
        r
    }

    /// Finishes the builder, producing the bit slice.
    pub fn build(self) -> (r: BitSlice)
        ensures
            r.bytes == self.bytes,
            r.bit_len == self.bit_len,
    {
        BitSlice { bytes: self.bytes, bit_len: self.bit_len }
    }
}

/// Relies on `core::str::from_utf8`: it returns `Ok` exactly on valid UTF-8
/// input, and the resulting string slice views the input bytes.
#[verifier::external_body]
fn bytes_to_string(bytes: &[u8]) -> (r: Option<String>)
    ensures
        r is Some <==> valid_utf8(bytes@),
        r matches Some(s) ==> s@ == decode_utf8(bytes@),
{
    core::str::from_utf8(bytes).ok().map(str::to_owned)
}

/// Appends the little-endian encoding of `v` to `buffer`.
fn push_u32_le(buffer: &mut Vec<u8>, v: u32)
    ensures
        final(buffer)@ == old(buffer)@ + u32_le(v),
{
    buffer.push((v & 0xff) as u8);
    buffer.push(((v >> 8) & 0xff) as u8);
    buffer.push(((v >> 16) & 0xff) as u8);
    buffer.push(((v >> 24) & 0xff) as u8);
    assert(buffer@ =~= old(buffer)@ + u32_le(v));
}

/// Reads a little-endian `u32` at `pos`, reporting `context` on end of input.
pub fn read_u32(buffer: &[u8], pos: usize, context: &str) -> (r: Result<(u32, usize), ReadError>)
    ensures
        match r {
            Ok((v, next)) => parse_u32(buffer@, pos as int) == (Parsed::Done { value: v, next: next as int }),
            Err(e) => parse_u32(buffer@, pos as int) is Eof && e.kind == ReadErrorKind::UnexpectedEof && e.context@ == context@,
        },
{
    if buffer.len() < 4 || pos > buffer.len() - 4 {
        Err(ReadErrorKind::UnexpectedEof.with_context(context))
    } else {
        let b0 = *slice_index_get(buffer, pos);
        let b1 = *slice_index_get(buffer, pos + 1);
        let b2 = *slice_index_get(buffer, pos + 2);
        let b3 = *slice_index_get(buffer, pos + 3);
        let v = (b0 as u32) | ((b1 as u32) << 8u32) | ((b2 as u32) << 16u32) | ((b3 as u32) << 24u32);
        Ok((v, pos + 4))
    }
}

/// Reads a length-prefixed UTF-8 string at `pos`.
pub fn read_str(buffer: &[u8], pos: usize, context: &str) -> (r: Result<(String, usize), ReadError>)
    ensures
        match r {
            Ok((s, next)) => parse_str(buffer@, pos as int) == (Parsed::Done { value: s@, next: next as int }),
            Err(e) => {
                &&& e.context@ == context@
                &&& parse_str(buffer@, pos as int) is Eof ==> e.kind == ReadErrorKind::UnexpectedEof
                &&& parse_str(buffer@, pos as int) is BadUtf8 ==> e.kind == ReadErrorKind::Utf8
                &&& !(parse_str(buffer@, pos as int) is Done)
            },
        },
{
    let (len, next) = match read_u32(buffer, pos, context) {
        Ok(v) => v,
        Err(e) => {
            return Err(e);
        },
    };
    let len = len as usize;
    if len > buffer.len() || next > buffer.len() - len {
        Err(ReadErrorKind::UnexpectedEof.with_context(context))
    } else {
        let bytes = slice_subrange(buffer, next, next + len);
        match bytes_to_string(bytes) {
            Some(s) => Ok((s, next + len)),
            None => Err(ReadErrorKind::Utf8.with_context(context)),
        }
    }
}

proof fn lemma_le_max(b0: u8, b1: u8, b2: u8, b3: u8)
    ensures
        le_val(b0, b1, b2, b3) == u32::MAX ==> b0 == 0xff && b1 == 0xff && b2 == 0xff && b3 == 0xff,
{
    assert(((b0 as u32) | ((b1 as u32) << 8) | ((b2 as u32) << 16) | ((b3 as u32) << 24) == 0xffff_ffffu32) ==> (b0 == 0xff && b1 == 0xff && b2 == 0xff && b3 == 0xff)) by (bit_vector);
}

/// Kind of a catalogued function.
#[derive(Debug)]
pub enum FunctionKind {
    /// Function exported from a Wasm module.
    Export,
    /// Function imported into a Wasm module from the module with the enclosed name.
    Import(String),
}

/// Mathematical view of a [`FunctionKind`].
pub enum FunctionKindV {
    /// See [`FunctionKind::Export`].
    Export,
    /// See [`FunctionKind::Import`]; holds the import module name.
    Import(Seq<char>),
}

impl View for FunctionKind {
    type V = FunctionKindV;

    open spec fn view(&self) -> FunctionKindV {
        match self {
            FunctionKind::Export => FunctionKindV::Export,
            FunctionKind::Import(m) => FunctionKindV::Import(m@),
        }
    }
}

/// An export is encoded as the tag `u32::MAX`; an import as the length-prefixed
/// module name, whose length is therefore below `u32::MAX`.
pub open spec fn kind_wf(k: FunctionKindV) -> bool {
    match k {
        FunctionKindV::Export => true,
        FunctionKindV::Import(m) => encode_utf8(m).len() < u32::MAX,
    }
}

/// The encoding of a function kind.
pub open spec fn kind_bytes(k: FunctionKindV) -> Seq<u8> {
    match k {
        FunctionKindV::Export => u32_le(u32::MAX),
        FunctionKindV::Import(m) => length_prefixed(encode_utf8(m)),
    }
}

pub open spec fn parse_kind(b: Seq<u8>, pos: int) -> Parsed<FunctionKindV> {
    if 0 <= pos && pos + 4 <= b.len() && b[pos] == 0xffu8 && b[pos + 1] == 0xffu8 && b[pos + 2]
        == 0xffu8 && b[pos + 3] == 0xffu8 {
        Parsed::Done { value: FunctionKindV::Export, next: pos + 4 }
    } else {
        match parse_str(b, pos) {
            Parsed::Done { value, next } => Parsed::Done { value: FunctionKindV::Import(value), next },
            Parsed::Eof => Parsed::Eof,
            Parsed::BadUtf8 => Parsed::BadUtf8,
        }
    }
}

impl FunctionKind {
    /// Length of this kind's encoding in the custom section.
    pub fn len_in_custom_section(&self) -> (r: usize)
        requires
            kind_bytes(self@).len() <= usize::MAX,
        ensures
            r == kind_bytes(self@).len(),
    {
        match self {
            FunctionKind::Export => 4,
            FunctionKind::Import(module_name) => 4 + module_name.as_str().len(),
        }
    }

    /// Appends this kind's encoding to `buffer`.
    pub fn write_to_custom_section(&self, buffer: &mut Vec<u8>)
        requires
            kind_wf(self@),
        ensures
            final(buffer)@ == old(buffer)@ + kind_bytes(self@),
    {
        match self {
            FunctionKind::Export => {
                push_u32_le(buffer, u32::MAX);
            },
            FunctionKind::Import(module_name) => {
                let mut name_bytes = module_name.as_str().as_bytes_vec();
                push_u32_le(buffer, name_bytes.len() as u32);
                buffer.append(&mut name_bytes);
                assert(buffer@ =~= old(buffer)@ + kind_bytes(self@));
            },
        }
    }

    /// Reads a function kind at `pos`.
    pub fn read_from_section(buffer: &[u8], pos: usize) -> (r: Result<(FunctionKind, usize), ReadError>)
        ensures
            match r {
                Ok((k, next)) => parse_kind(buffer@, pos as int) == (Parsed::Done { value: k@, next: next as int })
                    && kind_wf(k@),
                Err(e) => {
                    &&& parse_kind(buffer@, pos as int) is Eof ==> e.kind == ReadErrorKind::UnexpectedEof
                    &&& parse_kind(buffer@, pos as int) is BadUtf8 ==> e.kind == ReadErrorKind::Utf8
                    &&& !(parse_kind(buffer@, pos as int) is Done)
                },
            },
    {
        if buffer.len() >= 4 && pos <= buffer.len() - 4 && *slice_index_get(buffer, pos) == 0xffu8
            && *slice_index_get(buffer, pos + 1) == 0xffu8
            && *slice_index_get(buffer, pos + 2) == 0xffu8
            && *slice_index_get(buffer, pos + 3) == 0xffu8 {
            Ok((FunctionKind::Export, pos + 4))
        } else {
            match read_str(buffer, pos, "module name") {
                Ok((module_name, next)) => {
                    proof {
                        let b = buffer@;
                        let p = pos as int;
                        let v = le_val(b[p], b[p + 1], b[p + 2], b[p + 3]);
                        let bytes = b.subrange(p + 4, p + 4 + v);
                        assert(valid_utf8(bytes) && module_name@ == decode_utf8(bytes));
                        vstd::utf8::decode_utf8_encode_utf8(bytes);
                        assert(encode_utf8(module_name@).len() == v);
                        lemma_le_max(b[p], b[p + 1], b[p + 2], b[p + 3]);
                        assert(v < u32::MAX);
                    }
                    Ok((FunctionKind::Import(module_name), next))
                },
                Err(e) => Err(e),
            }
        }
    }
}

/// Parsing a length-prefixed UTF-8 encoding recovers the encoded characters.
pub proof fn lemma_parse_str_at(b: Seq<u8>, pos: int, s: Seq<char>)
    requires
        0 <= pos,
        pos + length_prefixed(encode_utf8(s)).len() <= b.len(),
        b.subrange(pos, pos + length_prefixed(encode_utf8(s)).len() as int) == length_prefixed(encode_utf8(s)),
        encode_utf8(s).len() <= u32::MAX,
    ensures
        parse_str(b, pos) == (Parsed::Done { value: s, next: pos + 4 + encode_utf8(s).len() }),
{
    let enc = encode_utf8(s);
    let lp = length_prefixed(enc);
    assert(b.subrange(pos, pos + 4) =~= lp.subrange(0, 4));
    assert(lp.subrange(0, 4) =~= u32_le(enc.len() as u32));
    lemma_parse_u32_at(b, pos, enc.len() as u32);
    assert(b.subrange(pos + 4, pos + 4 + enc.len() as int) =~= lp.subrange(4, lp.len() as int));
    assert(lp.subrange(4, lp.len() as int) =~= enc);
    assert(valid_utf8(enc));
    assert(decode_utf8(enc) == s);
}

/// Parsing an encoded function kind recovers the kind.
pub proof fn lemma_parse_kind_at(b: Seq<u8>, pos: int, k: FunctionKindV)
    requires
        kind_wf(k),
        0 <= pos,
        pos + kind_bytes(k).len() <= b.len(),
        b.subrange(pos, pos + kind_bytes(k).len() as int) == kind_bytes(k),
    ensures
        parse_kind(b, pos) == (Parsed::Done { value: k, next: pos + kind_bytes(k).len() }),
{
    let kb = kind_bytes(k);
    assert forall|i: int| 0 <= i < kb.len() implies b[pos + i] == kb[i] by {
        assert(b.subrange(pos, pos + kb.len() as int)[i] == b[pos + i]);
    }
    match k {
        FunctionKindV::Export => {
            assert(kb =~= u32_le(u32::MAX));
            assert(b[pos] == 0xffu8 && b[pos + 1] == 0xffu8 && b[pos + 2] == 0xffu8 && b[pos + 3] == 0xffu8)
                by {
                assert((0xffff_ffffu32 & 0xff) as u8 == 0xffu8 && ((0xffff_ffffu32 >> 8) & 0xff) as u8 == 0xffu8
                    && ((0xffff_ffffu32 >> 16) & 0xff) as u8 == 0xffu8 && ((0xffff_ffffu32 >> 24) & 0xff) as u8 == 0xffu8)
                    by (bit_vector);
            }
        },
        FunctionKindV::Import(m) => {
            let enc = encode_utf8(m);
            assert(kb =~= length_prefixed(enc));
            // The first four bytes encode a length below `u32::MAX`, so they are
            // not all `0xff` and the export branch is not taken.
            assert(b.subrange(pos, pos + 4) =~= u32_le(enc.len() as u32));
            lemma_parse_u32_at(b, pos, enc.len() as u32);
            if b[pos] == 0xffu8 && b[pos + 1] == 0xffu8 && b[pos + 2] == 0xffu8 && b[pos + 3] == 0xffu8 {
                lemma_le_max(b[pos], b[pos + 1], b[pos + 2], b[pos + 3]);
                let b0 = b[pos];
                let b1 = b[pos + 1];
                let b2 = b[pos + 2];
                let b3 = b[pos + 3];
                assert(b0 == 0xffu8 && b1 == 0xffu8 && b2 == 0xffu8 && b3 == 0xffu8
                    ==> ((b0 as u32) | ((b1 as u32) << 8) | ((b2 as u32) << 16) | ((b3 as u32) << 24)) == 0xffff_ffffu32)
                    by (bit_vector);
                assert(false);
            }
            lemma_parse_str_at(b, pos, m);
        },
    }
}

/// Information about a function with reference-typed arguments or results.
///
/// This information is written to a custom section of a Wasm module and is
/// then used during module post-processing.
#[derive(Debug)]
pub struct Function {
    /// Kind of this function.
    pub kind: FunctionKind,
    /// Name of this function.
    pub name: String,
    /// Bit slice marking reference-typed argument / result positions.
    pub externrefs: BitSlice,
}

/// Mathematical view of a [`Function`] catalog entry.
pub struct FunctionV {
    /// See [`Function::kind`].
    pub kind: FunctionKindV,
    /// See [`Function::name`].
    pub name: Seq<char>,
    /// The packed bytes of the reference bit set.
    pub ref_bytes: Seq<u8>,
    /// The number of positions the bit set covers (the function's arity).
    pub bit_len: int,
}

impl View for Function {
    type V = FunctionV;

    open spec fn view(&self) -> FunctionV {
        FunctionV {
            kind: self.kind@,
            name: self.name@,
            ref_bytes: self.externrefs.bytes@,
            bit_len: self.externrefs.bit_len as int,
        }
    }
}

/// Well-formedness of a catalog entry with respect to the wire format.
pub open spec fn function_wf(f: FunctionV) -> bool {
    &&& kind_wf(f.kind)
    &&& encode_utf8(f.name).len() <= u32::MAX
    &&& f.ref_bytes.len() == byte_len_of(f.bit_len)
    &&& 0 <= f.bit_len <= u32::MAX
}

/// The encoding of one catalog entry: kind, then length-prefixed name, then
/// arity and packed reference bits.
pub open spec fn function_bytes(f: FunctionV) -> Seq<u8> {
    kind_bytes(f.kind) + length_prefixed(encode_utf8(f.name)) + u32_le(f.bit_len as u32) + f.ref_bytes
}

pub open spec fn parse_bits(b: Seq<u8>, pos: int) -> Parsed<(Seq<u8>, int)> {
    match parse_u32(b, pos) {
        Parsed::Done { value: bit_len, next } => {
            let byte_len = byte_len_of(bit_len as int);
            if next + byte_len <= b.len() {
                Parsed::Done { value: (b.subrange(next, next + byte_len), bit_len as int), next: next + byte_len }
            } else {
                Parsed::Eof
            }
        },
        _ => Parsed::Eof,
    }
}

pub open spec fn parse_function(b: Seq<u8>, pos: int) -> Parsed<FunctionV> {
    match parse_kind(b, pos) {
        Parsed::Done { value: kind, next } => match parse_str(b, next) {
            Parsed::Done { value: name, next } => match parse_bits(b, next) {
                Parsed::Done { value: bits, next } => Parsed::Done {
                    value: FunctionV { kind, name, ref_bytes: bits.0, bit_len: bits.1 },
                    next,
                },
                Parsed::Eof => Parsed::Eof,
                Parsed::BadUtf8 => Parsed::BadUtf8,
            },
            Parsed::Eof => Parsed::Eof,
            Parsed::BadUtf8 => Parsed::BadUtf8,
        },
        Parsed::Eof => Parsed::Eof,
        Parsed::BadUtf8 => Parsed::BadUtf8,
    }
}

impl BitSlice {
    /// Reads an arity-prefixed bit set at `pos`.
    pub fn read_from_section(buffer: &[u8], pos: usize, context: &str) -> (r: Result<(BitSlice, usize), ReadError>)
        ensures
            match r {
                Ok((bits, next)) => {
                    &&& parse_bits(buffer@, pos as int) == (Parsed::Done {
                        value: (bits.bytes@, bits.bit_len as int),
                        next: next as int,
                    })
                    &&& bits.wf()
                },
                Err(e) => {
                    &&& e.kind == ReadErrorKind::UnexpectedEof
                    &&& e.context@ == context@
                    &&& !(parse_bits(buffer@, pos as int) is Done)
                },
            },
    {
        let (bit_len32, next) = match read_u32(buffer, pos, context) {
            Ok(v) => v,
            Err(e) => {
                return Err(e);
            },
        };
        let bit_len = bit_len32 as usize;
        let byte_len = bit_len / 8 + if bit_len % 8 == 0 { 0 } else { 1 };
        assert(byte_len == byte_len_of(bit_len as int));
        if byte_len > buffer.len() || next > buffer.len() - byte_len {
            Err(ReadErrorKind::UnexpectedEof.with_context(context))
        } else {
            let bytes = slice_to_vec(slice_subrange(buffer, next, next + byte_len));
            Ok((BitSlice { bytes, bit_len }, next + byte_len))
        }
    }
}

impl Function {
    /// Length of this entry's encoding in the custom section.
    pub fn custom_section_len(&self) -> (r: usize)
        requires
            function_bytes(self@).len() <= usize::MAX,
        ensures
            r == function_bytes(self@).len(),
    {
        self.kind.len_in_custom_section() + 4 + self.name.as_str().len() + 4 + self.externrefs.bytes.len()
    }

    /// Encodes this entry for the custom section.
    pub fn custom_section(&self) -> (r: Vec<u8>)
        requires
            function_wf(self@),
        ensures
            r@ == function_bytes(self@),
    {
        let mut buffer: Vec<u8> = Vec::new();
        self.kind.write_to_custom_section(&mut buffer);
        let mut name_bytes = self.name.as_str().as_bytes_vec();
        push_u32_le(&mut buffer, name_bytes.len() as u32);
        buffer.append(&mut name_bytes);
        push_u32_le(&mut buffer, self.externrefs.bit_len as u32);
        let mut bits = slice_to_vec(self.externrefs.bytes.as_slice());
        buffer.append(&mut bits);
        assert(buffer@ =~= function_bytes(self@));
        buffer
    }

    /// Reads one catalog entry at `pos`.
    ///
    /// Returns an error if the custom section is malformed: truncated, or
    /// holding a name that is not valid UTF-8.
    pub fn read_from_section(buffer: &[u8], pos: usize) -> (r: Result<(Function, usize), ReadError>)
        ensures
            match r {
                Ok((f, next)) => {
                    &&& parse_function(buffer@, pos as int) == (Parsed::Done { value: f@, next: next as int })
                    &&& function_wf(f@)
                    &&& f.externrefs.wf()
                },
                Err(e) => {
                    &&& parse_function(buffer@, pos as int) is Eof ==> e.kind == ReadErrorKind::UnexpectedEof
                    &&& parse_function(buffer@, pos as int) is BadUtf8 ==> e.kind == ReadErrorKind::Utf8
                    &&& !(parse_function(buffer@, pos as int) is Done)
                },
            },
    {
        let (kind, next) = match FunctionKind::read_from_section(buffer, pos) {
            Ok(v) => v,
            Err(e) => {
                return Err(e);
            },
        };
        let (name, next) = match read_str(buffer, next, "function name") {
            Ok(v) => v,
            Err(e) => {
                return Err(e);
            },
        };
        let (externrefs, next) = match BitSlice::read_from_section(buffer, next, "externref bit slice") {
            Ok(v) => v,
            Err(e) => {
                return Err(e);
            },
        };
        proof {
            let b = buffer@;
            let n1 = parse_kind(b, pos as int)->Done_next;
            let v = parse_u32(b, n1)->Done_value;
            let bytes_of_name = b.subrange(n1 + 4, n1 + 4 + v);
            assert(valid_utf8(bytes_of_name) && name@ == decode_utf8(bytes_of_name));
            vstd::utf8::decode_utf8_encode_utf8(bytes_of_name);
        }
        Ok((Function { kind, name, externrefs }, next))
    }
}

/// Parsing the encoding of a well-formed entry recovers that entry.
pub proof fn lemma_function_round_trip_at(b: Seq<u8>, pos: int, f: FunctionV)
    requires
        function_wf(f),
        0 <= pos,
        pos + function_bytes(f).len() <= b.len(),
        b.subrange(pos, pos + function_bytes(f).len() as int) == function_bytes(f),
    ensures
        parse_function(b, pos) == (Parsed::Done { value: f, next: pos + function_bytes(f).len() }),
{
    let fb = function_bytes(f);
    let kb = kind_bytes(f.kind);
    let nb = length_prefixed(encode_utf8(f.name));
    let ab = u32_le(f.bit_len as u32);
    assert forall|i: int| 0 <= i < fb.len() implies b[pos + i] == fb[i] by {
        assert(b.subrange(pos, pos + fb.len() as int)[i] == b[pos + i]);
    }
    let p1 = pos + kb.len();
    let p2 = p1 + nb.len();
    let p3 = p2 + 4;
    let p4 = p3 + f.ref_bytes.len();
    let s12 = kb + nb;
    let s123 = s12 + ab;
    assert(fb == s123 + f.ref_bytes);
    assert forall|j: int| 0 <= j < kb.len() implies b.subrange(pos, pos + kb.len() as int)[j] == kb[j] by {
        assert(b[pos + j] == fb[j]);
        assert(fb[j] == s123[j] && s123[j] == s12[j] && s12[j] == kb[j]);
    }
    assert(b.subrange(pos, pos + kb.len() as int) =~= kb);
    lemma_parse_kind_at(b, pos, f.kind);
    assert forall|j: int| 0 <= j < nb.len() implies b.subrange(p1, p1 + nb.len() as int)[j] == nb[j] by {
        let i = kb.len() + j;
        assert(b[pos + i] == fb[i]);
        assert(fb[i] == s123[i] && s123[i] == s12[i] && s12[i] == nb[j]);
    }
    assert(b.subrange(p1, p1 + nb.len() as int) =~= nb);
    lemma_parse_str_at(b, p1, f.name);
    assert forall|j: int| 0 <= j < 4 implies b.subrange(p2, p2 + 4)[j] == ab[j] by {
        let i = kb.len() + nb.len() + j;
        assert(b[pos + i] == fb[i]);
        assert(fb[i] == s123[i] && s123[i] == ab[j]);
    }
    assert(b.subrange(p2, p2 + 4) =~= ab);
    lemma_parse_u32_at(b, p2, f.bit_len as u32);
    assert forall|j: int| 0 <= j < f.ref_bytes.len() implies b.subrange(p3, p4)[j] == f.ref_bytes[j] by {
        let i = kb.len() + nb.len() + 4 + j;
        assert(b[pos + i] == fb[i]);
        assert(fb[i] == f.ref_bytes[j]);
    }
    assert(b.subrange(p3, p4) =~= f.ref_bytes);
    assert(parse_bits(b, p2) == (Parsed::Done { value: (f.ref_bytes, f.bit_len), next: p4 }));
}

/// Round trip of one catalog entry: parsing the bytes produced by encoding a
/// well-formed entry, whatever follows them, yields that entry and consumes
/// exactly its encoding.
pub proof fn lemma_function_round_trip(f: FunctionV, rest: Seq<u8>)
    requires
        function_wf(f),
    ensures
        parse_function(function_bytes(f) + rest, 0) == (Parsed::Done {
            value: f,
            next: function_bytes(f).len() as int,
        }),
{
    let b = function_bytes(f) + rest;
    assert(b.subrange(0, function_bytes(f).len() as int) =~= function_bytes(f));
    lemma_function_round_trip_at(b, 0, f);
}

/// The concatenated encoding of a sequence of catalog entries.
pub open spec fn catalog_bytes(fs: Seq<FunctionV>) -> Seq<u8>
    decreases fs.len(),
{
    if fs.len() == 0 {
        Seq::empty()
    } else {
        function_bytes(fs[0]) + catalog_bytes(fs.drop_first())
    }
}

/// Parses catalog entries from `pos` to the exact end of the buffer; `None`
/// when the buffer is malformed or an entry ends past it.
pub open spec fn parse_catalog(b: Seq<u8>, pos: int) -> Option<Seq<FunctionV>>
    decreases b.len() - pos,
{
    if pos == b.len() {
        Some(Seq::empty())
    } else if pos < b.len() {
        match parse_function(b, pos) {
            Parsed::Done { value, next } => if pos < next <= b.len() {
                match parse_catalog(b, next) {
                    Some(rest) => Some(seq![value] + rest),
                    None => None,
                }
            } else {
                None
            },
            _ => None,
        }
    } else {
        None
    }
}

proof fn lemma_catalog_round_trip_at(b: Seq<u8>, pos: int, fs: Seq<FunctionV>)
    requires
        forall|i: int| 0 <= i < fs.len() ==> function_wf(#[trigger] fs[i]),
        0 <= pos,
        pos + catalog_bytes(fs).len() == b.len(),
        b.subrange(pos, b.len() as int) == catalog_bytes(fs),
    ensures
        parse_catalog(b, pos) == Some(fs),
    decreases fs.len(),
{
    if fs.len() == 0 {
        assert(fs =~= Seq::<FunctionV>::empty());
    } else {
        let f = fs[0];
        let fb = function_bytes(f);
        let cb = catalog_bytes(fs);
        assert(cb =~= fb + catalog_bytes(fs.drop_first()));
        assert forall|i: int| 0 <= i < cb.len() implies b[pos + i] == cb[i] by {
            assert(b.subrange(pos, b.len() as int)[i] == b[pos + i]);
        }
        assert(b.subrange(pos, pos + fb.len() as int) =~= fb);
        lemma_function_round_trip_at(b, pos, f);
        assert(fb.len() > 0);
        assert forall|j: int| 0 <= j < catalog_bytes(fs.drop_first()).len() implies b[pos + fb.len() + j]
            == catalog_bytes(fs.drop_first())[j] by {
            assert(cb[fb.len() + j] == catalog_bytes(fs.drop_first())[j]);
        }
        assert(b.subrange(pos + fb.len(), b.len() as int) =~= catalog_bytes(fs.drop_first()));
        lemma_catalog_round_trip_at(b, pos + fb.len(), fs.drop_first());
        assert(fs =~= seq![f] + fs.drop_first());
    }
}

/// Round trip of a whole catalog: parsing the concatenation of the encodings
/// of well-formed entries exhausts the buffer and yields the original entries.
pub proof fn lemma_catalog_round_trip(fs: Seq<FunctionV>)
    requires
        forall|i: int| 0 <= i < fs.len() ==> function_wf(#[trigger] fs[i]),
    ensures
        parse_catalog(catalog_bytes(fs), 0) == Some(fs),
{
    let b = catalog_bytes(fs);
    assert(b.subrange(0, b.len() as int) =~= b);
    lemma_catalog_round_trip_at(b, 0, fs);
}

} // verus!

verus! {

/// A successfully parsed entry reaches past its twelve bytes of length
/// fields: parsing always advances.
pub proof fn lemma_parse_function_advances(b: Seq<u8>, pos: int)
    ensures
        parse_function(b, pos) matches Parsed::Done { value, next } ==> pos + 12 <= next <= b.len(),
{
    if let Parsed::Done { value, next } = parse_function(b, pos) {
        let k = parse_kind(b, pos);
        if let Parsed::Done { value: kv, next: n1 } = k {
            assert(n1 >= pos + 4);
            let s = parse_str(b, n1);
            if let Parsed::Done { value: sv, next: n2 } = s {
                assert(n2 >= n1 + 4);
                let bs = parse_bits(b, n2);
                if let Parsed::Done { value: bv, next: n3 } = bs {
                    assert(n3 >= n2 + 4);
                    assert(n3 <= b.len());
                }
            }
        }
    }
}

} // verus!

verus! {

impl PartialEq for BitSlice {
    /// Bit slices are equal when their lengths and packed bytes agree.
    fn eq(&self, other: &BitSlice) -> (r: bool) {
        self.bit_len == other.bit_len && crate::bytes_eq(self.bytes.as_slice(), other.bytes.as_slice())
    }
}

impl vstd::std_specs::cmp::PartialEqSpecImpl for BitSlice {
    open spec fn obeys_eq_spec() -> bool {
        true
    }

    open spec fn eq_spec(&self, other: &BitSlice) -> bool {
        self.bit_len == other.bit_len && self.bytes@ == other.bytes@
    }
}

impl Eq for BitSlice {

}

impl PartialEq for FunctionKind {
    /// Kinds are equal when both are exports, or imports from the same module.
    fn eq(&self, other: &FunctionKind) -> (r: bool) {
        match (self, other) {
            (FunctionKind::Export, FunctionKind::Export) => true,
            (FunctionKind::Import(a), FunctionKind::Import(b)) => crate::str_eq(a.as_str(), b.as_str()),
            _ => false,
        }
    }
}

impl vstd::std_specs::cmp::PartialEqSpecImpl for FunctionKind {
    open spec fn obeys_eq_spec() -> bool {
        true
    }

    open spec fn eq_spec(&self, other: &FunctionKind) -> bool {
        match (self@, other@) {
            (FunctionKindV::Export, FunctionKindV::Export) => true,
            (FunctionKindV::Import(a), FunctionKindV::Import(b)) => a == b,
            _ => false,
        }
    }
}

impl Eq for FunctionKind {

}

impl PartialEq for Function {
    /// Entries are equal when their kinds, names and bit slices agree.
    fn eq(&self, other: &Function) -> (r: bool) {
        self.kind == other.kind && crate::str_eq(self.name.as_str(), other.name.as_str())
            && self.externrefs == other.externrefs
    }
}

impl vstd::std_specs::cmp::PartialEqSpecImpl for Function {
    open spec fn obeys_eq_spec() -> bool {
        true
    }

    open spec fn eq_spec(&self, other: &Function) -> bool {
        &&& vstd::std_specs::cmp::PartialEqSpec::eq_spec(&self.kind, &other.kind)
        &&& self.name@ == other.name@
        &&& self.externrefs.bit_len == other.externrefs.bit_len
        &&& self.externrefs.bytes@ == other.externrefs.bytes@
    }
}

impl Eq for Function {

}

} // verus!
