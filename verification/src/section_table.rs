//! The section header table entry: a fixed 40-byte little-endian record, its
//! decoder, and the resolution of indirect names against the string table.

use vstd::prelude::*;
use vstd::slice::{slice_subrange, slice_to_vec};
use vstd::utf8::{decode_utf8, is_leading_byte_width_1, pop_first_scalar, valid_utf8};
use crate::index_decode::{base64_decode_string_entry, b64_value, dec_value,
    decimal_decode_string_entry, is_b64_char, is_dec_char};

verus! {

/// On-disk size of one section header table entry, in bytes.
pub const SIZEOF_SECTION_TABLE: usize = 8 * 5;

/// The byte value of `/`, the marker of an indirect name field.
pub const INDIRECT_MARKER: u8 = 47;

/// How decoding a section header table entry can fail.
#[derive(Debug)]
pub enum Error {
    /// A read of a fixed field or of a string-table string would pass the end
    /// of the buffer.
    OutOfBounds,
    /// An indirect name whose index text does not parse, or a string-table
    /// string that is not ASCII; carries the offending bytes.
    Malformed(Vec<u8>),
    /// A direct name whose bytes are not ASCII text; carries the offending
    /// bytes.
    Encoding(Vec<u8>),
}

/// Index of the first NUL byte of `b`, or `b.len()` when there is none.
pub open spec fn nul_index(b: Seq<u8>) -> int
    decreases b.len(),
{
    if b.len() == 0 {
        0
    } else if b[0] == 0 {
        0
    } else {
        1 + nul_index(b.drop_first())
    }
}

/// The prefix of `b` up to (excluding) its first NUL byte, or all of `b` when
/// it has none.
pub open spec fn trim_at_nul(b: Seq<u8>) -> Seq<u8> {
    b.take(nul_index(b))
}

/// All bytes of `b` are ASCII.
pub open spec fn all_ascii(b: Seq<u8>) -> bool {
    forall|i: int| 0 <= i < b.len() ==> #[trigger] b[i] < 128
}

/// The text that ASCII bytes stand for, one char per byte.
pub open spec fn ascii_chars(b: Seq<u8>) -> Seq<char> {
    b.map_values(|c: u8| c as char)
}

/// An 8-byte name field marks an indirect name when it starts with `/`.
pub open spec fn is_indirect(raw: Seq<u8>) -> bool {
    raw[0] == INDIRECT_MARKER
}

/// The index text of an indirect name field: the bytes after the `/` marker
/// (after `//` for the base-64-like form), trimmed at the first NUL.
pub open spec fn index_text(raw: Seq<u8>) -> Seq<u8> {
    if raw[1] == INDIRECT_MARKER {
        trim_at_nul(raw.subrange(2, 8))
    } else {
        trim_at_nul(raw.subrange(1, 8))
    }
}

/// Whether the index text of an indirect name field parses: all digits of the
/// base-64-like alphabet after `//`, else a non-empty run of decimal digits.
pub open spec fn index_text_valid(raw: Seq<u8>) -> bool {
    if raw[1] == INDIRECT_MARKER {
        forall|i: int| 0 <= i < index_text(raw).len() ==> is_b64_char(#[trigger] index_text(raw)[i])
    } else {
        index_text(raw).len() >= 1 && forall|i: int|
            0 <= i < index_text(raw).len() ==> is_dec_char(#[trigger] index_text(raw)[i])
    }
}

/// The string-table index an indirect name field encodes, relative to the
/// start of the string table.
pub open spec fn index_value(raw: Seq<u8>) -> nat {
    if raw[1] == INDIRECT_MARKER {
        b64_value(index_text(raw))
    } else {
        dec_value(index_text(raw))
    }
}

/// The NUL-terminated string starting at absolute offset `at` of the buffer,
/// or `None` when `at` lies outside the buffer or no terminator follows.
pub open spec fn table_string_at(bytes: Seq<u8>, at: int) -> Option<Seq<u8>> {
    if 0 <= at <= bytes.len() {
        let tail = bytes.subrange(at, bytes.len() as int);
        if nul_index(tail) < tail.len() {
            Some(tail.take(nul_index(tail)))
        } else {
            None
        }
    } else {
        None
    }
}

pub proof fn lemma_nul_index_range(b: Seq<u8>)
    ensures
        0 <= nul_index(b) <= b.len(),
        forall|j: int| 0 <= j < nul_index(b) ==> #[trigger] b[j] != 0,
        nul_index(b) < b.len() ==> b[nul_index(b)] == 0,
    decreases b.len(),
{
    if b.len() > 0 && b[0] != 0 {
        lemma_nul_index_range(b.drop_first());
        assert forall|j: int| 0 <= j < nul_index(b) implies #[trigger] b[j] != 0 by {
            if j > 0 {
                assert(b.drop_first()[j - 1] != 0);
            }
        }
    }
}

/// The first NUL of `b` stands at `k` exactly when nothing before `k` is NUL
/// and `k` is NUL or the end.
pub proof fn lemma_nul_index_at(b: Seq<u8>, k: int)
    requires
        0 <= k <= b.len(),
        forall|j: int| 0 <= j < k ==> #[trigger] b[j] != 0,
        k < b.len() ==> b[k] == 0,
    ensures
        nul_index(b) == k,
    decreases b.len(),
{
    if b.len() > 0 && k > 0 {
        assert forall|j: int| 0 <= j < k - 1 implies #[trigger] b.drop_first()[j] != 0 by {
            assert(b[j + 1] != 0);
        }
        lemma_nul_index_at(b.drop_first(), k - 1);
    }
}

/// Relies on core::str::from_utf8: it succeeds exactly on valid UTF-8 input,
/// and the resulting text is the UTF-8 decoding of those bytes.
#[verifier::external_body]
fn utf8_str(bytes: &[u8]) -> (r: Option<&str>)
    ensures
        match r {
            Some(s) => valid_utf8(bytes@) && s@ == decode_utf8(bytes@),
            None => !valid_utf8(bytes@),
        },
{
    core::str::from_utf8(bytes).ok()
}

/// ASCII bytes are valid UTF-8, and decode to one char per byte.
pub proof fn lemma_ascii_utf8(b: Seq<u8>)
    requires
        all_ascii(b),
    ensures
        valid_utf8(b),
        decode_utf8(b) == ascii_chars(b),
    decreases b.len(),
{
    if b.len() > 0 {
        let first = b[0];
        assert(is_leading_byte_width_1(first));
        assert(first & 0x7F == first) by (bit_vector)
            requires
                first < 128,
        ;
        let rest = b.subrange(1, b.len() as int);
        assert(pop_first_scalar(b) == rest);
        assert forall|i: int| 0 <= i < rest.len() implies #[trigger] rest[i] < 128 by {
            assert(rest[i] == b[i + 1]);
        }
        lemma_ascii_utf8(rest);
        assert(decode_utf8(b) =~= ascii_chars(b));
    } else {
        assert(decode_utf8(b) =~= ascii_chars(b));
    }
}

/// The value of two little-endian bytes.
pub open spec fn le_u16(b: Seq<u8>) -> int
    recommends
        b.len() == 2,
{
    b[0] + 0x100 * b[1]
}

/// The value of four little-endian bytes.
pub open spec fn le_u32(b: Seq<u8>) -> int
    recommends
        b.len() == 4,
{
    b[0] + 0x100 * b[1] + 0x10000 * b[2] + 0x1000000 * b[3]
}

fn read_u32_at(bytes: &[u8], pos: usize) -> (v: u32)
    requires
        pos + 4 <= bytes@.len(),
    ensures
        v == le_u32(bytes@.subrange(pos as int, pos as int + 4)),
{
    let b0 = bytes[pos] as u32;
    let b1 = bytes[pos + 1] as u32;
    let b2 = bytes[pos + 2] as u32;
    let b3 = bytes[pos + 3] as u32;
    b0 + b1 * 0x100 + b2 * 0x10000 + b3 * 0x1000000
}

fn read_u16_at(bytes: &[u8], pos: usize) -> (v: u16)
    requires
        pos + 2 <= bytes@.len(),
    ensures
        v == le_u16(bytes@.subrange(pos as int, pos as int + 2)),
{
    let b0 = bytes[pos] as u16;
    let b1 = bytes[pos + 1] as u16;
    b0 + b1 * 0x100
}

/// The bytes of `name` from `start` on, trimmed at the first NUL.
fn trimmed_from(name: &[u8; 8], start: usize) -> (t: Vec<u8>)
    requires
        start <= 8,
    ensures
        t@ == trim_at_nul(name@.subrange(start as int, 8)),
{
    let mut t: Vec<u8> = Vec::new();
    let mut i: usize = start;
    while i < 8 && name[i] != 0
        invariant
            start <= i <= 8,
            t@ =~= name@.subrange(start as int, i as int),
            forall|j: int| start <= j < i ==> #[trigger] name@[j] != 0,
        decreases 8 - i,
    {
        t.push(name[i]);
        proof {
            assert(name@.subrange(start as int, i as int + 1) =~= name@.subrange(
                start as int,
                i as int,
            ).push(name@[i as int]));
        }
        i += 1;
    }
    proof {
        let sub = name@.subrange(start as int, 8);
        assert forall|j: int| 0 <= j < i - start implies #[trigger] sub[j] != 0 by {
            assert(sub[j] == name@[start + j]);
        }
        if i < 8 {
            assert(sub[i - start] == name@[i as int]);
        }
        lemma_nul_index_at(sub, i - start);
        assert(t@ =~= sub.take(i - start));
    }
    t
}

/// Index of the first NUL byte of `bytes` at or after `start`, or `None` when
/// no NUL follows `start`.
fn find_nul(bytes: &[u8], start: usize) -> (r: Option<usize>)
    requires
        start <= bytes@.len(),
    ensures
        ({
            let tail = bytes@.subrange(start as int, bytes@.len() as int);
            match r {
                Some(j) => start <= j < bytes@.len() && nul_index(tail) == j - start,
                None => nul_index(tail) == tail.len(),
            }
        }),
{
    let n = bytes.len();
    let mut j: usize = start;
    while j < n && bytes[j] != 0
        invariant
            start <= j <= n == bytes@.len(),
            forall|m: int| start <= m < j ==> #[trigger] bytes@[m] != 0,
        decreases n - j,
    {
        j += 1;
    }
    proof {
        let tail = bytes@.subrange(start as int, bytes@.len() as int);
        assert forall|m: int| 0 <= m < j - start implies #[trigger] tail[m] != 0 by {
            assert(tail[m] == bytes@[start + m]);
        }
        if j < n {
            assert(tail[j - start] == bytes@[j as int]);
        }
        lemma_nul_index_at(tail, j - start);
    }
    if j < n {
        Some(j)
    } else {
        None
    }
}

/// Checks that every byte of `b` is ASCII; yields the position of the first
/// byte that is not.
fn check_ascii(b: &[u8]) -> (r: Option<usize>)
    ensures
        match r {
            None => all_ascii(b@),
            Some(k) => 0 <= k < b@.len() && b@[k as int] >= 128 && !all_ascii(b@),
        },
{
    let mut k: usize = 0;
    while k < b.len()
        invariant
            0 <= k <= b@.len(),
            forall|j: int| 0 <= j < k ==> #[trigger] b@[j] < 128,
        decreases b@.len() - k,
    {
        if b[k] >= 128 {
            return Some(k);
        }
        k += 1;
    }
    None
}

/// One decoded section header table entry. Immutable once constructed; the
/// multi-byte fields were read little-endian from the 40-byte record.
#[derive(Debug, Clone, PartialEq)]
pub struct SectionTable {
    /// The 8-byte name field exactly as stored on disk.
    pub name: [u8; 8],
    /// The name read from the string table, present exactly when the name
    /// field encodes an indirection and resolution succeeded at decode time.
    pub real_name: Option<String>,
    pub virtual_size: u32,
    pub virtual_address: u32,
    pub size_of_raw_data: u32,
    pub pointer_to_raw_data: u32,
    pub pointer_to_relocations: u32,
    pub pointer_to_linenumbers: u32,
    pub number_of_relocations: u16,
    pub number_of_linenumbers: u16,
    pub characteristics: u32,
}

impl SectionTable {
    /// A resolved name is only ever present for an indirect name field.
    pub open spec fn wf(self) -> bool {
        self.real_name is Some ==> is_indirect(self.name@)
    }

    /// Whether the name accessor succeeds.
    pub open spec fn name_ok(self) -> bool {
        self.real_name is Some || valid_utf8(trim_at_nul(self.name@))
    }

    /// The effective name: the resolved one when present, else the raw name
    /// bytes trimmed at the first NUL, read as UTF-8 text.
    pub open spec fn spec_name(self) -> Seq<char> {
        match self.real_name {
            Some(n) => n@,
            None => decode_utf8(trim_at_nul(self.name@)),
        }
    }

    /// Decodes one 40-byte section header table entry from `bytes` at
    /// `*offset`, advancing the cursor by exactly 40 on success, and resolves
    /// an indirect name against the string table that starts at
    /// `string_table_offset`. On failure the cursor's position is
    /// unspecified. The entry is `Ok` exactly when the whole record lies
    /// within the buffer and, for an indirect name, the index text parses,
    /// the string table holds a NUL-terminated string at the indexed offset,
    /// and that string is ASCII.
    pub fn parse(bytes: &[u8], offset: &mut usize, string_table_offset: usize) -> (r: Result<
        SectionTable,
        Error,
    >)
        ensures
            ({
                let o = *old(offset) as int;
                let stb = string_table_offset as int;
                let raw = bytes@.subrange(o, o + 8);
                match r {
                    Ok(t) => {
                        &&& o + SIZEOF_SECTION_TABLE <= bytes@.len()
                        &&& *final(offset) == o + SIZEOF_SECTION_TABLE
                        &&& t.wf()
                        &&& t.name@ == raw
                        &&& t.virtual_size == le_u32(
                            bytes@.subrange(o + 8, o + 12),
                        )
                        &&& t.virtual_address == le_u32(
                            bytes@.subrange(o + 12, o + 16),
                        )
                        &&& t.size_of_raw_data == le_u32(
                            bytes@.subrange(o + 16, o + 20),
                        )
                        &&& t.pointer_to_raw_data == le_u32(
                            bytes@.subrange(o + 20, o + 24),
                        )
                        &&& t.pointer_to_relocations == le_u32(
                            bytes@.subrange(o + 24, o + 28),
                        )
                        &&& t.pointer_to_linenumbers == le_u32(
                            bytes@.subrange(o + 28, o + 32),
                        )
                        &&& t.number_of_relocations == le_u16(
                            bytes@.subrange(o + 32, o + 34),
                        )
                        &&& t.number_of_linenumbers == le_u16(
                            bytes@.subrange(o + 34, o + 36),
                        )
                        &&& t.characteristics == le_u32(
                            bytes@.subrange(o + 36, o + 40),
                        )
                        &&& if is_indirect(raw) {
                            &&& index_text_valid(raw)
                            &&& (table_string_at(bytes@, stb + index_value(raw)) matches Some(nb)
                                && all_ascii(nb) && (t.real_name matches Some(n) && n@
                                == ascii_chars(nb)))
                        } else {
                            t.real_name is None
                        }
                    },
                    Err(e) => {
                        if o + SIZEOF_SECTION_TABLE > bytes@.len() {
                            e is OutOfBounds
                        } else {
                            &&& is_indirect(raw)
                            &&& if !index_text_valid(raw) {
                                e matches Error::Malformed(s) && s@ == index_text(raw)
                            } else {
                                match table_string_at(bytes@, stb + index_value(raw)) {
                                    None => e is OutOfBounds,
                                    Some(nb) => !all_ascii(nb) && (e matches Error::Malformed(s)
                                        && s@ == nb),
                                }
                            }
                        }
                    },
                }
            }),
    {
        let o = *offset;
        let n = bytes.len();
        if n < SIZEOF_SECTION_TABLE || o > n - SIZEOF_SECTION_TABLE {
            return Err(Error::OutOfBounds);
        }
        let name: [u8; 8] = [
            bytes[o],
            bytes[o + 1],
            bytes[o + 2],
            bytes[o + 3],
            bytes[o + 4],
            bytes[o + 5],
            bytes[o + 6],
            bytes[o + 7],
        ];
        let ghost raw = bytes@.subrange(o as int, o as int + 8);
        proof {
            assert(name@ =~= raw);
        }
        let virtual_size = read_u32_at(bytes, o + 8);
        let virtual_address = read_u32_at(bytes, o + 12);
        let size_of_raw_data = read_u32_at(bytes, o + 16);
        let pointer_to_raw_data = read_u32_at(bytes, o + 20);
        let pointer_to_relocations = read_u32_at(bytes, o + 24);
        let pointer_to_linenumbers = read_u32_at(bytes, o + 28);
        let number_of_relocations = read_u16_at(bytes, o + 32);
        let number_of_linenumbers = read_u16_at(bytes, o + 34);
        let characteristics = read_u32_at(bytes, o + 36);
        *offset = o + SIZEOF_SECTION_TABLE;
        let real_name: Option<String> = if name[0] == INDIRECT_MARKER {
            let base64 = name[1] == INDIRECT_MARKER;
            let text = trimmed_from(&name, if base64 {
                2
            } else {
                1
            });
            proof {
                if base64 {
                    assert(raw.subrange(2, 8) == name@.subrange(2, 8));
                    lemma_nul_index_range(name@.subrange(2, 8));
                } else {
                    assert(raw.subrange(1, 8) == name@.subrange(1, 8));
                    lemma_nul_index_range(name@.subrange(1, 8));
                }
                assert(text@ == index_text(raw));
            }
            let parsed: Result<u64, ()> = if base64 {
                base64_decode_string_entry(text.as_slice())
            } else {
                decimal_decode_string_entry(text.as_slice())
            };
            let idx64: u64 = match parsed {
                Ok(v) => v,
                Err(_) => {
                    proof {
                        assert(!index_text_valid(raw));
                    }
                    return Err(Error::Malformed(text));
                },
            };
            proof {
                assert(index_text_valid(raw));
                assert(idx64 == index_value(raw));
            }
            let len64: u64 = n as u64;
            if idx64 > len64 || (string_table_offset as u64) > len64 - idx64 {
                return Err(Error::OutOfBounds);
            }
            let abs: usize = (string_table_offset as u64 + idx64) as usize;
            match find_nul(bytes, abs) {
                None => {
                    return Err(Error::OutOfBounds);
                },
                Some(j) => {
                    let nb = slice_to_vec(slice_subrange(bytes, abs, j));
                    proof {
                        let tail = bytes@.subrange(abs as int, bytes@.len() as int);
                        assert(nb@ =~= tail.take(nul_index(tail)));
                        assert(table_string_at(bytes@, abs as int) == Some(nb@));
                    }
                    match check_ascii(nb.as_slice()) {
                        Some(_) => {
                            return Err(Error::Malformed(nb));
                        },
                        None => {
                            proof {
                                lemma_ascii_utf8(nb@);
                            }
                            match utf8_str(nb.as_slice()) {
                                Some(s) => Some(s.to_owned()),
                                None => {
                                    proof {
                                        assert(false);
                                    }
                                    None
                                },
                            }
                        },
                    }
                },
            }
        } else {
            None
        };
        Ok(SectionTable {
            name,
            real_name,
            virtual_size,
            virtual_address,
            size_of_raw_data,
            pointer_to_raw_data,
            pointer_to_relocations,
            pointer_to_linenumbers,
            number_of_relocations,
            number_of_linenumbers,
            characteristics,
        })
    }

    /// The effective name of the section: the name resolved from the string
    /// table when the name field was indirect, else the raw name bytes
    /// trimmed at the first NUL, read as UTF-8 text. A direct name whose
    /// bytes are not valid UTF-8 is an encoding error carrying those bytes.
    pub fn name(&self) -> (r: Result<&str, Error>)
        ensures
            self.name_ok() ==> (r matches Ok(s) && s@ == self.spec_name()),
            !self.name_ok() ==> (r matches Err(e) && (e matches Error::Encoding(b) && b@
                == trim_at_nul(self.name@))),
    {
        match &self.real_name {
            Some(s) => Ok(s.as_str()),
            None => {
                proof {
                    assert(self.name@.subrange(0, 8) =~= self.name@);
                }
                let end: usize = match find_nul(self.name.as_slice(), 0) {
                    Some(j) => j,
                    None => 8,
                };
                let t = slice_subrange(self.name.as_slice(), 0, end);
                proof {
                    assert(t@ =~= trim_at_nul(self.name@));
                }
                match utf8_str(t) {
                    Some(s) => Ok(s),
                    None => Err(Error::Encoding(slice_to_vec(t))),
                }
            },
        }
    }

}

impl Default for SectionTable {
    /// An all-zero entry with a blank name.
    fn default() -> (r: Self)
        ensures
            r.name@ =~= seq![0u8, 0u8, 0u8, 0u8, 0u8, 0u8, 0u8, 0u8],
            r.real_name is None,
            r.virtual_size == 0,
            r.virtual_address == 0,
            r.size_of_raw_data == 0,
            r.pointer_to_raw_data == 0,
            r.pointer_to_relocations == 0,
            r.pointer_to_linenumbers == 0,
            r.number_of_relocations == 0,
            r.number_of_linenumbers == 0,
            r.characteristics == 0,
    {
        SectionTable {
            name: [0, 0, 0, 0, 0, 0, 0, 0],
            real_name: None,
            virtual_size: 0,
            virtual_address: 0,
            size_of_raw_data: 0,
            pointer_to_raw_data: 0,
            pointer_to_relocations: 0,
            pointer_to_linenumbers: 0,
            number_of_relocations: 0,
            number_of_linenumbers: 0,
            characteristics: 0,
        }
    }
}

/// A direct name (one whose first byte is not `/`) is never resolved: the
/// effective name is exactly the raw bytes trimmed at the first NUL, read as
/// UTF-8 text.
pub proof fn lemma_direct_name(t: SectionTable)
    requires
        t.wf(),
        !is_indirect(t.name@),
    ensures
        t.real_name is None,
        t.spec_name() == decode_utf8(trim_at_nul(t.name@)),
        t.name_ok() == valid_utf8(trim_at_nul(t.name@)),
{
}

} // verus!
