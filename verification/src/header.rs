//! The 512-byte header block: where each field lies, how the values are
//! written into it, and the checksum that seals it.

use vstd::prelude::*;
use vstd::utf8::encode_utf8;
use crate::files::FileData;
use crate::octal::fits_octal;
use crate::octal::is_octal;
use crate::octal::lemma_octal_round_trip;
use crate::octal::lemma_pow8_values;
use crate::octal::octal_digit;
use crate::octal::octal_numeral;
use crate::octal::octal_value;
use crate::octal::read_octal;
use crate::octal::write_octal;

verus! {

/// The longest path, and the longest link target, that a header can hold.
pub const MAX_TEXT: usize = 100;

/// The largest number that seven octal digits can express.
pub const MAX_SHORT: u64 = 0o7777777;

/// The largest number that eleven octal digits can express.
pub const MAX_LONG: u64 = 0o77777777777;

/// The fields of a header block, in the order in which they lie in it.
#[derive(Clone, Copy, Debug, PartialEq, Eq, Structural)]
pub enum Field {
    Path,
    Mode,
    OwnerId,
    GroupId,
    Size,
    Mtime,
    Checksum,
    TypeFlag,
    LinkTarget,
}

impl Field {
    /// Where the field starts in the block.
    pub open spec fn offset(self) -> nat {
        match self {
            Field::Path => 0,
            Field::Mode => 100,
            Field::OwnerId => 108,
            Field::GroupId => 116,
            Field::Size => 124,
            Field::Mtime => 136,
            Field::Checksum => 148,
            Field::TypeFlag => 156,
            Field::LinkTarget => 157,
        }
    }

    /// How many octal digits the field holds; zero for a field that holds
    /// no number.
    pub open spec fn digits(self) -> nat {
        match self {
            Field::Mode => 7,
            Field::OwnerId => 7,
            Field::GroupId => 7,
            Field::Size => 11,
            Field::Mtime => 11,
            Field::Checksum => 6,
            _ => 0,
        }
    }

    /// Where the field starts in the block.
    pub fn start(&self) -> (r: usize)
        ensures
            r == self.offset(),
    {
        match self {
            Field::Path => 0,
            Field::Mode => 100,
            Field::OwnerId => 108,
            Field::GroupId => 116,
            Field::Size => 124,
            Field::Mtime => 136,
            Field::Checksum => 148,
            Field::TypeFlag => 156,
            Field::LinkTarget => 157,
        }
    }

    /// How many octal digits the field holds; zero for a field that holds
    /// no number.
    pub fn digit_count(&self) -> (r: usize)
        ensures
            r == self.digits(),
    {
        match self {
            Field::Mode => 7,
            Field::OwnerId => 7,
            Field::GroupId => 7,
            Field::Size => 11,
            Field::Mtime => 11,
            Field::Checksum => 6,
            _ => 0,
        }
    }
}

/// Why an entry's metadata cannot be written as a header.
#[derive(Clone, Copy, Debug, PartialEq, Eq, Structural)]
pub enum HeaderError {
    /// The path takes more than a hundred bytes; `length` is what it takes.
    PathTooLong { length: usize },
    /// A value does not fit its field: for a number the number itself, for
    /// the link target its length in bytes.
    FieldOverflow { field: Field, value: u64 },
}

/// Byte `i` of a text field that holds `text`: the text, then NUL bytes.
pub open spec fn text_byte(text: Seq<u8>, i: int) -> u8 {
    if 0 <= i < text.len() {
        text[i]
    } else {
        0
    }
}

/// Byte `i` of a numeric field that holds `v` in `digits` octal digits: the
/// digits, then NUL bytes.
pub open spec fn number_byte(v: nat, digits: nat, i: int) -> u8 {
    if 0 <= i < digits {
        octal_digit(v, digits, i)
    } else {
        0
    }
}

/// Byte `i` of a finished checksum field that holds `sum`: six octal digits,
/// a NUL and a space.
pub open spec fn checksum_byte(sum: nat, i: int) -> u8 {
    if 0 <= i < 6 {
        octal_digit(sum, 6, i)
    } else if i == 6 {
        0
    } else {
        0x20
    }
}

/// The sum of the bytes of `s`.
pub open spec fn byte_sum(s: Seq<u8>) -> nat
    decreases s.len(),
{
    if s.len() == 0 {
        0
    } else {
        byte_sum(s.drop_last()) + s.last() as nat
    }
}

/// `block` with its checksum field overwritten by eight spaces.
pub open spec fn blank_checksum(block: Seq<u8>) -> Seq<u8> {
    Seq::new(block.len(), |i: int| if 148 <= i < 156 { 0x20u8 } else { block[i] })
}

/// The checksum of a header block: the sum of its bytes, the checksum field
/// itself counted as eight spaces.
pub open spec fn checksum_of(block: Seq<u8>) -> nat {
    byte_sum(blank_checksum(block))
}

impl FileData {
    /// The path as the bytes that go into the header.
    pub open spec fn path_bytes(self) -> Seq<u8> {
        encode_utf8(self.path@)
    }

    /// The link target as the bytes that go into the header.
    pub open spec fn link_bytes(self) -> Seq<u8> {
        encode_utf8(self.linked_file_name@)
    }

    /// The first reason, in the order of the fields, why these values have
    /// no header; `None` if they have one.
    pub open spec fn fault(self) -> Option<HeaderError> {
        if self.path_bytes().len() > 100 {
            Some(HeaderError::PathTooLong { length: self.path_bytes().len() as usize })
        } else if !fits_octal(self.mode as nat, 7) {
            Some(HeaderError::FieldOverflow { field: Field::Mode, value: self.mode as u64 })
        } else if !fits_octal(self.owner_id as nat, 7) {
            Some(HeaderError::FieldOverflow { field: Field::OwnerId, value: self.owner_id as u64 })
        } else if !fits_octal(self.group_id as nat, 7) {
            Some(HeaderError::FieldOverflow { field: Field::GroupId, value: self.group_id as u64 })
        } else if !fits_octal(self.file_size as nat, 11) {
            Some(HeaderError::FieldOverflow { field: Field::Size, value: self.file_size })
        } else if !fits_octal(self.last_mod_time as nat, 11) {
            Some(HeaderError::FieldOverflow { field: Field::Mtime, value: self.last_mod_time })
        } else if self.link_bytes().len() > 100 {
            Some(
                HeaderError::FieldOverflow {
                    field: Field::LinkTarget,
                    value: self.link_bytes().len() as u64,
                },
            )
        } else {
            None
        }
    }

    /// Whether every value fits its field.
    pub open spec fn fits(self) -> bool {
        self.fault() is None
    }

    /// Byte `i` of the header before its checksum is known: every field in
    /// its place, the checksum field filled with spaces.
    pub open spec fn draft_byte(self, i: int) -> u8 {
        if i < 100 {
            text_byte(self.path_bytes(), i)
        } else if i < 108 {
            number_byte(self.mode as nat, 7, i - 100)
        } else if i < 116 {
            number_byte(self.owner_id as nat, 7, i - 108)
        } else if i < 124 {
            number_byte(self.group_id as nat, 7, i - 116)
        } else if i < 136 {
            number_byte(self.file_size as nat, 11, i - 124)
        } else if i < 148 {
            number_byte(self.last_mod_time as nat, 11, i - 136)
        } else if i < 156 {
            0x20
        } else if i == 156 {
            self.type_flag.byte()
        } else if i < 257 {
            text_byte(self.link_bytes(), i - 157)
        } else {
            0
        }
    }

    /// The header before its checksum is known.
    pub open spec fn draft(self) -> Seq<u8> {
        Seq::new(512, |i: int| self.draft_byte(i))
    }

    /// The header block of these values: the draft, with the sum of the
    /// draft's bytes written into the checksum field.
    pub open spec fn header(self) -> Seq<u8> {
        Seq::new(
            512,
            |i: int|
                if 148 <= i < 156 {
                    checksum_byte(byte_sum(self.draft()), i - 148)
                } else {
                    self.draft_byte(i)
                },
        )
    }
}

/// Copies `bytes` into `block` from `offset` on, and leaves every other
/// byte as it was.
fn write_bytes(block: &mut [u8; 512], offset: usize, bytes: &[u8])
    requires
        offset + bytes@.len() <= 512,
    ensures
        forall|j: int|
            offset <= j < offset + bytes@.len() ==> #[trigger] final(block)@[j] == bytes@[j
                - offset],
        forall|j: int|
            0 <= j < 512 && !(offset <= j < offset + bytes@.len()) ==> #[trigger] final(block)@[j]
                == old(block)@[j],
{
    let n = bytes.len();
    let mut i: usize = 0;
    while i < n
        invariant
            i <= n,
            n == bytes@.len(),
            offset + n <= 512,
            forall|j: int| offset <= j < offset + i ==> #[trigger] block@[j] == bytes@[j - offset],
            forall|j: int|
                0 <= j < 512 && !(offset <= j < offset + n) ==> #[trigger] block@[j] == old(
                    block,
                )@[j],
        decreases n - i,
    {
        block[offset + i] = bytes[i];
        i = i + 1;
    }
}

/// The sum of a sequence's bytes is at most 255 for each of them, and grows
/// by the byte that is appended.
pub proof fn lemma_byte_sum_push(s: Seq<u8>, b: u8)
    ensures
        byte_sum(s.push(b)) == byte_sum(s) + b,
        byte_sum(s) <= 255 * s.len(),
    decreases s.len(),
{
    assert(s.push(b).drop_last() =~= s);
    if s.len() > 0 {
        lemma_byte_sum_push(s.drop_last(), s.last());
        assert(s.drop_last().push(s.last()) =~= s);
    }
}

/// The checksum of a header block: the sum of its 512 bytes, with the eight
/// bytes of the checksum field counted as spaces whatever they hold.
pub fn checksum(block: &[u8; 512]) -> (sum: u32)
    ensures
        sum == checksum_of(block@),
        sum <= 255 * 512,
{
    let ghost blank = blank_checksum(block@);
    let mut sum: u32 = 0;
    let mut i: usize = 0;
    while i < 512
        invariant
            i <= 512,
            blank == blank_checksum(block@),
            sum == byte_sum(blank.subrange(0, i as int)),
            sum <= 255 * i,
        decreases 512 - i,
    {
        let b: u8 = if 148 <= i && i < 156 {
            0x20
        } else {
            block[i]
        };
        proof {
            lemma_byte_sum_push(blank.subrange(0, i as int), b);
            assert(blank.subrange(0, i as int).push(b) =~= blank.subrange(0, i + 1));
        }
        sum = sum + b as u32;
        i = i + 1;
    }
    proof {
        assert(blank.subrange(0, 512) =~= blank);
    }
    sum
}

impl FileData {
    /// Writes the header block of these values, or says which value does
    /// not fit its field.
    pub fn encode(&self) -> (res: Result<[u8; 512], HeaderError>)
        ensures
            match res {
                Ok(block) => self.fault() is None && block@ == self.header(),
                Err(e) => self.fault() == Some(e),
            },
    {
        proof {
            lemma_pow8_values();
        }
        let path = self.path.as_str().as_bytes();
        let link = self.linked_file_name.as_str().as_bytes();
        if path.len() > MAX_TEXT {
            return Err(HeaderError::PathTooLong { length: path.len() });
        }
        if self.mode as u64 > MAX_SHORT {
            return Err(HeaderError::FieldOverflow { field: Field::Mode, value: self.mode as u64 });
        }
        if self.owner_id as u64 > MAX_SHORT {
            return Err(
                HeaderError::FieldOverflow { field: Field::OwnerId, value: self.owner_id as u64 },
            );
        }
        if self.group_id as u64 > MAX_SHORT {
            return Err(
                HeaderError::FieldOverflow { field: Field::GroupId, value: self.group_id as u64 },
            );
        }
        if self.file_size > MAX_LONG {
            return Err(HeaderError::FieldOverflow { field: Field::Size, value: self.file_size });
        }
        if self.last_mod_time > MAX_LONG {
            return Err(
                HeaderError::FieldOverflow { field: Field::Mtime, value: self.last_mod_time },
            );
        }
        if link.len() > MAX_TEXT {
            return Err(
                HeaderError::FieldOverflow { field: Field::LinkTarget, value: link.len() as u64 },
            );
        }
        let mut block = [0u8;512];
        write_bytes(&mut block, 0, path);
        write_octal(&mut block, 100, 7, self.mode as u64);
        write_octal(&mut block, 108, 7, self.owner_id as u64);
        write_octal(&mut block, 116, 7, self.group_id as u64);
        write_octal(&mut block, 124, 11, self.file_size);
        write_octal(&mut block, 136, 11, self.last_mod_time);
        block[156] = self.type_flag.to_byte();
        write_bytes(&mut block, 157, link);
        proof {
            assert(blank_checksum(block@) =~= self.draft());
        }
        let sum = checksum(&block);
        write_octal(&mut block, 148, 6, sum as u64);
        block[155] = 0x20;
        proof {
            assert(block@ =~= self.header());
        }
        Ok(block)
    }
}

/// The digits of a numeric field of `block`.
pub open spec fn field_digits(block: Seq<u8>, field: Field) -> Seq<u8> {
    block.subrange(field.offset() as int, (field.offset() + field.digits()) as int)
}

/// Reads the number that a numeric field of `block` holds. `None` for a
/// field that holds no number, and where a byte of the field's digits is no
/// octal digit.
pub fn read_number(block: &[u8; 512], field: Field) -> (res: Option<u64>)
    ensures
        res is Some <==> field.digits() > 0 && is_octal(field_digits(block@, field)),
        res is Some ==> res->0 == octal_value(field_digits(block@, field)),
{
    let digits = field.digit_count();
    if digits == 0 {
        None
    } else {
        read_octal(block, field.start(), digits)
    }
}

/// Whether the checksum that `block` records is the checksum of `block`.
pub fn checksum_matches(block: &[u8; 512]) -> (ok: bool)
    ensures
        ok <==> is_octal(field_digits(block@, Field::Checksum)) && octal_value(
            field_digits(block@, Field::Checksum),
        ) == checksum_of(block@),
{
    match read_number(block, Field::Checksum) {
        Some(recorded) => recorded == checksum(block) as u64,
        None => false,
    }
}

impl FileData {
    /// The number that a numeric field of the header records: for the
    /// checksum the sum of the draft's bytes, zero for a field without a
    /// number.
    pub open spec fn number(self, field: Field) -> nat {
        match field {
            Field::Mode => self.mode as nat,
            Field::OwnerId => self.owner_id as nat,
            Field::GroupId => self.group_id as nat,
            Field::Size => self.file_size as nat,
            Field::Mtime => self.last_mod_time as nat,
            Field::Checksum => byte_sum(self.draft()),
            _ => 0,
        }
    }

    /// Whether two values record the same: equal numbers and kind, and
    /// texts of the same characters.
    pub open spec fn same_values(self, other: FileData) -> bool {
        &&& self.path@ == other.path@
        &&& self.mode == other.mode
        &&& self.owner_id == other.owner_id
        &&& self.group_id == other.group_id
        &&& self.file_size == other.file_size
        &&& self.last_mod_time == other.last_mod_time
        &&& self.type_flag == other.type_flag
        &&& self.linked_file_name@ == other.linked_file_name@
    }
}

/// A header is 512 bytes long, whatever the values.
pub proof fn lemma_header_length(data: FileData)
    ensures
        data.header().len() == 512,
        data.draft().len() == 512,
{
}

/// Blanking the checksum field of a header gives back the draft it was
/// computed from, so the checksum of a header is the sum of its draft.
pub proof fn lemma_header_blank(data: FileData)
    ensures
        blank_checksum(data.header()) == data.draft(),
        checksum_of(data.header()) == byte_sum(data.draft()),
        byte_sum(data.draft()) <= 255 * 512,
{
    assert(blank_checksum(data.header()) =~= data.draft());
    lemma_byte_sum_push(data.draft(), 0);
}

/// The checksum that a header records is the checksum computed from the
/// header itself with its checksum field read as spaces.
pub proof fn lemma_header_checksum(data: FileData)
    ensures
        is_octal(field_digits(data.header(), Field::Checksum)),
        octal_value(field_digits(data.header(), Field::Checksum)) == checksum_of(data.header()),
{
    lemma_header_blank(data);
    lemma_pow8_values();
    let sum = byte_sum(data.draft());
    assert(field_digits(data.header(), Field::Checksum) =~= octal_numeral(sum, 6));
    lemma_octal_round_trip(sum, 6);
}

/// Reading a numeric field of a header gives the value that was encoded,
/// for every numeric field and every metadata whose values fit.
pub proof fn lemma_header_numbers(data: FileData, field: Field)
    requires
        data.fits(),
        field.digits() > 0,
    ensures
        is_octal(field_digits(data.header(), field)),
        octal_value(field_digits(data.header(), field)) == data.number(field),
{
    lemma_header_blank(data);
    lemma_pow8_values();
    let v = data.number(field);
    assert(field_digits(data.header(), field) =~= octal_numeral(v, field.digits()));
    lemma_octal_round_trip(v, field.digits());
}

/// The header is a function of the recorded values alone: metadata that
/// record the same have the same header, and fail alike.
pub proof fn lemma_header_deterministic(a: FileData, b: FileData)
    requires
        a.same_values(b),
    ensures
        a.header() == b.header(),
        a.fault() == b.fault(),
{
    assert(a.draft() =~= b.draft());
    assert(a.header() =~= b.header());
}

} // verus!
