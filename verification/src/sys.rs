//! Resource identifiers and the form in which they cross the system boundary.
//!
//! The system hands a resource's identifier over as one machine word. A word
//! with no bit set above its low sixteen is the identifier itself, a number.
//! Any other word is the address of a zero-terminated string of 16-bit units,
//! and that string is the identifier: a name, or `#` and decimal digits for a
//! number again. [`ResourceId::parse`] turns the word, and the units found at
//! it, into a value once; nothing looks at the word afterwards.

use vstd::prelude::*;
use vstd::slice::slice_subrange;
use crate::str_util::{
    clone_utf16, lemma_text_len, lemma_text_len_unique, text_len, u32_to_decimal, unit_char,
    utf16_to_utf8, wide_text, decimal,
};

verus! {

/// The resource type of message tables.
pub const RT_MESSAGETABLE: u16 = 11;

/// The identifier of a resource: a number, or a name.
#[derive(Debug, PartialEq, Eq)]
pub enum ResourceId {
    /// A number.
    Num(u16),
    /// A name, held both as zero-terminated 16-bit units and as text.
    String { wide: Vec<u16>, utf8: String },
}

/// The identifier of a resource within its type.
pub type ResourceName = ResourceId;

/// The identifier of a resource type.
pub type ResourceType = ResourceId;

/// What a [`ResourceId`] holds.
pub enum IdModel {
    Num(u16),
    String { wide: Seq<u16>, utf8: Seq<char> },
}

/// An identifier as it is handed to the system: the word itself for a
/// number, and for a name the units whose address becomes the word. The units
/// are borrowed from the identifier, so the address holds for as long as the
/// identifier is kept.
#[derive(Clone, Copy, Debug, PartialEq, Eq)]
pub enum Packed<'a> {
    Word(usize),
    Text(&'a [u16]),
}

/// What a [`Packed`] holds.
pub enum PackedModel {
    Word(usize),
    Text(Seq<u16>),
}

/// The text of a string that starts with `#` and does not go on as a number
/// that fits in sixteen bits.
#[derive(Debug, PartialEq, Eq)]
pub struct InvalidOrdinalString {
    pub text: String,
}

impl View for ResourceId {
    type V = IdModel;

    open spec fn view(&self) -> IdModel {
        match self {
            ResourceId::Num(num) => IdModel::Num(*num),
            ResourceId::String { wide, utf8 } => IdModel::String { wide: wide@, utf8: utf8@ },
        }
    }
}

impl Clone for ResourceId {
    fn clone(&self) -> (copy: ResourceId)
        ensures
            copy@ == self@,
    {
        match self {
            ResourceId::Num(num) => ResourceId::Num(*num),
            ResourceId::String { wide, utf8 } => ResourceId::String {
                wide: wide.clone(),
                utf8: utf8.clone(),
            },
        }
    }
}

impl Clone for InvalidOrdinalString {
    fn clone(&self) -> (copy: InvalidOrdinalString)
        ensures
            copy.text@ == self.text@,
    {
        InvalidOrdinalString { text: self.text.clone() }
    }
}

impl<'a> View for Packed<'a> {
    type V = PackedModel;

    open spec fn view(&self) -> PackedModel {
        match self {
            Packed::Word(word) => PackedModel::Word(*word),
            Packed::Text(units) => PackedModel::Text(units@),
        }
    }
}

/// The word is a number, not an address: no bit above the low sixteen is set.
pub open spec fn is_int_resource(word: usize) -> bool {
    word >> 16 == 0
}

/// Tells whether `word` is a number itself, and no address to read from.
pub fn holds_number(word: usize) -> (b: bool)
    ensures
        b == is_int_resource(word),
{
    word >> 16 == 0
}

/// `c` is one of the ten decimal digits.
pub open spec fn is_digit(c: char) -> bool {
    '0' <= c <= '9'
}

/// The number that a digit stands for, and 0 for any other character.
pub open spec fn digit_value(c: char) -> nat {
    if is_digit(c) {
        (c as u32 - '0' as u32) as nat
    } else {
        0
    }
}

/// The number that a string of digits stands for in decimal.
pub open spec fn digits_value(s: Seq<char>) -> nat
    decreases s.len(),
{
    if s.len() == 0 {
        0
    } else {
        10 * digits_value(s.drop_last()) + digit_value(s.last())
    }
}

/// `s` holds at least one character, and decimal digits only.
pub open spec fn is_digits(s: Seq<char>) -> bool {
    s.len() > 0 && forall|i: int| 0 <= i < s.len() ==> is_digit(#[trigger] s[i])
}

/// The 16-bit number that `s` denotes: `s` is made of decimal digits, at
/// least one, and their value is at most 65535.
pub open spec fn ordinal_of(s: Seq<char>) -> Option<u16> {
    if is_digits(s) && digits_value(s) <= 0xFFFF {
        Some(digits_value(s) as u16)
    } else {
        None
    }
}

/// `text` is written as a number is: `#` and then decimal digits.
pub open spec fn is_ordinal_syntax(text: Seq<char>) -> bool {
    text.len() > 0 && text[0] == '#' && is_digits(text.skip(1))
}

/// The identifier that the string in `units` denotes, or the string's text
/// where it starts with `#` and denotes none.
pub open spec fn parse_text(units: Seq<u16>) -> Result<IdModel, Seq<char>> {
    let text = wide_text(units);
    if text.len() > 0 && text[0] == '#' {
        match ordinal_of(text.skip(1)) {
            Some(num) => Ok(IdModel::Num(num)),
            None => Err(text),
        }
    } else {
        Ok(IdModel::String { wide: units.take(text_len(units, 0u16)).push(0u16), utf8: text })
    }
}

/// The identifier that `word` denotes, where `pointee` holds the units that
/// lie at the address `word` if it is one.
pub open spec fn parse_spec(word: usize, pointee: Seq<u16>) -> Result<IdModel, Seq<char>> {
    if is_int_resource(word) {
        Ok(IdModel::Num((word & 0xffff) as u16))
    } else {
        parse_text(pointee)
    }
}

/// The form in which an identifier is handed to the system.
pub open spec fn pack_spec(id: IdModel) -> PackedModel {
    match id {
        IdModel::Num(num) => PackedModel::Word(num as usize),
        IdModel::String { wide, utf8 } => PackedModel::Text(wide),
    }
}

/// `word`, with `pointee` at its address if it is one, hands `packed` over:
/// it is the packed word, or an address at which the packed units lie.
pub open spec fn carries(word: usize, pointee: Seq<u16>, packed: PackedModel) -> bool {
    match packed {
        PackedModel::Word(w) => word == w,
        PackedModel::Text(units) => {
            &&& !is_int_resource(word)
            &&& units.len() <= pointee.len()
            &&& pointee.take(units.len() as int) == units
        },
    }
}

impl ResourceId {
    /// The identifier is one that a module can hold. A number always is. A
    /// name is not empty and not written as a number is, its units end with
    /// their only zero, and its text is what the units spell.
    pub open spec fn wf(&self) -> bool {
        match self {
            ResourceId::Num(_) => true,
            ResourceId::String { wide, utf8 } => {
                &&& text_len(wide@, 0u16) + 1 == wide@.len()
                &&& utf8@ == wide_text(wide@)
                &&& utf8@.len() > 0
                &&& !is_ordinal_syntax(utf8@)
            },
        }
    }

    /// The identifier is a name that starts with `#`. Such a name cannot be
    /// handed to the system as itself: it is read there as a number.
    pub open spec fn is_hash_name(&self) -> bool {
        match self {
            ResourceId::Num(_) => false,
            ResourceId::String { wide, utf8 } => utf8@.len() > 0 && utf8@[0] == '#',
        }
    }

    /// Reads the identifier that the machine word `word` stands for.
    ///
    /// `pointee` holds the units that lie at the address `word`. It is read
    /// only where `word` is an address, and only up to its first zero.
    ///
    /// A string that starts with `#` is a number: the digits that follow are
    /// its value. Where they are no digits, or none, or more than sixteen
    /// bits hold, the string's text comes back as the error. Any other string
    /// is a name, its units kept as they are. An empty string is a name too,
    /// the one name that no module holds.
    pub fn parse(word: usize, pointee: &[u16]) -> (result: Result<
        ResourceId,
        InvalidOrdinalString,
    >)
        ensures
            match result {
                Ok(id) => {
                    &&& parse_spec(word, pointee@) == Ok::<IdModel, Seq<char>>(id@)
                    &&& id.wf() <==> !(id@ matches IdModel::String { utf8, .. } && utf8.len() == 0)
                    &&& !id.is_hash_name()
                },
                Err(e) => parse_spec(word, pointee@) == Err::<IdModel, Seq<char>>(e.text@),
            },
    {
        if holds_number(word) {
            return Ok(ResourceId::Num((word & 0xffff) as u16));
        }
        let utf8 = utf16_to_utf8(pointee);
        let wide = clone_utf16(pointee);
        let len: usize = wide.len() - 1;
        proof {
            lemma_text_len(pointee@, 0u16);
        }
        if len > 0 && pointee[0] == 0x23 {
            let digits = slice_subrange(pointee, 1, len);
            assert(digits@.map_values(|u: u16| unit_char(u)) == utf8@.skip(1));
            match parse_ordinal(digits) {
                Some(num) => Ok(ResourceId::Num(num)),
                None => Err(InvalidOrdinalString { text: utf8 }),
            }
        } else {
            proof {
                lemma_text_len_unique(wide@, 0u16, len as int);
                assert(wide_text(wide@) == wide_text(pointee@));
            }
            Ok(ResourceId::String { wide, utf8 })
        }
    }

    /// The form in which the identifier is handed to the system.
    pub fn pack(&self) -> (packed: Packed<'_>)
        ensures
            packed@ == pack_spec(self@),
    {
        match self {
            ResourceId::Num(num) => Packed::Word(*num as usize),
            ResourceId::String { wide, .. } => Packed::Text(wide.as_slice()),
        }
    }

    /// The identifier that is the number `num`.
    pub fn from_num(num: u16) -> (id: ResourceId)
        ensures
            id@ == IdModel::Num(num),
            id.wf(),
    {
        ResourceId::Num(num)
    }

    /// The identifier as text: a number in decimal, a name as it is.
    pub fn to_string(&self) -> (text: String)
        ensures
            text@ == match self@ {
                IdModel::Num(num) => decimal(num as nat),
                IdModel::String { wide, utf8 } => utf8,
            },
    {
        match self {
            ResourceId::Num(num) => u32_to_decimal(*num as u32),
            ResourceId::String { utf8, .. } => utf8.clone(),
        }
    }
}

/// Reads the number that the digits in `units` denote.
fn parse_ordinal(units: &[u16]) -> (result: Option<u16>)
    ensures
        result == ordinal_of(units@.map_values(|u: u16| unit_char(u))),
{
    let ghost text = units@.map_values(|u: u16| unit_char(u));
    if units.len() == 0 {
        return None;
    }
    let mut value: u32 = 0;
    let mut i: usize = 0;
    while i < units.len()
        invariant
            text == units@.map_values(|u: u16| unit_char(u)),
            0 <= i <= units.len(),
            value <= 0xFFFF,
            value == digits_value(text.take(i as int)),
            forall|j: int| 0 <= j < i ==> is_digit(#[trigger] text[j]),
        decreases units.len() - i,
    {
        let unit: u16 = units[i];
        if unit < 0x30 || unit > 0x39 {
            assert(!is_digit(text[i as int]));
            return None;
        }
        proof {
            assert(text.take(i + 1).drop_last() == text.take(i as int));
            assert(text.take(i + 1).last() == text[i as int]);
        }
        value = 10 * value + (unit - 0x30) as u32;
        if value > 0xFFFF {
            proof {
                lemma_digits_value_prefix(text, i + 1);
            }
            return None;
        }
        i += 1;
    }
    proof {
        assert(text.take(units.len() as int) == text);
    }
    Some(value as u16)
}

/// The value of a string of digits is at least the value of each prefix.
proof fn lemma_digits_value_prefix(s: Seq<char>, k: int)
    requires
        0 <= k <= s.len(),
    ensures
        digits_value(s.take(k)) <= digits_value(s),
    decreases s.len(),
{
    if k == s.len() {
        assert(s.take(k) == s);
    } else {
        lemma_digits_value_prefix(s.drop_last(), k);
        assert(s.drop_last().take(k) == s.take(k));
    }
}

/// A number handed over as a word is read back as that number, whatever
/// lies in memory.
pub proof fn lemma_parse_number(num: u16, pointee: Seq<u16>)
    ensures
        parse_spec(num as usize, pointee) == Ok::<IdModel, Seq<char>>(IdModel::Num(num)),
{
    assert((num as usize) >> 16 == 0 && ((num as usize) & 0xffff) as u16 == num) by (bit_vector);
}

/// An identifier that is handed to the system and read back is the same
/// identifier: the same number, or the same name with the same units. This
/// holds of every identifier that a module can hold but a name that starts
/// with `#`, and at whatever address the name's units lie.
pub proof fn lemma_pack_then_parse(id: ResourceId, word: usize, pointee: Seq<u16>)
    requires
        id.wf(),
        !id.is_hash_name(),
        carries(word, pointee, pack_spec(id@)),
    ensures
        parse_spec(word, pointee) == Ok::<IdModel, Seq<char>>(id@),
{
    match id {
        ResourceId::Num(num) => {
            lemma_parse_number(num, pointee);
        },
        ResourceId::String { wide, utf8 } => {
            let len = wide@.len() - 1;
            lemma_text_len(wide@, 0u16);
            assert(pointee[len] == pointee.take(wide@.len() as int)[len]);
            assert forall|i: int| 0 <= i < len implies pointee[i] != 0u16 by {
                assert(pointee[i] == pointee.take(wide@.len() as int)[i]);
            }
            lemma_text_len_unique(pointee, 0u16, len);
            assert(wide_text(pointee) == wide_text(wide@));
            assert(pointee.take(len).push(0u16) == wide@);
        },
    }
}

} // verus!
