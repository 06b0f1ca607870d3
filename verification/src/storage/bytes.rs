//! Reading and writing of binary records: little-endian numbers, and texts and byte strings with
//! their length before them.
use vstd::prelude::*;
use vstd::string::StringSliceAdditionalSpecFns;
use vstd::utf8::decode_utf8;
use vstd::utf8::encode_utf8;
use vstd::utf8::encode_utf8_decode_utf8;
use vstd::utf8::encode_utf8_valid_utf8;
use vstd::utf8::valid_utf8;

use crate::text::utf8_text;

verus! {

/// The bytes of a number, the lowest first.
pub open spec fn le(value: nat, width: nat) -> Seq<u8>
    decreases width,
{
    if width == 0 {
        Seq::empty()
    } else {
        seq![(value % 256) as u8] + le(value / 256, (width - 1) as nat)
    }
}

/// The number whose bytes these are, the lowest first.
pub open spec fn from_le(bytes: Seq<u8>) -> nat
    decreases bytes.len(),
{
    if bytes.len() == 0 {
        0
    } else {
        bytes[0] as nat + 256 * from_le(bytes.drop_first())
    }
}

/// How many numbers some bytes can stand for.
pub open spec fn le_bound(width: nat) -> nat
    decreases width,
{
    if width == 0 {
        1
    } else {
        256 * le_bound((width - 1) as nat)
    }
}

/// The bounds of the widths in use.
pub proof fn le_bounds()
    ensures
        le_bound(2) == 0x1_0000,
        le_bound(4) == 0x1_0000_0000,
        le_bound(8) == 0x1_0000_0000_0000_0000,
{
    reveal_with_fuel(le_bound, 9);
}

/// A number has as many bytes as it is wide, and reading them gives the number back.
pub proof fn le_round_trip(value: nat, width: nat)
    ensures
        le(value, width).len() == width,
        value < le_bound(width) ==> from_le(le(value, width)) == value,
    decreases width,
{
    if width > 0 {
        let rest = le(value / 256, (width - 1) as nat);
        le_round_trip(value / 256, (width - 1) as nat);
        assert(le(value, width).drop_first() =~= rest);
        if value < le_bound(width) {
            assert(value / 256 < le_bound((width - 1) as nat)) by (nonlinear_arith)
                requires
                    value < 256 * le_bound((width - 1) as nat),
            ;
        }
    }
}

/// What bytes stand for is within the bound of their number.
pub proof fn from_le_bounded(bytes: Seq<u8>)
    ensures
        from_le(bytes) < le_bound(bytes.len()),
    decreases bytes.len(),
{
    if bytes.len() > 0 {
        from_le_bounded(bytes.drop_first());
        assert(bytes[0] as nat + 256 * from_le(bytes.drop_first()) < 256 * le_bound(
            (bytes.len() - 1) as nat,
        )) by (nonlinear_arith)
            requires
                bytes[0] < 256,
                from_le(bytes.drop_first()) + 1 <= le_bound((bytes.len() - 1) as nat),
        ;
    }
}

/// A text with its length before it.
pub open spec fn text_bytes(text: Seq<char>) -> Seq<u8> {
    le(encode_utf8(text).len(), 4) + encode_utf8(text)
}

/// A byte string with its length before it.
pub open spec fn block_bytes(block: Seq<u8>) -> Seq<u8> {
    le(block.len(), 4) + block
}

/// A truth value.
pub open spec fn bool_bytes(value: bool) -> Seq<u8> {
    if value {
        seq![1u8]
    } else {
        seq![0u8]
    }
}

/// A number that may be absent.
pub open spec fn opt_bytes(value: Option<nat>, width: nat) -> Seq<u8> {
    match value {
        Some(value) => seq![1u8] + le(value, width),
        None => seq![0u8],
    }
}

/// A number that may be absent, as a natural number.
pub open spec fn opt_u32_nat(value: Option<u32>) -> Option<nat> {
    match value {
        Some(value) => Some(value as nat),
        None => None,
    }
}

/// A number that may be absent, as a natural number.
pub open spec fn opt_u64_nat(value: Option<u64>) -> Option<nat> {
    match value {
        Some(value) => Some(value as nat),
        None => None,
    }
}

/// A text that may be absent.
pub open spec fn opt_text_bytes(text: Option<Seq<char>>) -> Seq<u8> {
    match text {
        Some(text) => seq![1u8] + text_bytes(text),
        None => seq![0u8],
    }
}

/// A text is short enough for its length to be written.
pub open spec fn text_fits(text: Seq<char>) -> bool {
    encode_utf8(text).len() <= u32::MAX
}

/// A text that may be absent is short enough for its length to be written.
pub open spec fn opt_text_fits(text: Option<Seq<char>>) -> bool {
    text matches Some(text) ==> text_fits(text)
}

/// The bytes of a record as it is written.
pub struct Writer {
    pub bytes: Vec<u8>,
}

impl Writer {
    /// An empty record.
    pub fn new() -> (result: Self)
        ensures
            result.bytes@ == Seq::<u8>::empty(),
    {
        Writer { bytes: Vec::new() }
    }

    fn le_number(&mut self, value: u64, width: usize)
        ensures
            final(self).bytes@ == old(self).bytes@ + le(value as nat, width as nat),
    {
        let ghost start = self.bytes@;
        let mut rest: u64 = value;
        let mut left: usize = width;
        assert(self.bytes@ + le(rest as nat, left as nat) =~= start + le(
            value as nat,
            width as nat,
        ));
        while left > 0
            invariant
                self.bytes@ + le(rest as nat, left as nat) == start + le(
                    value as nat,
                    width as nat,
                ),
            decreases left,
        {
            let ghost before = self.bytes@;
            let ghost tail = le((rest / 256) as nat, (left - 1) as nat);
            self.bytes.push((rest % 256) as u8);
            assert(before + (seq![(rest % 256) as u8] + tail) =~= self.bytes@ + tail);
            rest = rest / 256;
            left = left - 1;
        }
        assert(self.bytes@ + le(rest as nat, 0) =~= self.bytes@);
    }

    /// Writes a byte.
    pub fn u8(&mut self, value: u8)
        ensures
            final(self).bytes@ == old(self).bytes@ + seq![value],
    {
        let ghost before = self.bytes@;
        self.bytes.push(value);
        assert(self.bytes@ =~= before + seq![value]);
    }

    /// Writes a truth value.
    pub fn bool(&mut self, value: bool)
        ensures
            final(self).bytes@ == old(self).bytes@ + bool_bytes(value),
    {
        if value {
            self.u8(1);
        } else {
            self.u8(0);
        }
    }

    /// Writes a number.
    pub fn u16(&mut self, value: u16)
        ensures
            final(self).bytes@ == old(self).bytes@ + le(value as nat, 2),
    {
        self.le_number(value as u64, 2);
    }

    /// Writes a number.
    pub fn u32(&mut self, value: u32)
        ensures
            final(self).bytes@ == old(self).bytes@ + le(value as nat, 4),
    {
        self.le_number(value as u64, 4);
    }

    /// Writes a number.
    pub fn u64(&mut self, value: u64)
        ensures
            final(self).bytes@ == old(self).bytes@ + le(value as nat, 8),
    {
        self.le_number(value, 8);
    }

    /// Writes a length, if it fits.
    pub fn len(&mut self, value: usize) -> (result: bool)
        ensures
            result == (value <= u32::MAX),
            result ==> final(self).bytes@ == old(self).bytes@ + le(value as nat, 4),
    {
        if value > u32::MAX as usize {
            return false;
        }
        self.u32(value as u32);
        true
    }

    /// Writes a number that may be absent.
    pub fn opt_u32(&mut self, value: Option<u32>)
        ensures
            final(self).bytes@ == old(self).bytes@ + opt_bytes(opt_u32_nat(value), 4),
    {
        let ghost before = self.bytes@;
        match value {
            Some(number) => {
                self.u8(1);
                self.u32(number);
                assert(self.bytes@ =~= before + (seq![1u8] + le(number as nat, 4)));
            },
            None => self.u8(0),
        }
    }

    /// Writes a number that may be absent.
    pub fn opt_u64(&mut self, value: Option<u64>)
        ensures
            final(self).bytes@ == old(self).bytes@ + opt_bytes(opt_u64_nat(value), 8),
    {
        let ghost before = self.bytes@;
        match value {
            Some(number) => {
                self.u8(1);
                self.u64(number);
                assert(self.bytes@ =~= before + (seq![1u8] + le(number as nat, 8)));
            },
            None => self.u8(0),
        }
    }

    /// Writes a byte string with its length, if the length fits.
    pub fn block(&mut self, block: &[u8]) -> (result: bool)
        ensures
            result == (block@.len() <= u32::MAX),
            result ==> final(self).bytes@ == old(self).bytes@ + block_bytes(block@),
    {
        let ghost before = self.bytes@;
        if !self.len(block.len()) {
            return false;
        }
        self.bytes.extend_from_slice(block);
        assert(self.bytes@ =~= before + block_bytes(block@));
        true
    }

    /// Writes a text with its length, if the length fits.
    pub fn string(&mut self, text: &str) -> (result: bool)
        ensures
            result == text_fits(text@),
            result ==> final(self).bytes@ == old(self).bytes@ + text_bytes(text@),
    {
        self.block(text.as_bytes())
    }

    /// Writes a text that may be absent, if its length fits.
    pub fn opt_string(&mut self, text: &Option<String>) -> (result: bool)
        ensures
            result == opt_text_fits(text.deep_view()),
            result ==> final(self).bytes@ == old(self).bytes@ + opt_text_bytes(text.deep_view()),
    {
        let ghost before = self.bytes@;
        match text {
            Some(text) => {
                self.u8(1);
                if !self.string(text.as_str()) {
                    return false;
                }
                assert(self.bytes@ =~= before + (seq![1u8] + text_bytes(text@)));
                true
            },
            None => {
                self.u8(0);
                true
            },
        }
    }
}

/// What is read of some bytes, and what is left; or what is wrong.
pub type Parse<T> = Result<(T, Seq<u8>), Seq<char>>;

/// The bytes end too early.
pub open spec fn ended() -> Seq<char> {
    "unexpected end of PBIN record"@
}

/// Reads some bytes.
pub open spec fn parse_take(bytes: Seq<u8>, count: nat) -> Parse<Seq<u8>> {
    if count <= bytes.len() {
        Ok((bytes.take(count as int), bytes.skip(count as int)))
    } else {
        Err(ended())
    }
}

/// Reads a byte.
pub open spec fn parse_u8(bytes: Seq<u8>) -> Parse<u8> {
    if bytes.len() == 0 {
        Err(ended())
    } else {
        Ok((bytes[0], bytes.skip(1)))
    }
}

/// Reads a truth value.
pub open spec fn parse_bool(bytes: Seq<u8>) -> Parse<bool> {
    match parse_u8(bytes) {
        Err(error) => Err(error),
        Ok((byte, rest)) => if byte <= 1 {
            Ok((byte == 1, rest))
        } else {
            Err("invalid PBIN boolean"@)
        },
    }
}

/// Reads a number.
#[verifier::opaque]
pub open spec fn parse_le(bytes: Seq<u8>, width: nat) -> Parse<nat> {
    match parse_take(bytes, width) {
        Err(error) => Err(error),
        Ok((taken, rest)) => Ok((from_le(taken), rest)),
    }
}

/// Reads a number.
pub open spec fn parse_u16(bytes: Seq<u8>) -> Parse<u16> {
    match parse_le(bytes, 2) {
        Err(error) => Err(error),
        Ok((value, rest)) => Ok((value as u16, rest)),
    }
}

/// Reads a number.
pub open spec fn parse_u32(bytes: Seq<u8>) -> Parse<u32> {
    match parse_le(bytes, 4) {
        Err(error) => Err(error),
        Ok((value, rest)) => Ok((value as u32, rest)),
    }
}

/// Reads a number.
pub open spec fn parse_u64(bytes: Seq<u8>) -> Parse<u64> {
    match parse_le(bytes, 8) {
        Err(error) => Err(error),
        Ok((value, rest)) => Ok((value as u64, rest)),
    }
}

/// Reads a number that may be absent.
#[verifier::opaque]
pub open spec fn parse_opt_u32(bytes: Seq<u8>) -> Parse<Option<u32>> {
    match parse_bool(bytes) {
        Err(error) => Err(error),
        Ok((false, rest)) => Ok((None, rest)),
        Ok((true, rest)) => match parse_u32(rest) {
            Err(error) => Err(error),
            Ok((value, rest)) => Ok((Some(value), rest)),
        },
    }
}

/// Reads a number that may be absent.
#[verifier::opaque]
pub open spec fn parse_opt_u64(bytes: Seq<u8>) -> Parse<Option<u64>> {
    match parse_bool(bytes) {
        Err(error) => Err(error),
        Ok((false, rest)) => Ok((None, rest)),
        Ok((true, rest)) => match parse_u64(rest) {
            Err(error) => Err(error),
            Ok((value, rest)) => Ok((Some(value), rest)),
        },
    }
}

/// Reads how many items follow: no more than bytes follow.
#[verifier::opaque]
pub open spec fn parse_count(bytes: Seq<u8>) -> Parse<nat> {
    match parse_u32(bytes) {
        Err(error) => Err(error),
        Ok((count, rest)) => if count > rest.len() {
            Err("PBIN collection count exceeds frame"@)
        } else {
            Ok((count as nat, rest))
        },
    }
}

/// Reads a byte string.
#[verifier::opaque]
pub open spec fn parse_block(bytes: Seq<u8>) -> Parse<Seq<u8>> {
    match parse_u32(bytes) {
        Err(error) => Err(error),
        Ok((count, rest)) => parse_take(rest, count as nat),
    }
}

/// Reads a text.
#[verifier::opaque]
pub open spec fn parse_text(bytes: Seq<u8>) -> Parse<Seq<char>> {
    match parse_block(bytes) {
        Err(error) => Err(error),
        Ok((block, rest)) => if valid_utf8(block) {
            Ok((decode_utf8(block), rest))
        } else {
            Err("PBIN string is not UTF-8"@)
        },
    }
}

/// Reads a text that may be absent.
#[verifier::opaque]
pub open spec fn parse_opt_text(bytes: Seq<u8>) -> Parse<Option<Seq<char>>> {
    match parse_bool(bytes) {
        Err(error) => Err(error),
        Ok((false, rest)) => Ok((None, rest)),
        Ok((true, rest)) => match parse_text(rest) {
            Err(error) => Err(error),
            Ok((text, rest)) => Ok((Some(text), rest)),
        },
    }
}

/// A reading went as it should: what came out, and what is left.
pub open spec fn read_as<T: DeepView>(
    result: Result<T, &'static str>,
    rest: Seq<u8>,
    parse: Parse<T::V>,
) -> bool {
    match result {
        Ok(value) => parse == Ok::<(T::V, Seq<u8>), Seq<char>>((value.deep_view(), rest)),
        Err(message) => parse == Err::<(T::V, Seq<u8>), Seq<char>>(message@),
    }
}

/// The bytes of a record as it is read.
pub struct Reader<'a> {
    bytes: &'a [u8],
    index: usize,
}

impl<'a> Reader<'a> {
    /// The bytes that are left to read.
    pub closed spec fn rest(&self) -> Seq<u8> {
        self.bytes@.skip(self.index as int)
    }

    /// The reader stands within its bytes.
    pub closed spec fn inside(&self) -> bool {
        self.index <= self.bytes@.len()
    }

    /// A reader at the start of some bytes.
    pub fn new(bytes: &'a [u8]) -> (result: Self)
        ensures
            result.inside(),
            result.rest() == bytes@,
    {
        let result = Reader { bytes, index: 0 };
        assert(result.rest() =~= bytes@);
        result
    }

    /// Whether nothing is left; or that something is.
    pub fn finish(&self) -> (result: Result<(), &'static str>)
        requires
            self.inside(),
        ensures
            match result {
                Ok(()) => self.rest().len() == 0,
                Err(message) => self.rest().len() > 0 && message@
                    == "PBIN record contains trailing bytes"@,
            },
    {
        if self.index == self.bytes.len() {
            Ok(())
        } else {
            Err("PBIN record contains trailing bytes")
        }
    }

    /// Reads some bytes.
    pub fn take(&mut self, count: usize) -> (result: Result<&'a [u8], &'static str>)
        requires
            old(self).inside(),
        ensures
            final(self).inside(),
            match result {
                Ok(taken) => parse_take(old(self).rest(), count as nat) == Ok::<
                    (Seq<u8>, Seq<u8>),
                    Seq<char>,
                >((taken@, final(self).rest())),
                Err(message) => parse_take(old(self).rest(), count as nat) == Err::<
                    (Seq<u8>, Seq<u8>),
                    Seq<char>,
                >(message@),
            },
    {
        if count > self.bytes.len() - self.index {
            return Err("unexpected end of PBIN record");
        }
        let start: usize = self.index;
        let end: usize = start + count;
        let taken: &'a [u8] = vstd::slice::slice_subrange(self.bytes, start, end);
        let ghost before = self.rest();
        self.index = end;
        assert(taken@ =~= before.take(count as int));
        assert(self.rest() =~= before.skip(count as int));
        Ok(taken)
    }

    /// Reads a byte.
    pub fn u8(&mut self) -> (result: Result<u8, &'static str>)
        requires
            old(self).inside(),
        ensures
            final(self).inside(),
            read_as(result, final(self).rest(), parse_u8(old(self).rest())),
    {
        if self.index == self.bytes.len() {
            return Err("unexpected end of PBIN record");
        }
        let value: u8 = self.bytes[self.index];
        let ghost before = self.rest();
        self.index = self.index + 1;
        assert(self.rest() =~= before.skip(1));
        Ok(value)
    }

    /// Reads a truth value.
    pub fn bool(&mut self) -> (result: Result<bool, &'static str>)
        requires
            old(self).inside(),
        ensures
            final(self).inside(),
            read_as(result, final(self).rest(), parse_bool(old(self).rest())),
    {
        match self.u8()? {
            0 => Ok(false),
            1 => Ok(true),
            _ => Err("invalid PBIN boolean"),
        }
    }

    fn le_number(&mut self, width: usize) -> (result: Result<u64, &'static str>)
        requires
            old(self).inside(),
            width <= 8,
        ensures
            final(self).inside(),
            match result {
                Ok(value) => parse_le(old(self).rest(), width as nat) == Ok::<
                    (nat, Seq<u8>),
                    Seq<char>,
                >((value as nat, final(self).rest())),
                Err(message) => parse_le(old(self).rest(), width as nat) == Err::<
                    (nat, Seq<u8>),
                    Seq<char>,
                >(message@),
            },
    {
        proof {
            reveal(parse_le);
        }
        let taken: &'a [u8] = self.take(width)?;
        let mut value: u64 = 0;
        let mut index: usize = width;
        assert(taken@.skip(width as int) =~= Seq::<u8>::empty());
        while index > 0
            invariant
                index <= width <= 8,
                taken@.len() == width,
                value == from_le(taken@.skip(index as int)),
            decreases index,
        {
            let ghost tail = taken@.skip(index - 1);
            proof {
                assert(tail.drop_first() =~= taken@.skip(index as int));
                from_le_bounded(taken@.skip(index as int));
                reveal_with_fuel(le_bound, 9);
                assert(value < 0x100_0000_0000_0000);
            }
            index = index - 1;
            value = taken[index] as u64 + 256 * value;
        }
        assert(taken@.skip(0) =~= taken@);
        Ok(value)
    }

    /// Reads a number.
    pub fn u16(&mut self) -> (result: Result<u16, &'static str>)
        requires
            old(self).inside(),
        ensures
            final(self).inside(),
            read_as(result, final(self).rest(), parse_u16(old(self).rest())),
    {
        proof {
            reveal(parse_le);
        }
        let value: u64 = self.le_number(2)?;
        Ok(value as u16)
    }

    /// Reads a number.
    pub fn u32(&mut self) -> (result: Result<u32, &'static str>)
        requires
            old(self).inside(),
        ensures
            final(self).inside(),
            read_as(result, final(self).rest(), parse_u32(old(self).rest())),
    {
        proof {
            reveal(parse_le);
        }
        let value: u64 = self.le_number(4)?;
        Ok(value as u32)
    }

    /// Reads a number.
    pub fn u64(&mut self) -> (result: Result<u64, &'static str>)
        requires
            old(self).inside(),
        ensures
            final(self).inside(),
            read_as(result, final(self).rest(), parse_u64(old(self).rest())),
    {
        proof {
            reveal(parse_le);
        }
        let value: u64 = self.le_number(8)?;
        Ok(value)
    }

    /// Reads a number that may be absent.
    pub fn opt_u32(&mut self) -> (result: Result<Option<u32>, &'static str>)
        requires
            old(self).inside(),
        ensures
            final(self).inside(),
            read_as(result, final(self).rest(), parse_opt_u32(old(self).rest())),
    {
        proof {
            reveal(parse_opt_u32);
        }
        if self.bool()? {
            Ok(Some(self.u32()?))
        } else {
            Ok(None)
        }
    }

    /// Reads a number that may be absent.
    pub fn opt_u64(&mut self) -> (result: Result<Option<u64>, &'static str>)
        requires
            old(self).inside(),
        ensures
            final(self).inside(),
            read_as(result, final(self).rest(), parse_opt_u64(old(self).rest())),
    {
        proof {
            reveal(parse_opt_u64);
        }
        if self.bool()? {
            Ok(Some(self.u64()?))
        } else {
            Ok(None)
        }
    }

    /// Reads how many items follow.
    pub fn count(&mut self) -> (result: Result<usize, &'static str>)
        requires
            old(self).inside(),
        ensures
            final(self).inside(),
            match result {
                Ok(count) => parse_count(old(self).rest()) == Ok::<(nat, Seq<u8>), Seq<char>>(
                    (count as nat, final(self).rest()),
                ),
                Err(message) => parse_count(old(self).rest()) == Err::<(nat, Seq<u8>), Seq<char>>(
                    message@,
                ),
            },
    {
        proof {
            reveal(parse_count);
        }
        let count: u32 = self.u32()?;
        if count as usize > self.bytes.len() - self.index {
            return Err("PBIN collection count exceeds frame");
        }
        Ok(count as usize)
    }

    /// Reads a byte string.
    pub fn block(&mut self) -> (result: Result<&'a [u8], &'static str>)
        requires
            old(self).inside(),
        ensures
            final(self).inside(),
            match result {
                Ok(taken) => parse_block(old(self).rest()) == Ok::<(Seq<u8>, Seq<u8>), Seq<char>>(
                    (taken@, final(self).rest()),
                ),
                Err(message) => parse_block(old(self).rest()) == Err::<
                    (Seq<u8>, Seq<u8>),
                    Seq<char>,
                >(message@),
            },
    {
        proof {
            reveal(parse_block);
        }
        let count: u32 = self.u32()?;
        self.take(count as usize)
    }

    /// Reads a text.
    pub fn string(&mut self) -> (result: Result<String, &'static str>)
        requires
            old(self).inside(),
        ensures
            final(self).inside(),
            read_as(result, final(self).rest(), parse_text(old(self).rest())),
    {
        proof {
            reveal(parse_text);
        }
        let block: &'a [u8] = self.block()?;
        match utf8_text(block) {
            Some(text) => Ok(text),
            None => Err("PBIN string is not UTF-8"),
        }
    }

    /// Reads a text that may be absent.
    pub fn opt_string(&mut self) -> (result: Result<Option<String>, &'static str>)
        requires
            old(self).inside(),
        ensures
            final(self).inside(),
            read_as(result, final(self).rest(), parse_opt_text(old(self).rest())),
    {
        proof {
            reveal(parse_opt_text);
        }
        if self.bool()? {
            Ok(Some(self.string()?))
        } else {
            Ok(None)
        }
    }
}

/// Reading some bytes back.
pub proof fn take_back(head: Seq<u8>, tail: Seq<u8>)
    ensures
        parse_take(head + tail, head.len()) == Ok::<(Seq<u8>, Seq<u8>), Seq<char>>((head, tail)),
{
    assert((head + tail).take(head.len() as int) =~= head);
    assert((head + tail).skip(head.len() as int) =~= tail);
}

/// Reading a byte back.
pub proof fn u8_back(value: u8, tail: Seq<u8>)
    ensures
        parse_u8(seq![value] + tail) == Ok::<(u8, Seq<u8>), Seq<char>>((value, tail)),
{
    assert((seq![value] + tail).skip(1) =~= tail);
}

/// Reading a truth value back.
pub proof fn bool_back(value: bool, tail: Seq<u8>)
    ensures
        parse_bool(bool_bytes(value) + tail) == Ok::<(bool, Seq<u8>), Seq<char>>((value, tail)),
{
    u8_back(if value {
        1
    } else {
        0
    }, tail);
}

/// Reading a number back.
pub proof fn le_back(value: nat, width: nat, tail: Seq<u8>)
    requires
        value < le_bound(width),
    ensures
        parse_le(le(value, width) + tail, width) == Ok::<(nat, Seq<u8>), Seq<char>>((value, tail)),
{
    reveal(parse_le);
    le_round_trip(value, width);
    take_back(le(value, width), tail);
}

/// Reading numbers back.
pub proof fn u16_back(value: u16, tail: Seq<u8>)
    ensures
        parse_u16(le(value as nat, 2) + tail) == Ok::<(u16, Seq<u8>), Seq<char>>((value, tail)),
{
    le_bounds();
    le_back(value as nat, 2, tail);
}

/// Reading numbers back.
pub proof fn u32_back(value: u32, tail: Seq<u8>)
    ensures
        parse_u32(le(value as nat, 4) + tail) == Ok::<(u32, Seq<u8>), Seq<char>>((value, tail)),
{
    le_bounds();
    le_back(value as nat, 4, tail);
}

/// Reading numbers back.
pub proof fn u64_back(value: u64, tail: Seq<u8>)
    ensures
        parse_u64(le(value as nat, 8) + tail) == Ok::<(u64, Seq<u8>), Seq<char>>((value, tail)),
{
    le_bounds();
    le_back(value as nat, 8, tail);
}

/// Reading a number that may be absent back.
pub proof fn opt_u32_back(value: Option<u32>, tail: Seq<u8>)
    ensures
        parse_opt_u32(opt_bytes(opt_u32_nat(value), 4) + tail) == Ok::<
            (Option<u32>, Seq<u8>),
            Seq<char>,
        >((value, tail)),
{
    reveal(parse_opt_u32);
    match value {
        Some(number) => {
            let rest = le(number as nat, 4) + tail;
            assert(opt_bytes(opt_u32_nat(value), 4) + tail =~= bool_bytes(true) + rest);
            bool_back(true, rest);
            u32_back(number, tail);
        },
        None => bool_back(false, tail),
    }
}

/// Reading a number that may be absent back.
pub proof fn opt_u64_back(value: Option<u64>, tail: Seq<u8>)
    ensures
        parse_opt_u64(opt_bytes(opt_u64_nat(value), 8) + tail) == Ok::<
            (Option<u64>, Seq<u8>),
            Seq<char>,
        >((value, tail)),
{
    reveal(parse_opt_u64);
    match value {
        Some(number) => {
            let rest = le(number as nat, 8) + tail;
            assert(opt_bytes(opt_u64_nat(value), 8) + tail =~= bool_bytes(true) + rest);
            bool_back(true, rest);
            u64_back(number, tail);
        },
        None => bool_back(false, tail),
    }
}

/// Reading how many items follow back.
pub proof fn count_back(value: nat, tail: Seq<u8>)
    requires
        value <= u32::MAX,
        value <= tail.len(),
    ensures
        parse_count(le(value, 4) + tail) == Ok::<(nat, Seq<u8>), Seq<char>>((value, tail)),
{
    reveal(parse_count);
    u32_back(value as u32, tail);
}

/// Reading a byte string back.
pub proof fn block_back(block: Seq<u8>, tail: Seq<u8>)
    requires
        block.len() <= u32::MAX,
    ensures
        parse_block(block_bytes(block) + tail) == Ok::<(Seq<u8>, Seq<u8>), Seq<char>>(
            (block, tail),
        ),
{
    reveal(parse_block);
    assert(block_bytes(block) + tail =~= le(block.len(), 4) + (block + tail));
    u32_back(block.len() as u32, block + tail);
    take_back(block, tail);
}

/// Reading a text back.
pub proof fn text_back(text: Seq<char>, tail: Seq<u8>)
    requires
        text_fits(text),
    ensures
        parse_text(text_bytes(text) + tail) == Ok::<(Seq<char>, Seq<u8>), Seq<char>>((text, tail)),
{
    reveal(parse_text);
    block_back(encode_utf8(text), tail);
    encode_utf8_valid_utf8(text);
    encode_utf8_decode_utf8(text);
}

/// Reading a text that may be absent back.
pub proof fn opt_text_back(text: Option<Seq<char>>, tail: Seq<u8>)
    requires
        opt_text_fits(text),
    ensures
        parse_opt_text(opt_text_bytes(text) + tail) == Ok::<
            (Option<Seq<char>>, Seq<u8>),
            Seq<char>,
        >((text, tail)),
{
    reveal(parse_opt_text);
    match text {
        Some(inner) => {
            let rest = text_bytes(inner) + tail;
            assert(opt_text_bytes(text) + tail =~= bool_bytes(true) + rest);
            bool_back(true, rest);
            text_back(inner, tail);
        },
        None => bool_back(false, tail),
    }
}

} // verus!
