//! A reader for the protobuf wire format: base-128 varints, field keys and
//! length-delimited values.
use vstd::prelude::*;
use vstd::slice::slice_subrange;

verus! {

/// Why protobuf data could not be read.
#[derive(Clone, Copy, Debug, PartialEq, Eq)]
pub enum ProtoError {
    /// The data ends inside a varint.
    Truncated,
    /// A varint runs on past ten bytes.
    BadVarint,
    /// A length does not fit in the address space.
    LengthOverflow,
    /// A length or fixed-size value reaches past the end of the data.
    LengthTruncated,
    /// A field has a wire type other than 0, 1, 2 or 5.
    UnsupportedWireType,
    /// A text field is not valid UTF-8.
    InvalidUtf8,
}

/// The message shown to the user for a protobuf error.
pub open spec fn proto_error_text(e: ProtoError) -> Seq<char> {
    match e {
        ProtoError::Truncated => "Google 导出 protobuf 数据不完整"@,
        ProtoError::BadVarint => "Google 导出 protobuf varint 无效"@,
        ProtoError::LengthOverflow => "Google 导出 protobuf 长度溢出"@,
        ProtoError::LengthTruncated => "Google 导出 protobuf 数据长度不完整"@,
        ProtoError::UnsupportedWireType => "Google 导出 protobuf 包含不支持的 wire type"@,
        ProtoError::InvalidUtf8 => "Google 导出数据包含无效 UTF-8"@,
    }
}

impl ProtoError {
    /// The message shown to the user.
    pub fn message(&self) -> (m: String)
        ensures
            m@ == proto_error_text(*self),
    {
        match self {
            ProtoError::Truncated => "Google 导出 protobuf 数据不完整".to_string(),
            ProtoError::BadVarint => "Google 导出 protobuf varint 无效".to_string(),
            ProtoError::LengthOverflow => "Google 导出 protobuf 长度溢出".to_string(),
            ProtoError::LengthTruncated => "Google 导出 protobuf 数据长度不完整".to_string(),
            ProtoError::UnsupportedWireType => "Google 导出 protobuf 包含不支持的 wire type".to_string(),
            ProtoError::InvalidUtf8 => "Google 导出数据包含无效 UTF-8".to_string(),
        }
    }
}

/// Reading the varint at `pos`, having read `i` of its bytes into `acc`:
/// each byte gives seven bits, lowest group first (bits past 64 dropped),
/// and a clear high bit ends the varint; a tenth byte with its high bit set
/// is an error. The second component counts the bytes read.
pub open spec fn varint_from(b: Seq<u8>, pos: int, i: nat, acc: u64) -> (Result<u64, ProtoError>, nat)
    decreases 10 - i,
{
    if pos + i >= b.len() {
        (Err(ProtoError::Truncated), i)
    } else {
        let byte = b[pos + i];
        let acc2 = acc | (((byte & 0x7f) as u64) << ((7 * i) as u64));
        if byte & 0x80 == 0 {
            (Ok(acc2), i + 1)
        } else if 7 * (i + 1) >= 64 {
            (Err(ProtoError::BadVarint), i + 1)
        } else {
            varint_from(b, pos, i + 1, acc2)
        }
    }
}

/// The varint at `pos` and the number of bytes read for it.
pub open spec fn varint_at(b: Seq<u8>, pos: int) -> (Result<u64, ProtoError>, nat) {
    varint_from(b, pos, 0, 0)
}

/// One field of a message.
pub ghost struct Field {
    pub number: u32,
    pub wire_type: u8,
    /// The value of a varint field.
    pub varint: u64,
    /// The bytes of a length-delimited field.
    pub bytes: Seq<u8>,
}

/// `n` bytes from `pos` on, as a position past them.
pub open spec fn skip_at(b: Seq<u8>, pos: int, n: int) -> Result<int, ProtoError> {
    if pos + n > usize::MAX {
        Err(ProtoError::LengthOverflow)
    } else if pos + n > b.len() {
        Err(ProtoError::LengthTruncated)
    } else {
        Ok(pos + n)
    }
}

/// A length-delimited value at `pos`: its bytes and the position past it.
pub open spec fn delimited_at(b: Seq<u8>, pos: int) -> Result<(Seq<u8>, int), ProtoError> {
    match varint_at(b, pos) {
        (Err(e), _) => Err(e),
        (Ok(len), n) => match skip_at(b, pos + n, (len as usize) as int) {
            Err(e) => Err(e),
            Ok(end) => Ok((b.subrange(pos + n, end), end)),
        },
    }
}

/// The value of a field of wire type `wt` at `pos` (its varint, its bytes)
/// and the position past it.
pub open spec fn value_at(b: Seq<u8>, pos: int, wt: u8) -> Result<(u64, Seq<u8>, int), ProtoError> {
    if wt == 0 {
        match varint_at(b, pos) {
            (Err(e), _) => Err(e),
            (Ok(v), n) => Ok((v, Seq::<u8>::empty(), pos + n)),
        }
    } else if wt == 1 {
        match skip_at(b, pos, 8) {
            Err(e) => Err(e),
            Ok(p) => Ok((0u64, Seq::<u8>::empty(), p)),
        }
    } else if wt == 2 {
        match delimited_at(b, pos) {
            Err(e) => Err(e),
            Ok((bytes, p)) => Ok((0u64, bytes, p)),
        }
    } else if wt == 5 {
        match skip_at(b, pos, 4) {
            Err(e) => Err(e),
            Ok(p) => Ok((0u64, Seq::<u8>::empty(), p)),
        }
    } else {
        Err(ProtoError::UnsupportedWireType)
    }
}

/// The field at `pos` (key varint, then value) and the position past it.
pub open spec fn field_at(b: Seq<u8>, pos: int) -> Result<(Field, int), ProtoError> {
    match varint_at(b, pos) {
        (Err(e), _) => Err(e),
        (Ok(key), n) => {
            let number = (key >> 3) as u32;
            let wt = (key & 7) as u8;
            match value_at(b, pos + n, wt) {
                Err(e) => Err(e),
                Ok((v, bytes, p)) => Ok(
                    (Field { number, wire_type: wt, varint: v, bytes }, p),
                ),
            }
        },
    }
}

proof fn lemma_varint_from_reads(b: Seq<u8>, pos: int, i: nat, acc: u64)
    requires
        0 <= pos,
    ensures
        varint_from(b, pos, i, acc).1 >= i,
        varint_from(b, pos, i, acc).0 is Ok ==> varint_from(b, pos, i, acc).1 >= i + 1
            && pos + varint_from(b, pos, i, acc).1 <= b.len(),
        varint_from(b, pos, i, acc).0 matches Err(e) ==> (e == ProtoError::Truncated
            || e == ProtoError::BadVarint),
    decreases 10 - i,
{
    if pos + i < b.len() {
        let byte = b[pos + i];
        let acc2 = acc | (((byte & 0x7f) as u64) << ((7 * i) as u64));
        if byte & 0x80 != 0 && 7 * (i + 1) < 64 {
            lemma_varint_from_reads(b, pos, i + 1, acc2);
        }
    }
}

/// A field read successfully moves past at least one byte, and stays
/// within the data.
pub proof fn lemma_field_advances(b: Seq<u8>, pos: int)
    requires
        0 <= pos <= b.len(),
    ensures
        field_at(b, pos) matches Ok((f, p)) ==> pos < p <= b.len(),
{
    lemma_varint_from_reads(b, pos, 0, 0);
    if let (Ok(key), n) = varint_at(b, pos) {
        let wt = (key & 7) as u8;
        lemma_varint_from_reads(b, pos + n, 0, 0);
    }
}

/// A cursor over protobuf data.
pub struct ProtoCursor<'a> {
    bytes: &'a [u8],
    pos: usize,
}

impl<'a> ProtoCursor<'a> {
    #[verifier::type_invariant]
    spec fn inv(self) -> bool {
        self.pos <= self.bytes@.len()
    }

    /// The data the cursor reads.
    pub closed spec fn data(self) -> Seq<u8> {
        self.bytes@
    }

    /// The position of the next byte to read.
    pub closed spec fn position(self) -> int {
        self.pos as int
    }

    /// A cursor at the start of `bytes`.
    pub fn new(bytes: &'a [u8]) -> (c: Self)
        ensures
            c.data() == bytes@,
            c.position() == 0,
            0 <= c.position() <= c.data().len(),
    {
        ProtoCursor { bytes, pos: 0 }
    }

    /// Whether every byte has been read.
    pub fn is_done(&self) -> (r: bool)
        ensures
            r == (self.position() >= self.data().len()),
    {
        self.pos >= self.bytes.len()
    }

    /// Reads a varint.
    pub fn read_varint(&mut self) -> (r: Result<u64, ProtoError>)
        ensures
            final(self).data() == old(self).data(),
            0 <= final(self).position() <= final(self).data().len(),
            r == varint_at(old(self).data(), old(self).position()).0,
            final(self).position() == old(self).position() + varint_at(
                old(self).data(),
                old(self).position(),
            ).1,
    {
        proof {
            use_type_invariant(&*self);
        }
        let ghost b = self.bytes@;
        let ghost start = self.pos as int;
        let mut result: u64 = 0;
        let mut shift: u32 = 0;
        let ghost mut i: nat = 0;
        loop
            invariant
                self.bytes@ == b,
                b == old(self).bytes@,
                start == old(self).pos,
                self.pos <= b.len(),
                self.pos == start + i,
                shift == 7 * i,
                i <= 9,
                varint_at(b, start) == varint_from(b, start, i, result),
            decreases 9 - i,
        {
            if self.pos >= self.bytes.len() {
                return Err(ProtoError::Truncated);
            }
            let byte = self.bytes[self.pos];
            self.pos = self.pos + 1;
            result = result | (((byte & 0x7f) as u64) << (shift as u64));
            if byte & 0x80 == 0 {
                return Ok(result);
            }
            shift = shift + 7;
            if shift >= 64 {
                return Err(ProtoError::BadVarint);
            }
            proof {
                i = i + 1;
            }
        }
    }

    /// Reads a field key: the field number and the wire type.
    pub fn read_key(&mut self) -> (r: Result<(u32, u8), ProtoError>)
        ensures
            final(self).data() == old(self).data(),
            0 <= final(self).position() <= final(self).data().len(),
            varint_at(old(self).data(), old(self).position()) matches (Ok(key), n) ==> r == Ok::<
                (u32, u8),
                ProtoError,
            >(((key >> 3) as u32, (key & 7) as u8)) && final(self).position() == old(
                self,
            ).position() + n,
            varint_at(old(self).data(), old(self).position()) matches (Err(e), n) ==> r == Err::<
                (u32, u8),
                ProtoError,
            >(e) && final(self).position() == old(self).position() + n,
    {
        let key = self.read_varint()?;
        Ok(((key >> 3) as u32, (key & 7) as u8))
    }

    /// Moves past `len` bytes.
    pub fn skip_bytes(&mut self, len: usize) -> (r: Result<(), ProtoError>)
        ensures
            final(self).data() == old(self).data(),
            0 <= final(self).position() <= final(self).data().len(),
            skip_at(old(self).data(), old(self).position(), len as int) matches Ok(p) ==> r is Ok
                && final(self).position() == p,
            skip_at(old(self).data(), old(self).position(), len as int) matches Err(e) ==> r
                == Err::<(), ProtoError>(e),
    {
        proof {
            use_type_invariant(&*self);
        }
        let end = match self.pos.checked_add(len) {
            Some(end) => end,
            None => return Err(ProtoError::LengthOverflow),
        };
        if end > self.bytes.len() {
            return Err(ProtoError::LengthTruncated);
        }
        self.pos = end;
        Ok(())
    }

    /// Reads a length-delimited value.
    pub fn read_length_delimited(&mut self) -> (r: Result<&'a [u8], ProtoError>)
        ensures
            final(self).data() == old(self).data(),
            0 <= final(self).position() <= final(self).data().len(),
            delimited_at(old(self).data(), old(self).position()) matches Ok((v, p)) ==> r matches Ok(
                s,
            ) && s@ == v && final(self).position() == p,
            delimited_at(old(self).data(), old(self).position()) matches Err(e) ==> r == Err::<
                &'a [u8],
                ProtoError,
            >(e),
    {
        let len = self.read_varint()? as usize;
        proof {
            use_type_invariant(&*self);
        }
        let end = match self.pos.checked_add(len) {
            Some(end) => end,
            None => return Err(ProtoError::LengthOverflow),
        };
        if end > self.bytes.len() {
            return Err(ProtoError::LengthTruncated);
        }
        let value = slice_subrange(self.bytes, self.pos, end);
        self.pos = end;
        Ok(value)
    }

    /// Moves past a value of wire type `wire_type`.
    pub fn skip(&mut self, wire_type: u8) -> (r: Result<(), ProtoError>)
        ensures
            final(self).data() == old(self).data(),
            0 <= final(self).position() <= final(self).data().len(),
            value_at(old(self).data(), old(self).position(), wire_type) matches Ok((_, _, p)) ==> r
                is Ok && final(self).position() == p,
            value_at(old(self).data(), old(self).position(), wire_type) matches Err(e) ==> r
                == Err::<(), ProtoError>(e),
    {
        proof {
            use_type_invariant(&*self);
        }
        if wire_type == 0 {
            self.read_varint()?;
            Ok(())
        } else if wire_type == 1 {
            self.skip_bytes(8)
        } else if wire_type == 2 {
            let len = self.read_varint()? as usize;
            self.skip_bytes(len)
        } else if wire_type == 5 {
            self.skip_bytes(4)
        } else {
            Err(ProtoError::UnsupportedWireType)
        }
    }
}

} // verus!
