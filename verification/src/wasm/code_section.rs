//! Function bodies of the code section.

use vstd::prelude::*;
use crate::wasm::error::Error;
use crate::wasm::reader::ByteReader;
use crate::wasm::varint::{decode_u32_at, lemma_decode_u32_bounds, spec_decode_u32};

verus! {

/// The type of a local variable, as the binary format numbers it.
#[derive(Clone, Copy, Debug, PartialEq, Eq, Structural)]
pub enum ValueKind {
    I32,
    I64,
    F32,
    F64,
    V128,
    FuncRef,
    ExternRef,
}

/// One entry of a function body's local declarations: `count` locals of one
/// kind. `consumed` is the number of bytes that the count took in the input.
#[derive(Clone, Copy, Debug, PartialEq, Eq, Structural)]
pub struct LocalGroup {
    pub count: u32,
    pub consumed: u8,
    pub kind: ValueKind,
}

/// A decoded function body: one kind for each local, in declaration order,
/// and room for the instructions.
#[derive(Debug)]
pub struct CodeBlock {
    pub locals: Box<[ValueKind]>,
    pub instructions: Vec<u8>,
}

/// The kind that a byte names, if any.
pub open spec fn spec_kind_of_byte(byte: u8) -> Option<ValueKind> {
    if byte == 0x7F {
        Some(ValueKind::I32)
    } else if byte == 0x7E {
        Some(ValueKind::I64)
    } else if byte == 0x7D {
        Some(ValueKind::F32)
    } else if byte == 0x7C {
        Some(ValueKind::F64)
    } else if byte == 0x7B {
        Some(ValueKind::V128)
    } else if byte == 0x70 {
        Some(ValueKind::FuncRef)
    } else if byte == 0x6F {
        Some(ValueKind::ExternRef)
    } else {
        None
    }
}

/// The value kind encoded at `at`: one byte.
pub open spec fn spec_decode_kind(bytes: Seq<u8>, at: int) -> Result<ValueKind, Error> {
    if !(0 <= at < bytes.len()) {
        Err(Error::UnexpectedEof)
    } else {
        match spec_kind_of_byte(bytes[at]) {
            Some(kind) => Ok(kind),
            None => Err(Error::InvalidValueKind(bytes[at])),
        }
    }
}

/// The local group encoded at `at`: a count, then a kind.
pub open spec fn spec_decode_local_group(bytes: Seq<u8>, at: int) -> Result<LocalGroup, Error> {
    match spec_decode_u32(bytes, at) {
        Err(e) => Err(e),
        Ok((count, consumed)) => match spec_decode_kind(bytes, at + consumed) {
            Err(e) => Err(e),
            Ok(kind) => Ok(LocalGroup { count, consumed, kind }),
        },
    }
}

/// The first `n` local groups encoded from `at` on, one behind the other, and
/// the place behind the last of them. The first group that fails to decode
/// gives its error to the whole.
pub open spec fn spec_local_groups(bytes: Seq<u8>, at: int, n: nat) -> Result<
    (Seq<LocalGroup>, int),
    Error,
>
    decreases n,
{
    if n == 0 {
        Ok((Seq::empty(), at))
    } else {
        match spec_local_groups(bytes, at, (n - 1) as nat) {
            Err(e) => Err(e),
            Ok((groups, end)) => match spec_decode_local_group(bytes, end) {
                Err(e) => Err(e),
                Ok(group) => Ok((groups.push(group), end + group.consumed + 1)),
            },
        }
    }
}

/// The vector of local groups encoded at `at`: the number of groups, then
/// the groups.
pub open spec fn spec_decode_local_groups(bytes: Seq<u8>, at: int) -> Result<
    (Seq<LocalGroup>, int),
    Error,
> {
    match spec_decode_u32(bytes, at) {
        Err(e) => Err(e),
        Ok((n, consumed)) => spec_local_groups(bytes, at + consumed, n as nat),
    }
}

/// The locals that the groups declare: each group's kind, `count` times, in
/// the order of the groups.
pub open spec fn spec_expand_locals(groups: Seq<LocalGroup>) -> Seq<ValueKind>
    decreases groups.len(),
{
    if groups.len() == 0 {
        Seq::empty()
    } else {
        spec_expand_locals(groups.drop_last()) + Seq::new(
            groups.last().count as nat,
            |i: int| groups.last().kind,
        )
    }
}

/// The bytes that the counts of the groups took in the input, added up.
pub open spec fn spec_counted_bytes(groups: Seq<LocalGroup>) -> nat
    decreases groups.len(),
{
    if groups.len() == 0 {
        0
    } else {
        spec_counted_bytes(groups.drop_last()) + groups.last().consumed as nat
    }
}

/// The function body encoded at `at`: the locals it declares and the place
/// behind its local declarations. The body states its size first; the
/// declarations may not account for more bytes than it states.
pub open spec fn spec_decode_code_section(bytes: Seq<u8>, at: int) -> Result<
    (Seq<ValueKind>, int),
    Error,
> {
    match spec_decode_u32(bytes, at) {
        Err(e) => Err(e),
        Ok((body_size, consumed)) => match spec_decode_local_groups(bytes, at + consumed) {
            Err(e) => Err(e),
            Ok((groups, end)) => if spec_counted_bytes(groups) > body_size {
                Err(Error::BodyTooSmall)
            } else {
                Ok((spec_expand_locals(groups), end))
            },
        },
    }
}

/// Once a group has failed to decode, no longer run of groups decodes.
pub proof fn lemma_local_groups_error(bytes: Seq<u8>, at: int, i: nat, n: nat)
    requires
        i <= n,
        spec_local_groups(bytes, at, i) is Err,
    ensures
        spec_local_groups(bytes, at, n) == spec_local_groups(bytes, at, i),
    decreases n,
{
    if i < n {
        lemma_local_groups_error(bytes, at, i, (n - 1) as nat);
    }
}

/// Groups that decode lie inside the input, one behind the other.
pub proof fn lemma_local_groups_end(bytes: Seq<u8>, at: int, n: nat)
    requires
        0 <= at <= bytes.len(),
        spec_local_groups(bytes, at, n) is Ok,
    ensures
        at <= spec_local_groups(bytes, at, n)->Ok_0.1 <= bytes.len(),
        spec_local_groups(bytes, at, n)->Ok_0.0.len() == n,
    decreases n,
{
    if n > 0 {
        lemma_local_groups_end(bytes, at, (n - 1) as nat);
        let end = spec_local_groups(bytes, at, (n - 1) as nat)->Ok_0.1;
        lemma_decode_u32_bounds(bytes, end);
    }
}

/// The counts of a prefix of the groups took no more bytes than those of all.
pub proof fn lemma_counted_bytes_prefix(groups: Seq<LocalGroup>, i: int)
    requires
        0 <= i <= groups.len(),
    ensures
        spec_counted_bytes(groups.take(i)) <= spec_counted_bytes(groups),
    decreases groups.len(),
{
    if i < groups.len() {
        lemma_counted_bytes_prefix(groups.drop_last(), i);
        assert(groups.drop_last().take(i) =~= groups.take(i));
    } else {
        assert(groups.take(i) =~= groups);
    }
}

/// Reads the value kind at `at`.
pub fn decode_kind_at(bytes: &[u8], at: usize) -> (r: Result<ValueKind, Error>)
    ensures
        r == spec_decode_kind(bytes@, at as int),
{
    if at >= bytes.len() {
        return Err(Error::UnexpectedEof);
    }
    let byte = bytes[at];
    if byte == 0x7F {
        Ok(ValueKind::I32)
    } else if byte == 0x7E {
        Ok(ValueKind::I64)
    } else if byte == 0x7D {
        Ok(ValueKind::F32)
    } else if byte == 0x7C {
        Ok(ValueKind::F64)
    } else if byte == 0x7B {
        Ok(ValueKind::V128)
    } else if byte == 0x70 {
        Ok(ValueKind::FuncRef)
    } else if byte == 0x6F {
        Ok(ValueKind::ExternRef)
    } else {
        Err(Error::InvalidValueKind(byte))
    }
}

/// Reads a value kind and steps over it. Where the byte names none, the
/// reader stays where it was.
pub fn decode_kind(reader: &mut ByteReader) -> (r: Result<ValueKind, Error>)
    ensures
        r == spec_decode_kind(old(reader).bytes@, old(reader).position as int),
        final(reader).bytes == old(reader).bytes,
        final(reader).position == if r is Ok {
            old(reader).position + 1
        } else {
            old(reader).position as int
        },
{
    let r = decode_kind_at(reader.bytes, reader.position);
    if let Ok(_) = r {
        assert(reader.position < reader.bytes.len());
        reader.position = reader.position + 1;
    }
    r
}

/// Reads the vector of local groups at `at`: the groups, and the place behind
/// the last of them.
pub fn decode_local_groups_at(bytes: &[u8], at: usize) -> (r: Result<
    (Vec<LocalGroup>, usize),
    Error,
>)
    ensures
        match spec_decode_local_groups(bytes@, at as int) {
            Ok((groups, end)) => r matches Ok((v, e)) && v@ == groups && e == end,
            Err(e) => r matches Err(x) && x == e,
        },
{
    let (n, used) = match decode_u32_at(bytes, at) {
        Ok(pair) => pair,
        Err(e) => {
            return Err(e);
        },
    };
    proof {
        lemma_decode_u32_bounds(bytes@, at as int);
    }
    assert(at + used <= bytes.len());
    let start: usize = at + used as usize;
    let mut groups: Vec<LocalGroup> = Vec::new();
    let mut pos: usize = start;
    let mut i: u32 = 0;
    while i < n
        invariant
            i <= n,
            start <= bytes.len(),
            spec_decode_local_groups(bytes@, at as int) == spec_local_groups(
                bytes@,
                start as int,
                n as nat,
            ),
            spec_local_groups(bytes@, start as int, i as nat) == Ok::<
                (Seq<LocalGroup>, int),
                Error,
            >((groups@, pos as int)),
        decreases n - i,
    {
        proof {
            lemma_local_groups_end(bytes@, start as int, i as nat);
        }
        let (count, consumed) = match decode_u32_at(bytes, pos) {
            Ok(pair) => pair,
            Err(e) => {
                proof {
                    assert(spec_local_groups(bytes@, start as int, (i + 1) as nat) == Err::<
                        (Seq<LocalGroup>, int),
                        Error,
                    >(e));
                    lemma_local_groups_error(bytes@, start as int, (i + 1) as nat, n as nat);
                }
                return Err(e);
            },
        };
        proof {
            lemma_decode_u32_bounds(bytes@, pos as int);
        }
        assert(pos + consumed <= bytes.len());
        let kind = match decode_kind_at(bytes, pos + consumed as usize) {
            Ok(kind) => kind,
            Err(e) => {
                proof {
                    assert(spec_local_groups(bytes@, start as int, (i + 1) as nat) == Err::<
                        (Seq<LocalGroup>, int),
                        Error,
                    >(e));
                    lemma_local_groups_error(bytes@, start as int, (i + 1) as nat, n as nat);
                }
                return Err(e);
            },
        };
        groups.push(LocalGroup { count, consumed, kind });
        pos = pos + consumed as usize + 1;
        i = i + 1;
    }
    Ok((groups, pos))
}

/// `Vec::into_boxed_slice` of the standard library: the same items in the
/// same order, as a boxed slice.
#[verifier::external_body]
fn into_boxed_slice(kinds: Vec<ValueKind>) -> (boxed: Box<[ValueKind]>)
    ensures
        boxed@ == kinds@,
{
    kinds.into_boxed_slice()
}

/// Decodes one function body of a code section: the stated size of the body,
/// then its local declarations, which are spread out into one kind for each
/// local. The reader is left behind the local declarations; the instructions
/// that follow are not read, and the block comes back with none, with room
/// for as many bytes as the stated size leaves after the counts of the
/// declarations. Where the input is no function body, the error says why and
/// the reader stays where it was.
pub fn decode_code_section(reader: &mut ByteReader) -> (r: Result<CodeBlock, Error>)
    ensures
        final(reader).bytes == old(reader).bytes,
        match spec_decode_code_section(old(reader).bytes@, old(reader).position as int) {
            Ok((locals, end)) => r matches Ok(block) && block.locals@ == locals
                && block.instructions@ == Seq::<u8>::empty() && final(reader).position == end,
            Err(e) => r matches Err(x) && x == e && final(reader).position == old(
                reader,
            ).position,
        },
{
    let bytes = reader.bytes;
    let at = reader.position;
    let (body_size, used) = match decode_u32_at(bytes, at) {
        Ok(pair) => pair,
        Err(e) => {
            return Err(e);
        },
    };
    proof {
        lemma_decode_u32_bounds(bytes@, at as int);
    }
    assert(at + used <= bytes.len());
    let (groups, end) = match decode_local_groups_at(bytes, at + used as usize) {
        Ok(pair) => pair,
        Err(e) => {
            return Err(e);
        },
    };

    let mut locals: Vec<ValueKind> = Vec::new();
    let mut left: u32 = body_size;
    let mut i: usize = 0;
    while i < groups.len()
        invariant
            i <= groups.len(),
            *reader == *old(reader),
            bytes@ == reader.bytes@,
            at == reader.position,
            spec_decode_u32(bytes@, at as int) == Ok::<(u32, u8), Error>((body_size, used)),
            spec_decode_local_groups(bytes@, at + used) == Ok::<(Seq<LocalGroup>, int), Error>(
                (groups@, end as int),
            ),
            locals@ == spec_expand_locals(groups@.take(i as int)),
            left == body_size - spec_counted_bytes(groups@.take(i as int)),
        decreases groups.len() - i,
    {
        let group = groups[i];
        proof {
            assert(groups@.take(i + 1).drop_last() =~= groups@.take(i as int));
            lemma_counted_bytes_prefix(groups@, i + 1);
        }
        let ghost before = locals@;
        let mut j: u32 = 0;
        while j < group.count
            invariant
                j <= group.count,
                locals@ == before + Seq::new(j as nat, |k: int| group.kind),
            decreases group.count - j,
        {
            locals.push(group.kind);
            assert(locals@ =~= before + Seq::new((j + 1) as nat, |k: int| group.kind));
            j = j + 1;
        }
        if group.consumed as u32 > left {
            return Err(Error::BodyTooSmall);
        }
        left = left - group.consumed as u32;
        i = i + 1;
    }
    assert(groups@.take(i as int) =~= groups@);

    let instruction_size = left;
    let instructions: Vec<u8> = Vec::with_capacity(instruction_size as usize);
    reader.position = end;
    Ok(CodeBlock { locals: into_boxed_slice(locals), instructions })
}

} // verus!
