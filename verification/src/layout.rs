//! Byte extents of buffer views and staged pipeline slots.
use crate::types::{BufferType, EvalResult, IndexExpr, MappingSpec, eval_of};
use vstd::prelude::*;

verus! {

pub open spec fn rank_message() -> Seq<char> {
    "buffer rank and stride rank differ"@
}

pub open spec fn footprint_overflow_message() -> Seq<char> {
    "buffer footprint overflows"@
}

/// The footprint of dimensions `i..` of a strided view, starting from `size` bytes:
/// each known dimension `d` with known stride `s` adds `(d - 1) * s` bytes, a known
/// empty dimension makes the whole view empty, and any unknown dimension or stride
/// makes the size symbolic. Evaluation errors come first, dimension before stride.
pub open spec fn footprint_from(
    shape: Seq<IndexExpr>,
    strides: Seq<IndexExpr>,
    i: int,
    size: u64,
    symbolic: bool,
) -> EvalResult
    decreases shape.len() - i,
{
    if i < 0 || i >= shape.len() {
        Ok(if symbolic { None } else { Some(size) })
    } else {
        match shape[i].eval() {
            Err(e) => Err(e),
            Ok(d) => match strides[i].eval() {
                Err(e) => Err(e),
                Ok(s) => match (d, s) {
                    (Some(dv), _) if dv == 0 => Ok(Some(0)),
                    (Some(dv), Some(sv)) => {
                        let extra: int = (dv - 1) * sv;
                        if extra > u64::MAX || size + extra > u64::MAX {
                            Err(footprint_overflow_message())
                        } else {
                            footprint_from(shape, strides, i + 1, (size + extra) as u64, symbolic)
                        }
                    },
                    _ => footprint_from(shape, strides, i + 1, size, true),
                },
            },
        }
    }
}

/// The bytes spanned by one element at every index of a strided view; `None` when
/// symbolic or when the mapping is registered.
pub open spec fn footprint_of(b: BufferType) -> EvalResult {
    match b.mapping {
        MappingSpec::Strided { strides_bytes } => if b.shape@.len() != strides_bytes@.len() {
            Err(rank_message())
        } else {
            footprint_from(b.shape@, strides_bytes@, 0, b.element.bytes(), false)
        },
        MappingSpec::Registered { .. } => Ok(None),
    }
}

pub open spec fn slot_message() -> Seq<char> {
    "pipeline must have at least one slot"@
}

pub open spec fn staged_overflow_message() -> Seq<char> {
    "staged buffer extent overflows"@
}

pub open spec fn extent_overflow_message() -> Seq<char> {
    "buffer extent overflows"@
}

/// The end of the last of `slots` copies of the view placed `stride` bytes apart:
/// offset + (slots - 1) * stride + footprint, when all are known.
pub open spec fn end_of(b: BufferType, slots: u32, stride: u64) -> EvalResult {
    if slots == 0 {
        Err(slot_message())
    } else if (slots - 1) * stride > u64::MAX {
        Err(staged_overflow_message())
    } else {
        match b.offset_bytes.eval() {
            Err(e) => Err(e),
            Ok(o) => match footprint_of(b) {
                Err(e) => Err(e),
                Ok(f) => match (o, f) {
                    (Some(ov), Some(fv)) => {
                        let end: int = ov + (slots - 1) * stride + fv;
                        if ov + (slots - 1) * stride > u64::MAX || end > u64::MAX {
                            Err(extent_overflow_message())
                        } else {
                            Ok(Some(end as u64))
                        }
                    },
                    _ => Ok(None),
                },
            },
        }
    }
}

/// Two views are known to occupy disjoint byte ranges of their storage.
pub open spec fn disjoint(a: BufferType, b: BufferType) -> bool {
    match (a.offset_bytes.eval(), end_of(a, 1, 0), b.offset_bytes.eval(), end_of(b, 1, 0)) {
        (Ok(Some(a0)), Ok(Some(a1)), Ok(Some(b0)), Ok(Some(b1))) => a1 <= b0 || b1 <= a0,
        _ => false,
    }
}

/// Whether two views are known to be disjoint does not depend on their order.
pub proof fn lemma_disjoint_symmetric(a: BufferType, b: BufferType)
    ensures
        disjoint(a, b) == disjoint(b, a),
{
}

pub fn footprint(buffer: &BufferType) -> (r: Result<Option<u64>, &'static str>)
    ensures
        eval_of(r) == footprint_of(*buffer),
{
    let strides_bytes = match &buffer.mapping {
        MappingSpec::Strided { strides_bytes } => strides_bytes,
        MappingSpec::Registered { .. } => return Ok(None),
    };
    if buffer.shape.len() != strides_bytes.len() {
        return Err("buffer rank and stride rank differ");
    }
    let mut size = buffer.element.size_bytes();
    let mut symbolic = false;
    let mut i: usize = 0;
    while i < buffer.shape.len()
        invariant
            i <= buffer.shape@.len(),
            buffer.shape@.len() == strides_bytes@.len(),
            buffer.mapping == (MappingSpec::Strided { strides_bytes: *strides_bytes }),
            footprint_of(*buffer) == footprint_from(
                buffer.shape@,
                strides_bytes@,
                i as int,
                size,
                symbolic,
            ),
        decreases buffer.shape@.len() - i,
    {
        let d = match buffer.shape[i].evaluate() {
            Ok(v) => v,
            Err(m) => return Err(m),
        };
        let s = match strides_bytes[i].evaluate() {
            Ok(v) => v,
            Err(m) => return Err(m),
        };
        match (d, s) {
            (Some(dv), _) if dv == 0 => return Ok(Some(0)),
            (Some(dv), Some(sv)) => {
                let extra = match (dv - 1).checked_mul(sv) {
                    Some(e) => e,
                    None => return Err("buffer footprint overflows"),
                };
                size = match size.checked_add(extra) {
                    Some(t) => t,
                    None => return Err("buffer footprint overflows"),
                };
            },
            _ => {
                symbolic = true;
            },
        }
        i = i + 1;
    }
    if symbolic {
        Ok(None)
    } else {
        Ok(Some(size))
    }
}

pub fn buffer_end(buffer: &BufferType, slots: u32, stride: u64) -> (r: Result<
    Option<u64>,
    &'static str,
>)
    ensures
        eval_of(r) == end_of(*buffer, slots, stride),
{
    if slots == 0 {
        return Err("pipeline must have at least one slot");
    }
    let extra = match ((slots - 1) as u64).checked_mul(stride) {
        Some(e) => e,
        None => return Err("staged buffer extent overflows"),
    };
    let offset = match buffer.offset_bytes.evaluate() {
        Ok(v) => v,
        Err(m) => return Err(m),
    };
    let size = match footprint(buffer) {
        Ok(v) => v,
        Err(m) => return Err(m),
    };
    match (offset, size) {
        (Some(o), Some(f)) => match o.checked_add(extra) {
            Some(t) => match t.checked_add(f) {
                Some(end) => Ok(Some(end)),
                None => Err("buffer extent overflows"),
            },
            None => Err("buffer extent overflows"),
        },
        _ => Ok(None),
    }
}

pub fn views_disjoint(a: &BufferType, b: &BufferType) -> (r: bool)
    ensures
        r == disjoint(*a, *b),
{
    match (a.offset_bytes.evaluate(), buffer_end(a, 1, 0), b.offset_bytes.evaluate(), buffer_end(b, 1, 0)) {
        (Ok(Some(a0)), Ok(Some(a1)), Ok(Some(b0)), Ok(Some(b1))) => a1 <= b0 || b1 <= a0,
        _ => false,
    }
}

} // verus!
