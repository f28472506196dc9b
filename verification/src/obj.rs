//! Heap-allocated objects. The only variant so far is the string object,
//! which owns an immutable byte buffer.

use vstd::prelude::*;
use crate::gc::GC;
use crate::value::Value;

verus! {

/// The discriminator of a heap object.
#[derive(Copy, Clone, Debug, PartialEq, Eq, Structural)]
pub enum ObjType {
    OString,
}

/// Every heap object answers its type tag.
pub trait Object {
    fn get_type(&self) -> ObjType;
}

/// A heap string: an owned, immutable byte buffer.
pub struct ObjString {
    pub chars: Vec<u8>,
}

impl Object for ObjString {
    fn get_type(&self) -> ObjType {
        ObjType::OString
    }
}

/// Whether a value refers to a heap object of the given type. Strings are
/// the only object type, so any object reference qualifies for `OString`.
pub fn is_obj_type(v: Value, obj_type: ObjType) -> (r: bool)
    ensures
        r == (v is Obj),
{
    match obj_type {
        ObjType::OString => match v {
            Value::Obj(_) => true,
            _ => false,
        },
    }
}

/// The bytes a string object prints as: its contents between double quotes.
pub fn print_obj(obj: &ObjString) -> (r: Vec<u8>)
    ensures
        r@ == seq![34u8] + obj.chars@ + seq![34u8],
{
    let mut out: Vec<u8> = Vec::new();
    out.push(34);
    let mut i: usize = 0;
    while i < obj.chars.len()
        invariant
            i <= obj.chars@.len(),
            out@ == seq![34u8] + obj.chars@.subrange(0, i as int),
        decreases obj.chars@.len() - i,
    {
        out.push(obj.chars[i]);
        i = i + 1;
        assert(out@ =~= seq![34u8] + obj.chars@.subrange(0, i as int));
    }
    assert(obj.chars@.subrange(0, obj.chars@.len() as int) =~= obj.chars@);
    out.push(34);
    assert(out@ =~= seq![34u8] + obj.chars@ + seq![34u8]);
    out
}

/// Copies a range of `bytes` into a fresh heap string and returns its index.
pub fn copy_string(gc: &mut GC, bytes: &Vec<u8>, from: usize, to: usize) -> (idx: usize)
    requires
        from <= to <= bytes@.len(),
    ensures
        final(gc).strings() == old(gc).strings().push(bytes@.subrange(from as int, to as int)),
        idx == old(gc).strings().len(),
{
    let mut chars: Vec<u8> = Vec::new();
    let mut i: usize = from;
    while i < to
        invariant
            from <= i <= to <= bytes@.len(),
            chars@ == bytes@.subrange(from as int, i as int),
        decreases to - i,
    {
        chars.push(bytes[i]);
        i = i + 1;
        assert(chars@ =~= bytes@.subrange(from as int, i as int));
    }
    allocate_string(gc, chars)
}

/// Moves an owned byte buffer into a fresh heap string and returns its index.
pub fn allocate_string(gc: &mut GC, chars: Vec<u8>) -> (idx: usize)
    ensures
        final(gc).strings() == old(gc).strings().push(chars@),
        idx == old(gc).strings().len(),
{
    gc.allocate(ObjString { chars })
}

} // verus!
