//! The allocation facade. All heap objects are allocated through it and live
//! until the interpreter is torn down; a future collector would replace this
//! type without touching the compiler or the virtual machine.

use vstd::prelude::*;
use crate::obj::ObjString;

verus! {

/// Owns every heap object. Objects are addressed by index and never freed
/// or moved while the interpreter runs.
pub struct GC {
    objects: Vec<ObjString>,
}

impl GC {
    /// The contents of the allocated strings, in allocation order.
    pub closed spec fn strings(&self) -> Seq<Seq<u8>> {
        self.objects@.map_values(|o: ObjString| o.chars@)
    }

    /// A fresh facade with nothing allocated.
    pub fn new() -> (r: GC)
        ensures
            r.strings() =~= Seq::<Seq<u8>>::empty(),
    {
        GC { objects: Vec::new() }
    }

    /// How many objects have been allocated.
    pub fn count(&self) -> (r: usize)
        ensures
            r == self.strings().len(),
    {
        self.objects.len()
    }

    /// Allocates an object; returns its index, which stays valid for the
    /// lifetime of the facade.
    pub fn allocate(&mut self, obj: ObjString) -> (idx: usize)
        ensures
            final(self).strings() =~= old(self).strings().push(obj.chars@),
            idx == old(self).strings().len(),
    {
        let idx = self.objects.len();
        self.objects.push(obj);
        idx
    }

    /// The object at an index.
    pub fn get(&self, idx: usize) -> (r: &ObjString)
        requires
            idx < self.strings().len(),
        ensures
            r.chars@ == self.strings()[idx as int],
    {
        &self.objects[idx]
    }
}

} // verus!
