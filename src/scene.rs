use vstd::prelude::*;
use crate::object::Object;

verus! {

/// An ordered list of objects shown as one screen. Insertion order is both the order in
/// which events are dispatched and the order in which objects are painted.
pub struct Scene<O: Object> {
    objects: Vec<O>,
}

impl<O: Object> Scene<O> {
    pub closed spec fn view(&self) -> Seq<O> {
        self.objects@
    }

    pub fn new() -> (s: Self)
        ensures
            s.view() == Seq::<O>::empty(),
    {
        Scene { objects: Vec::new() }
    }

    pub fn add_object(&mut self, object: O)
        ensures
            final(self).view() == old(self).view().push(object),
    {
        self.objects.push(object);
    }

    pub fn get_objects(&self) -> (r: &Vec<O>)
        ensures
            r@ == self.view(),
    {
        &self.objects
    }

    /// The object at `index`, for the caller to change.
    pub fn get_object_mut(&mut self, index: usize) -> (r: &mut O)
        requires
            index < old(self).view().len(),
        ensures
            *r == old(self).view()[index as int],
            final(self).view() == old(self).view().update(index as int, *final(r)),
    {
        &mut self.objects[index]
    }

    pub fn len(&self) -> (n: usize)
        ensures
            n == self.view().len(),
    {
        self.objects.len()
    }
}

} // verus!
