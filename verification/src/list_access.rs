use crate::closure::Closure;
use crate::datatype::{group_views, BuilderDataType};
use crate::deserialize::BuilderDeserializer;
use crate::semantics::Frame;
use vstd::prelude::*;

verus! {

broadcast use group_views;

/// The adapter that hands out the items of an owned list one by one.
pub struct BuilderListAccess<'de> {
    /// The items of the list. Those before `index` have been handed out
    /// and their places hold `Empty`.
    pub data: Vec<BuilderDataType<'de>>,
    /// The position of the item that comes next.
    pub index: usize,
}

impl<'de> BuilderListAccess<'de> {
    /// What holds of an adapter between pulls.
    pub open spec fn wf(self) -> bool {
        self.index <= self.data@.len()
    }

    /// Whether the adapter is `before` with `gone` more items handed out:
    /// the items still to come are those of `before`.
    pub open spec fn follows(self, before: Self, gone: int) -> bool {
        &&& self.data@.len() == before.data@.len()
        &&& self.index == before.index + gone
        &&& forall|j: int|
            self.index <= j < self.data@.len() ==> (#[trigger] self.data@[j])@ == before.data@[j]@
    }

    /// The adapter over the items of a list.
    pub fn new(data: Vec<BuilderDataType<'de>>) -> (access: Self)
        ensures
            access.wf(),
            access.data == data,
            access.index == 0,
    {
        BuilderListAccess { data, index: 0 }
    }

    /// Pulls the next item: sets the position register of the frame to
    /// the item's position and hands out the item for evaluation in
    /// owning mode. `None` where no item is left.
    pub fn next_element_seed(&mut self, closure: &mut Closure<'de>) -> (r: Option<
        BuilderDeserializer<'de>,
    >)
        requires
            old(self).wf(),
        ensures
            final(self).wf(),
            r is Some == (old(self).index < old(self).data@.len()),
            r is None ==> final(self).follows(*old(self), 0) && final(closure)@ == old(closure)@,
            r matches Some(item) ==> {
                &&& item.data@ == old(self).data@[old(self).index as int]@
                &&& final(self).follows(*old(self), 1)
                &&& final(closure)@ == (Frame {
                    args: old(closure)@.args,
                    index: old(self).index,
                })
            },
    {
        if self.index >= self.data.len() {
            return None;
        }
        let mut item = BuilderDataType::Empty;
        core::mem::swap(&mut self.data[self.index], &mut item);
        closure.index = self.index;
        self.index += 1;
        Some(BuilderDeserializer { data: item })
    }

    /// How many items are still to come.
    pub open spec fn to_come(self) -> nat {
        if self.index <= self.data@.len() {
            (self.data@.len() - self.index) as nat
        } else {
            0
        }
    }

    /// The size hint: how many items are still to come.
    pub fn size_hint(&self) -> (r: Option<usize>)
        ensures
            r == Some(self.to_come() as usize),
    {
        if self.index <= self.data.len() {
            Some(self.data.len() - self.index)
        } else {
            Some(0)
        }
    }
}

} // verus!
