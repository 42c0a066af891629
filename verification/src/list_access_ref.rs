use crate::closure::Closure;
use crate::datatype::{group_views, terms_of, BuilderDataType};
use crate::deserialize_ref::BuilderDeserializerRef;
use crate::semantics::{element, Frame};
use vstd::arithmetic::div_mod::{
    lemma_fundamental_div_mod, lemma_fundamental_div_mod_converse, lemma_mod_pos_bound,
};
use vstd::prelude::*;

verus! {

broadcast use group_views;

/// The adapter that hands out the elements of a borrowed sequence one by
/// one: the items of a list, or the elements that a `Repeat` expands to.
pub struct BuilderListAccessRef<'r, 'de> {
    /// The children of the node: the items of a list, or the count of a
    /// `Repeat` followed by the elements that it cycles through.
    pub data: &'r Vec<BuilderDataType<'de>>,
    /// Whether the children after the first are cycled through.
    pub cyclic: bool,
    /// The place among the children of the element that comes next.
    pub cursor: usize,
    /// How many elements are still to come.
    pub remaining: usize,
    /// The position of the element that comes next.
    pub index: usize,
}

/// The place that comes after a place among the children of a `Repeat`.
proof fn lemma_cycle_step(at: int, period: int)
    requires
        0 <= at,
        0 < period,
    ensures
        (at + 1) % period == if at % period + 1 == period {
            0
        } else {
            at % period + 1
        },
{
    lemma_fundamental_div_mod(at, period);
    lemma_mod_pos_bound(at, period);
    let q = at / period;
    let r = at % period;
    if r + 1 == period {
        assert(at + 1 == (q + 1) * period + 0) by (nonlinear_arith)
            requires
                at == period * q + r,
                r + 1 == period,
        ;
        lemma_fundamental_div_mod_converse(at + 1, period, q + 1, 0);
    } else {
        assert(at + 1 == q * period + (r + 1)) by (nonlinear_arith)
            requires
                at == period * q + r,
        ;
        lemma_fundamental_div_mod_converse(at + 1, period, q, r + 1);
    }
}

impl<'r, 'de> BuilderListAccessRef<'r, 'de> {
    /// What holds of an adapter between pulls: while elements are still to
    /// come, the cursor is at the child that the next position stands for.
    pub open spec fn wf(self) -> bool {
        &&& self.index + self.remaining <= usize::MAX
        &&& self.remaining > 0 ==> if self.cyclic {
            &&& self.data@.len() > 1
            &&& self.cursor == 1 + self.index as int % (self.data@.len() - 1)
        } else {
            &&& self.cursor == self.index
            &&& self.index + self.remaining <= self.data@.len()
        }
    }

    /// Whether the adapter is `before` with `gone` more elements handed
    /// out.
    pub open spec fn follows(self, before: Self, gone: int) -> bool {
        &&& self.data == before.data
        &&& self.cyclic == before.cyclic
        &&& self.index == before.index + gone
        &&& self.remaining == before.remaining - gone
    }

    /// The adapter over the items of a list.
    pub fn new(data: &'r Vec<BuilderDataType<'de>>) -> (access: Self)
        ensures
            access.wf(),
            access.data == data,
            !access.cyclic,
            access.index == 0,
            access.remaining == data@.len(),
    {
        BuilderListAccessRef {
            data,
            cyclic: false,
            cursor: 0,
            remaining: data.len(),
            index: 0,
        }
    }

    /// The adapter over what a `Repeat` with these children expands to:
    /// `times` elements that cycle through the children after the first,
    /// and none where there is no child after the first.
    pub fn repeat(data: &'r Vec<BuilderDataType<'de>>, times: usize) -> (access: Self)
        ensures
            access.wf(),
            access.data == data,
            access.cyclic,
            access.index == 0,
            access.remaining == if data@.len() > 1 {
                times
            } else {
                0
            },
    {
        BuilderListAccessRef {
            data,
            cyclic: true,
            cursor: 1,
            remaining: if data.len() > 1 {
                times
            } else {
                0
            },
            index: 0,
        }
    }

    /// Pulls the next element: sets the position register of the frame to
    /// the element's position and hands out the element for evaluation in
    /// borrowing mode. `None` where no element is left.
    pub fn next_element_seed(&mut self, closure: &mut Closure<'de>) -> (r: Option<
        BuilderDeserializerRef<'r, 'de>,
    >)
        requires
            old(self).wf(),
        ensures
            final(self).wf(),
            r is Some == (old(self).remaining > 0),
            r is None ==> *final(self) == *old(self) && final(closure)@ == old(closure)@,
            r matches Some(item) ==> {
                &&& item.data@ == element(
                    terms_of(old(self).data@),
                    old(self).cyclic,
                    old(self).index as int,
                )
                &&& final(self).follows(*old(self), 1)
                &&& final(closure)@ == (Frame {
                    args: old(closure)@.args,
                    index: old(self).index,
                })
            },
    {
        if self.remaining == 0 {
            return None;
        }
        let data: &'r Vec<BuilderDataType<'de>> = self.data;
        proof {
            if self.cyclic {
                lemma_cycle_step(self.index as int, data@.len() - 1);
                lemma_mod_pos_bound(self.index as int, data@.len() - 1);
            }
        }
        let len = data.len();
        assert(self.cursor < len);
        let item = &data[self.cursor];
        closure.index = self.index;
        self.index += 1;
        self.remaining -= 1;
        self.cursor += 1;
        if self.cyclic && self.cursor == len {
            self.cursor = 1;
        }
        Some(BuilderDeserializerRef { data: item })
    }

    /// The size hint: how many elements are still to come.
    pub fn size_hint(&self) -> (r: Option<usize>)
        ensures
            r == Some(self.remaining),
    {
        Some(self.remaining)
    }
}

} // verus!
