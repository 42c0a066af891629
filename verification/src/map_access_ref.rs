use crate::datatype::{entries_of, group_views, BuilderDataType};
use crate::deserialize_ref::BuilderDeserializerRef;
use crate::errors::BuilderError;
use vstd::prelude::*;

verus! {

broadcast use group_views;

/// The adapter that hands out the entries of a borrowed mapping one by
/// one, as a key and then its value, or as both at once.
pub struct BuilderMapAccessRef<'r, 'de> {
    /// The entries of the mapping.
    pub data: &'r Vec<(BuilderDataType<'de>, BuilderDataType<'de>)>,
    /// The place of the entry that comes next.
    pub cursor: usize,
    /// The value of the key that was pulled last, until it is pulled.
    pub leftover: Option<&'r BuilderDataType<'de>>,
}

impl<'r, 'de> BuilderMapAccessRef<'r, 'de> {
    /// What holds of an adapter between pulls.
    pub open spec fn wf(self) -> bool {
        self.cursor <= self.data@.len()
    }

    /// Whether the adapter is `before` with `gone` more entries handed out.
    pub open spec fn follows(self, before: Self, gone: int) -> bool {
        &&& self.data == before.data
        &&& self.cursor == before.cursor + gone
    }

    /// The adapter over the entries of a mapping.
    pub fn new(data: &'r Vec<(BuilderDataType<'de>, BuilderDataType<'de>)>) -> (access: Self)
        ensures
            access.wf(),
            access.data == data,
            access.cursor == 0,
            access.leftover is None,
    {
        BuilderMapAccessRef { data, cursor: 0, leftover: None }
    }

    /// Pulls the next key: stages the value of its entry and hands out the
    /// key for evaluation in borrowing mode. `None` where no entry is left.
    pub fn next_key_seed(&mut self) -> (r: Option<BuilderDeserializerRef<'r, 'de>>)
        requires
            old(self).wf(),
        ensures
            final(self).wf(),
            r is Some == (old(self).cursor < old(self).data@.len()),
            r is None ==> *final(self) == *old(self),
            r matches Some(key) ==> {
                let entry = entries_of(old(self).data@)[old(self).cursor as int];
                &&& key.data@ == entry.0
                &&& final(self).follows(*old(self), 1)
                &&& final(self).leftover matches Some(staged) && staged@ == entry.1
            },
    {
        if self.cursor >= self.data.len() {
            return None;
        }
        let data: &'r Vec<(BuilderDataType<'de>, BuilderDataType<'de>)> = self.data;
        let entry = &data[self.cursor];
        self.cursor += 1;
        self.leftover = Some(&entry.1);
        Some(BuilderDeserializerRef { data: &entry.0 })
    }

    /// Pulls the value that the last pull of a key staged and hands it out
    /// for evaluation in borrowing mode. An error where no value is
    /// staged.
    pub fn next_value_seed(&mut self) -> (r: Result<BuilderDeserializerRef<'r, 'de>, BuilderError>)
        requires
            old(self).wf(),
        ensures
            final(self).wf(),
            final(self).follows(*old(self), 0),
            final(self).leftover is None,
            old(self).leftover is None ==> (r matches Err(e) && e == BuilderError::InvalidMapAccess),
            old(self).leftover matches Some(staged) ==> (r matches Ok(value) && value.data@
                == staged@),
    {
        let staged = self.leftover;
        self.leftover = None;
        match staged {
            Some(value) => Ok(BuilderDeserializerRef { data: value }),
            None => Err(BuilderError::InvalidMapAccess),
        }
    }

    /// How many entries are still to come.
    pub open spec fn to_come(self) -> nat {
        if self.cursor <= self.data@.len() {
            (self.data@.len() - self.cursor) as nat
        } else {
            0
        }
    }

    /// The size hint: how many entries are still to come.
    pub fn size_hint(&self) -> (r: Option<usize>)
        ensures
            r == Some(self.to_come() as usize),
    {
        if self.cursor <= self.data.len() {
            Some(self.data.len() - self.cursor)
        } else {
            Some(0)
        }
    }

    /// Pulls the next entry at once: hands out its key and its value for
    /// evaluation in borrowing mode, the key first, and leaves no value
    /// staged. `None` where no entry is left.
    pub fn next_entry_seed(&mut self) -> (r: Option<
        (BuilderDeserializerRef<'r, 'de>, BuilderDeserializerRef<'r, 'de>),
    >)
        requires
            old(self).wf(),
        ensures
            final(self).wf(),
            r is Some == (old(self).cursor < old(self).data@.len()),
            r is None ==> *final(self) == *old(self),
            r matches Some(pair) ==> {
                let entry = entries_of(old(self).data@)[old(self).cursor as int];
                &&& pair.0.data@ == entry.0
                &&& pair.1.data@ == entry.1
                &&& final(self).follows(*old(self), 1)
                &&& final(self).leftover is None
            },
    {
        if self.cursor >= self.data.len() {
            return None;
        }
        let data: &'r Vec<(BuilderDataType<'de>, BuilderDataType<'de>)> = self.data;
        let entry = &data[self.cursor];
        self.cursor += 1;
        self.leftover = None;
        Some((BuilderDeserializerRef { data: &entry.0 }, BuilderDeserializerRef { data: &entry.1 }))
    }
}

} // verus!
