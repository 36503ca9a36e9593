//! A document kept in memory and written back whole after every change.
use vstd::prelude::*;

use crate::json::{Json, JsonV};

verus! {

/// A document that can be stored as JSON and read back.
pub trait PersistentData: Sized + View {
    /// The document is in a state its operations accept.
    spec fn well_formed(&self) -> bool;

    /// The JSON value the document is written as.
    spec fn encoded(&self) -> JsonV;

    /// The document a JSON value describes, if it describes one.
    spec fn decoded(j: JsonV) -> Option<Self::V>;

    /// The document used when nothing has been stored yet.
    spec fn empty_view() -> Self::V;

    fn empty() -> (r: Self)
        ensures
            r.well_formed(),
            r@ == Self::empty_view(),
    ;

    fn to_json(&self) -> (r: Json)
        requires
            self.well_formed(),
        ensures
            r@ == self.encoded(),
    ;

    fn from_json(j: &Json) -> (r: Option<Self>)
        ensures
            match r {
                Some(d) => d.well_formed() && Self::decoded(j@) == Some(d@),
                None => Self::decoded(j@) is None,
            },
    ;
}

/// The stored content could not be read as a document.
#[derive(Debug, PartialEq, Clone, Copy)]
pub struct CorruptStore;

/// A document, the file it lives in, and the content still to be written there.
#[derive(Debug)]
pub struct PersistentJson<T> {
    data: T,
    path: String,
    unsaved: Option<Json>,
}

/// Exclusive access to a document; `commit` hands the whole document over for writing.
pub struct PersistentWriteGuard<'a, T> {
    pub data: &'a mut T,
    pub path: &'a String,
    pub unsaved: &'a mut Option<Json>,
}

pub open spec fn opt_view(o: Option<Json>) -> Option<JsonV> {
    match o {
        Some(j) => Some(j@),
        None => None,
    }
}

impl<'a, T: PersistentData> PersistentWriteGuard<'a, T> {
    pub fn new(data: &'a mut T, path: &'a String, unsaved: &'a mut Option<Json>) -> (r: Self)
        ensures
            *r.data == *old(data),
            *final(data) == *final(r.data),
            r.path == path,
            *r.unsaved == *old(unsaved),
            *final(unsaved) == *final(r.unsaved),
    {
        PersistentWriteGuard { data, path, unsaved }
    }

    /// Ends the write scope: the whole document becomes the content to write.
    pub fn commit(self)
        requires
            old(self.data).well_formed(),
        ensures
            *final(self.data) == *old(self.data),
            opt_view(*final(self.unsaved)) == Some(old(self.data).encoded()),
    {
        let j = self.data.to_json();
        *self.unsaved = Some(j);
    }
}

impl<T: PersistentData> PersistentJson<T> {
    /// The document held.
    pub closed spec fn value(&self) -> T {
        self.data
    }

    /// The file the document is written to.
    pub closed spec fn file(&self) -> Seq<char> {
        self.path@
    }

    /// The content waiting to be written, if a change was committed since the last write.
    pub closed spec fn pending(&self) -> Option<JsonV> {
        opt_view(self.unsaved)
    }

    pub open spec fn wf(&self) -> bool {
        self.value().well_formed()
    }

    /// Opens the document of `path`; `stored` is its parsed content, `None` when there is no file.
    pub fn new(path: String, stored: Option<&Json>) -> (r: Result<Self, CorruptStore>)
        ensures
            match stored {
                None => r matches Ok(s) && s.wf() && s.value()@ == T::empty_view(),
                Some(j) => match T::decoded(j@) {
                    Some(v) => r matches Ok(s) && s.wf() && s.value()@ == v,
                    None => r is Err,
                },
            },
            r matches Ok(s) ==> s.file() == path@ && s.pending() is None,
    {
        let data = match stored {
            None => T::empty(),
            Some(j) => match T::from_json(j) {
                Some(d) => d,
                None => {
                    return Err(CorruptStore);
                },
            },
        };
        Ok(PersistentJson { data, path, unsaved: None })
    }

    /// A shared view of the document.
    pub fn data(&self) -> (r: &T)
        ensures
            *r == self.value(),
    {
        &self.data
    }

    pub fn path(&self) -> (r: &String)
        ensures
            r@ == self.file(),
    {
        &self.path
    }

    /// Exclusive access to the document until the guard is committed or dropped.
    pub fn write(&mut self) -> (g: PersistentWriteGuard<'_, T>)
        ensures
            *g.data == old(self).value(),
            g.path@ == old(self).file(),
            opt_view(*g.unsaved) == old(self).pending(),
            final(self).value() == *final(g.data),
            final(self).pending() == opt_view(*final(g.unsaved)),
            final(self).file() == old(self).file(),
    {
        PersistentWriteGuard::new(&mut self.data, &self.path, &mut self.unsaved)
    }

    /// Hands over the content still to be written, leaving none pending.
    pub fn take_unsaved(&mut self) -> (r: Option<Json>)
        ensures
            opt_view(r) == old(self).pending(),
            final(self).pending() is None,
            final(self).value() == old(self).value(),
            final(self).file() == old(self).file(),
    {
        self.unsaved.take()
    }
}

} // verus!
