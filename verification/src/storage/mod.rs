//! The model of replicated storage: references, their signed form, and the
//! repository that holds them.

pub mod fetch;
pub mod git;
pub mod manifest;
pub mod paths;
pub mod refs;
pub mod trailers;

use crate::crypto::{PublicKey, Verified};
use crate::git::{RefString, Url};
use crate::identity::{Id, Oid};
use crate::storage::git::{FetchError, Repository};
use crate::storage::refs::SignedRefs;
use std::marker::PhantomData;
use vstd::prelude::*;

verus! {

/// The node that a set of references in a repository belongs to.
pub type RemoteId = PublicKey;

/// The projects held in storage.
pub type Inventory = Vec<Id>;

/// A change of one reference.
#[derive(Debug, PartialEq, Eq)]
pub enum RefUpdate {
    /// The reference pointed to `old` and now points to `new`.
    Updated { name: RefString, old: Oid, new: Oid },
    /// The reference is new and points to `oid`.
    Created { name: RefString, oid: Oid },
    /// The reference pointed to `oid` and is gone.
    Deleted { name: RefString, oid: Oid },
}

/// The mathematical value of a [`RefUpdate`].
pub enum RefUpdateView {
    Updated { name: Seq<char>, old: Oid, new: Oid },
    Created { name: Seq<char>, oid: Oid },
    Deleted { name: Seq<char>, oid: Oid },
}

impl View for RefUpdate {
    type V = RefUpdateView;

    open spec fn view(&self) -> RefUpdateView {
        match self {
            RefUpdate::Updated { name, old, new } => RefUpdateView::Updated {
                name: name@,
                old: *old,
                new: *new,
            },
            RefUpdate::Created { name, oid } => RefUpdateView::Created { name: name@, oid: *oid },
            RefUpdate::Deleted { name, oid } => RefUpdateView::Deleted { name: name@, oid: *oid },
        }
    }
}

impl Clone for RefUpdate {
    fn clone(&self) -> (r: RefUpdate)
        ensures
            r@ == self@,
    {
        match self {
            RefUpdate::Updated { name, old, new } => RefUpdate::Updated {
                name: name.clone(),
                old: *old,
                new: *new,
            },
            RefUpdate::Created { name, oid } => RefUpdate::Created { name: name.clone(), oid: *oid },
            RefUpdate::Deleted { name, oid } => RefUpdate::Deleted { name: name.clone(), oid: *oid },
        }
    }
}

impl RefUpdate {
    /// What the move of a reference from `old` to `new` amounts to, where
    /// the all-zero identifier stands for "no object": a creation if there
    /// was nothing before, a deletion if there is nothing now, an update
    /// otherwise.
    pub open spec fn of(name: Seq<char>, old: Oid, new: Oid) -> RefUpdateView {
        if old.zero() {
            RefUpdateView::Created { name, oid: new }
        } else if new.zero() {
            RefUpdateView::Deleted { name, oid: old }
        } else {
            RefUpdateView::Updated { name, old, new }
        }
    }

    /// The change that the move of a reference from `old` to `new` amounts
    /// to.
    pub fn from(name: RefString, old: Oid, new: Oid) -> (r: RefUpdate)
        ensures
            r@ == Self::of(name@, old, new),
    {
        if old.is_zero() {
            RefUpdate::Created { name, oid: new }
        } else if new.is_zero() {
            RefUpdate::Deleted { name, oid: old }
        } else {
            RefUpdate::Updated { name, old, new }
        }
    }
}

/// The views of a list of changes.
pub open spec fn updates_view(updates: Seq<RefUpdate>) -> Seq<RefUpdateView> {
    updates.map_values(|u: RefUpdate| u@)
}

/// The identity document of a project, as it was stored.
#[derive(Debug, PartialEq, Eq)]
pub struct Doc<V> {
    /// The document.
    pub payload: Vec<u8>,
    pub witness: PhantomData<V>,
}

/// A remote of a repository: a node and its signed references.
#[derive(Debug, PartialEq, Eq)]
pub struct Remote<V> {
    /// The node.
    pub id: RemoteId,
    /// Its references.
    pub refs: SignedRefs<V>,
}

impl<V> Remote<V> {
    pub fn new(id: RemoteId, refs: SignedRefs<V>) -> (r: Remote<V>)
        ensures
            r.id == id,
            r.refs == refs,
    {
        Remote { id, refs }
    }
}

/// Why storage could not be read.
#[derive(Debug, Copy, Clone, PartialEq, Eq, Structural)]
pub enum Error {
    /// A reference has no name or no target.
    InvalidRef,
    /// The name of a directory is no project identifier.
    InvalidId,
    /// The object store failed.
    Git,
    /// The file system failed.
    Io,
}

/// What the service reads from storage.
pub trait ReadStorage {
    /// The projects held in storage.
    fn inventory(&self) -> Result<Inventory, Error>;

    /// The identity document of a project as `remote` has it, if storage
    /// holds it.
    fn get(&self, remote: &RemoteId, proj: &Id) -> Result<Option<Doc<Verified>>, Error>;
}

/// What the service asks of storage.
pub trait WriteStorage: ReadStorage {
    /// The repository of a project.
    fn repository(&self, proj: &Id) -> Result<Repository, Error>;

    /// Fetch the project from the repository at `remote`, and say which
    /// references changed.
    fn fetch(&self, proj: &Id, remote: &Url) -> Result<Vec<RefUpdate>, FetchError>;
}

} // verus!
