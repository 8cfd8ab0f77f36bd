//! A repository as the protocol sees it: named references that point to
//! objects, the signed references that each remote has stored, and the check
//! that the two agree.

use crate::crypto::{base58_text, signature_valid, Signature, Signer, Unverified, Verified};
use crate::git::{
    parse_ref, parsed_ref, remotes_prefix, str_same, RefError, RefString, Scheme, Url, UrlView,
};
use crate::identity::{Id, Oid};
use crate::lookup::{find_first, is_first, lemma_absent, lemma_find_first, lemma_found};
use crate::storage::refs;
use crate::storage::refs::{
    lemma_lookup_at, lookup, refs_bytes, strictly_sorted, Refs, SignedRefs,
};
use crate::storage::paths;
use crate::storage::{Error, Remote, RemoteId};
use vstd::string::*;
use vstd::prelude::*;

verus! {

/// A named pointer to an object. A reference read from disk may lack a
/// readable name, and it may lack a target if it points to another
/// reference.
#[derive(Debug, PartialEq, Eq)]
pub struct Reference {
    pub name: Option<String>,
    pub target: Option<Oid>,
}

/// The mathematical value of a [`Reference`].
pub struct ReferenceView {
    pub name: Option<Seq<char>>,
    pub target: Option<Oid>,
}

impl View for Reference {
    type V = ReferenceView;

    open spec fn view(&self) -> ReferenceView {
        ReferenceView {
            name: match self.name {
                Some(name) => Some(name@),
                None => None,
            },
            target: self.target,
        }
    }
}

impl Clone for Reference {
    fn clone(&self) -> (r: Reference)
        ensures
            r@ == self@,
    {
        Reference {
            name: match &self.name {
                Some(name) => Some(name.clone()),
                None => None,
            },
            target: self.target,
        }
    }
}

/// What the protocol reads out of an object.
#[derive(Debug, PartialEq, Eq)]
pub enum Object {
    /// The references that a remote has signed, with the signature.
    Manifest(SignedRefs<Unverified>),
    /// The head of an identity history: the project that the history starts
    /// from, and whether the history is consistent in itself.
    Identity { root: Id, consistent: bool },
}

/// The mathematical value of an [`Object`].
pub enum ObjectView {
    Manifest { refs: Seq<(Seq<char>, Oid)>, signature: Signature },
    Identity { root: Id, consistent: bool },
}

impl View for Object {
    type V = ObjectView;

    open spec fn view(&self) -> ObjectView {
        match self {
            Object::Manifest(signed) => ObjectView::Manifest {
                refs: signed.refs@,
                signature: signed.signature,
            },
            Object::Identity { root, consistent } => ObjectView::Identity {
                root: *root,
                consistent: *consistent,
            },
        }
    }
}

impl Clone for Object {
    fn clone(&self) -> (r: Object)
        ensures
            r@ == self@,
    {
        match self {
            Object::Manifest(signed) => Object::Manifest(signed.duplicate()),
            Object::Identity { root, consistent } => Object::Identity {
                root: *root,
                consistent: *consistent,
            },
        }
    }
}

/// An object under its name.
#[derive(Debug, PartialEq, Eq)]
pub struct StoredObject {
    pub oid: Oid,
    pub object: Object,
}

impl View for StoredObject {
    type V = (Oid, ObjectView);

    open spec fn view(&self) -> (Oid, ObjectView) {
        (self.oid, self.object@)
    }
}

/// The kinds of objects that the protocol reads.
#[derive(Debug, Copy, Clone, PartialEq, Eq, Structural)]
pub enum ObjectKind {
    /// The signed references of a remote.
    Manifest,
    /// The head of an identity history.
    Identity,
}

/// The kind of object that a reference with the full name `name` points
/// to, if it is one that the protocol reads: the signature reference of a
/// remote points to its signed references, and its identity reference to
/// the head of its identity history.
pub open spec fn kind_behind(name: Seq<char>) -> Option<ObjectKind> {
    match parsed_ref(name) {
        Ok((_, within)) => if within == signature_name() {
            Some(ObjectKind::Manifest)
        } else if within == identity_name() {
            Some(ObjectKind::Identity)
        } else {
            None
        },
        Err(_) => None,
    }
}

/// The kind of object that a reference with the full name `name` points
/// to, if it is one that the protocol reads.
pub fn object_kind(name: &str) -> (r: Option<ObjectKind>)
    ensures
        r == kind_behind(name@),
{
    proof {
        reveal_strlit("radicle/signature");
        assert("radicle/signature"@ =~= signature_name());
        reveal_strlit("heads/radicle/id");
        assert("heads/radicle/id"@ =~= identity_name());
    }
    match parse_ref(name) {
        Ok((_, within)) => {
            if str_same(within.as_str(), "radicle/signature") {
                Some(ObjectKind::Manifest)
            } else if str_same(within.as_str(), "heads/radicle/id") {
                Some(ObjectKind::Identity)
            } else {
                None
            }
        },
        Err(_) => None,
    }
}

/// Why the identity of a remote does not stand.
#[derive(Debug, Copy, Clone, PartialEq, Eq, Structural)]
pub enum IdentityError {
    /// The remote has no identity history in the repository.
    NotFound,
    /// The history starts from another project.
    MismatchedRoot,
    /// The history is not consistent in itself.
    Inconsistent,
}

/// Why a repository is not valid.
#[derive(Debug, PartialEq, Eq)]
pub enum VerifyError {
    /// A reference belongs to a remote that has no signed references.
    InvalidRemote(RemoteId),
    /// A reference is not among the signed references of its remote, or it
    /// points elsewhere than they say.
    InvalidRefTarget(RemoteId, RefString, Oid),
    /// A reference has no name or no target.
    InvalidRef,
    /// The identity history of a remote does not stand.
    InvalidIdentity(IdentityError),
    /// The name of a reference could not be read.
    Ref(RefError),
    /// The signed references of a remote could not be had.
    Refs(refs::Error),
    /// A signed reference is not in the repository.
    MissingRef(RemoteId, RefString),
}

/// The mathematical value of a [`VerifyError`]. A remote stands as the
/// bytes of its key.
pub enum VerifyErrorView {
    InvalidRemote(Seq<u8>),
    InvalidRefTarget(Seq<u8>, Seq<char>, Oid),
    InvalidRef,
    InvalidIdentity(IdentityError),
    Ref(RefError),
    Refs(refs::Error),
    MissingRef(Seq<u8>, Seq<char>),
}

impl View for VerifyError {
    type V = VerifyErrorView;

    open spec fn view(&self) -> VerifyErrorView {
        match self {
            VerifyError::InvalidRemote(remote) => VerifyErrorView::InvalidRemote(remote@),
            VerifyError::InvalidRefTarget(remote, name, oid) => VerifyErrorView::InvalidRefTarget(
                remote@,
                name@,
                *oid,
            ),
            VerifyError::InvalidRef => VerifyErrorView::InvalidRef,
            VerifyError::InvalidIdentity(e) => VerifyErrorView::InvalidIdentity(*e),
            VerifyError::Ref(e) => VerifyErrorView::Ref(*e),
            VerifyError::Refs(e) => VerifyErrorView::Refs(*e),
            VerifyError::MissingRef(remote, name) => VerifyErrorView::MissingRef(remote@, name@),
        }
    }
}

/// The name, within a remote, of the reference that points to the signed
/// references of that remote.
pub open spec fn signature_name() -> Seq<char> {
    seq!['r', 'a', 'd', 'i', 'c', 'l', 'e', '/', 's', 'i', 'g', 'n', 'a', 't', 'u', 'r', 'e']
}

/// The name, within a remote, of the reference that points to the head of
/// the identity history of that remote.
pub open spec fn identity_name() -> Seq<char> {
    seq!['h', 'e', 'a', 'd', 's', '/', 'r', 'a', 'd', 'i', 'c', 'l', 'e', '/', 'i', 'd']
}

/// The property of being the reference `name` of `remote`.
pub open spec fn owned(remote: Seq<u8>, name: Seq<char>) -> spec_fn(ReferenceView) -> bool {
    |r: ReferenceView| r.name matches Some(n) && parsed_ref(n) == Ok::<_, RefError>((remote, name))
}

/// The property of being stored under `oid`.
pub open spec fn stored_as(oid: Oid) -> spec_fn((Oid, ObjectView)) -> bool {
    |o: (Oid, ObjectView)| o.0 == oid
}

/// The property of being the entry of `remote` in a list of remotes.
pub open spec fn entry_of(remote: Seq<u8>) -> spec_fn((Seq<u8>, Seq<(Seq<char>, Oid)>, Signature)) -> bool {
    |m: (Seq<u8>, Seq<(Seq<char>, Oid)>, Signature)| m.0 == remote
}

/// The first error of a list of checks made in order, if one of them fails.
pub open spec fn first_failure<T>(
    items: Seq<T>,
    check: spec_fn(T) -> Result<(), VerifyErrorView>,
) -> Result<(), VerifyErrorView>
    decreases items.len(),
{
    if items.len() == 0 {
        Ok(())
    } else {
        match first_failure(items.drop_last(), check) {
            Err(e) => Err(e),
            Ok(()) => check(items.last()),
        }
    }
}

/// A failure among the first items is the failure of the whole list.
pub proof fn lemma_failure_stays<T>(
    items: Seq<T>,
    check: spec_fn(T) -> Result<(), VerifyErrorView>,
    k: int,
)
    requires
        0 <= k <= items.len(),
        first_failure(items.take(k), check) is Err,
    ensures
        first_failure(items, check) == first_failure(items.take(k), check),
    decreases items.len() - k,
{
    if k < items.len() {
        assert(items.take(k + 1).drop_last() =~= items.take(k));
        lemma_failure_stays(items, check, k + 1);
    } else {
        assert(items.take(k) =~= items);
    }
}

/// Where no check fails, each item passes its check.
pub proof fn lemma_all_pass<T>(
    items: Seq<T>,
    check: spec_fn(T) -> Result<(), VerifyErrorView>,
    i: int,
)
    requires
        first_failure(items, check) is Ok,
        0 <= i < items.len(),
    ensures
        check(items[i]) is Ok,
    decreases items.len(),
{
    if i < items.len() - 1 {
        lemma_all_pass(items.drop_last(), check, i);
    }
}

/// The mathematical value of a [`Repository`].
pub struct RepositoryView {
    pub id: Id,
    pub refs: Seq<ReferenceView>,
    pub objects: Seq<(Oid, ObjectView)>,
}

impl RepositoryView {
    /// The reference `name` of `remote`: the first one whose full name reads
    /// so.
    pub open spec fn reference(self, remote: Seq<u8>, name: Seq<char>) -> Option<ReferenceView> {
        match find_first(self.refs, owned(remote, name)) {
            Some(i) => Some(self.refs[i]),
            None => None,
        }
    }

    /// The object stored under `oid`.
    pub open spec fn object(self, oid: Oid) -> Option<ObjectView> {
        match find_first(self.objects, stored_as(oid)) {
            Some(i) => Some(self.objects[i].1),
            None => None,
        }
    }

    /// The signed references that `remote` has stored, with the signature:
    /// what its signature reference points to, if that is a list of
    /// references in the order of their names, each name once, and the
    /// signature over it is the remote's own.
    pub open spec fn manifest(self, remote: Seq<u8>) -> Result<
        (Seq<(Seq<char>, Oid)>, Signature),
        refs::Error,
    > {
        match self.reference(remote, signature_name()) {
            None => Err(refs::Error::NotFound),
            Some(r) => match r.target {
                None => Err(refs::Error::InvalidRef),
                Some(oid) => match self.object(oid) {
                    Some(ObjectView::Manifest { refs, signature }) => if !strictly_sorted(refs) {
                        Err(refs::Error::NotFound)
                    } else if signature_valid(remote, refs_bytes(refs), signature@) {
                        Ok((refs, signature))
                    } else {
                        Err(refs::Error::InvalidSignature)
                    },
                    _ => Err(refs::Error::NotFound),
                },
            },
        }
    }

    /// The references that `remote` has signed.
    pub open spec fn signed_refs(self, remote: Seq<u8>) -> Result<Seq<(Seq<char>, Oid)>, refs::Error> {
        match self.manifest(remote) {
            Ok(stored) => Ok(stored.0),
            Err(e) => Err(e),
        }
    }

    /// Whether the identity history of `remote` stands for this project.
    pub open spec fn identity_verified(self, remote: Seq<u8>) -> Result<(), IdentityError> {
        match self.reference(remote, identity_name()) {
            None => Err(IdentityError::NotFound),
            Some(r) => match r.target {
                None => Err(IdentityError::NotFound),
                Some(oid) => match self.object(oid) {
                    Some(ObjectView::Identity { root, consistent }) => if root != self.id {
                        Err(IdentityError::MismatchedRoot)
                    } else if !consistent {
                        Err(IdentityError::Inconsistent)
                    } else {
                        Ok(())
                    },
                    _ => Err(IdentityError::NotFound),
                },
            },
        }
    }

    /// The remotes found in the first references of the repository, each
    /// with its signed references: one for every signature reference, in
    /// the order of the references.
    pub open spec fn remotes_in(self, refs: Seq<ReferenceView>) -> Result<
        Seq<(Seq<u8>, Seq<(Seq<char>, Oid)>, Signature)>,
        refs::Error,
    >
        decreases refs.len(),
    {
        if refs.len() == 0 {
            Ok(Seq::empty())
        } else {
            match self.remotes_in(refs.drop_last()) {
                Err(e) => Err(e),
                Ok(found) => match self.remote_at(refs.last()) {
                    Err(e) => Err(e),
                    Ok(None) => Ok(found),
                    Ok(Some(remote)) => Ok(found.push(remote)),
                },
            }
        }
    }

    /// The remote that a reference gives rise to: none unless it is a
    /// signature reference.
    pub open spec fn remote_at(self, r: ReferenceView) -> Result<
        Option<(Seq<u8>, Seq<(Seq<char>, Oid)>, Signature)>,
        refs::Error,
    > {
        match r.name {
            None => Ok(None),
            Some(name) => match parsed_ref(name) {
                Ok((remote, refname)) => if refname == signature_name() {
                    match self.manifest(remote) {
                        Ok(stored) => Ok(Some((remote, stored.0, stored.1))),
                        Err(e) => Err(e),
                    }
                } else {
                    Ok(None)
                },
                Err(_) => Ok(None),
            },
        }
    }

    /// The remotes of the repository with their signed references.
    pub open spec fn remotes(self) -> Result<Seq<(Seq<u8>, Seq<(Seq<char>, Oid)>, Signature)>, refs::Error> {
        self.remotes_in(self.refs)
    }

    /// The check of one reference against the signed references of the
    /// remotes.
    pub open spec fn reference_check(
        self,
        remotes: Seq<(Seq<u8>, Seq<(Seq<char>, Oid)>, Signature)>,
    ) -> spec_fn(ReferenceView) -> Result<(), VerifyErrorView> {
        |r: ReferenceView|
            match (r.name, r.target) {
                (Some(name), Some(oid)) => match parsed_ref(name) {
                    Err(e) => Err(VerifyErrorView::Ref(e)),
                    Ok((remote, refname)) => if refname == signature_name() {
                        Ok(())
                    } else {
                        match find_first(remotes, entry_of(remote)) {
                            None => Err(VerifyErrorView::InvalidRemote(remote)),
                            Some(i) => if lookup(remotes[i].1, refname) == Some(oid) {
                                Ok(())
                            } else {
                                Err(VerifyErrorView::InvalidRefTarget(remote, refname, oid))
                            },
                        }
                    },
                },
                _ => Err(VerifyErrorView::InvalidRef),
            }
    }

    /// The property of a signed reference of `remote` of having no
    /// reference in the repository. The signature reference stands for no
    /// signed reference: an entry of its name is missing whatever the
    /// repository holds.
    pub open spec fn missing(self, remote: Seq<u8>) -> spec_fn((Seq<char>, Oid)) -> bool {
        |e: (Seq<char>, Oid)| e.0 == signature_name() || self.reference(remote, e.0) is None
    }

    /// The check of one remote: each of its signed references is in the
    /// repository, and its identity history stands.
    pub open spec fn remote_check(self) -> spec_fn((Seq<u8>, Seq<(Seq<char>, Oid)>, Signature)) -> Result<
        (),
        VerifyErrorView,
    > {
        |m: (Seq<u8>, Seq<(Seq<char>, Oid)>, Signature)|
            match find_first(m.1, self.missing(m.0)) {
                Some(i) => Err(VerifyErrorView::MissingRef(m.0, m.1[i].0)),
                None => match self.identity_verified(m.0) {
                    Err(e) => Err(VerifyErrorView::InvalidIdentity(e)),
                    Ok(()) => Ok(()),
                },
            }
    }

    /// Whether the repository is valid, and if not, the first reason why
    /// not: the signed references of every remote can be had; every
    /// reference but the signature references is signed by its remote with
    /// the target it has; every signed reference is there; and the identity
    /// history of every remote stands.
    pub open spec fn verified(self) -> Result<(), VerifyErrorView> {
        match self.remotes() {
            Err(e) => Err(VerifyErrorView::Refs(e)),
            Ok(remotes) => match first_failure(self.refs, self.reference_check(remotes)) {
                Err(e) => Err(e),
                Ok(()) => first_failure(remotes, self.remote_check()),
            },
        }
    }
}

/// The views of a list of references.
pub open spec fn references_view(refs: Seq<Reference>) -> Seq<ReferenceView> {
    refs.map_values(|r: Reference| r@)
}

/// A repository of one project.
#[derive(Debug, PartialEq, Eq)]
pub struct Repository {
    /// The project.
    pub id: Id,
    /// The references.
    pub refs: Vec<Reference>,
    /// The objects that the protocol reads.
    pub objects: Vec<StoredObject>,
}

impl View for Repository {
    type V = RepositoryView;

    open spec fn view(&self) -> RepositoryView {
        RepositoryView {
            id: self.id,
            refs: references_view(self.refs@),
            objects: self.objects@.map_values(|o: StoredObject| o@),
        }
    }
}

/// The views of a list of remotes: each as the bytes of its key, its
/// signed references, and the signature over them.
pub open spec fn remotes_view(remotes: Seq<Remote<Verified>>) -> Seq<
    (Seq<u8>, Seq<(Seq<char>, Oid)>, Signature),
> {
    remotes.map_values(|m: Remote<Verified>| (m.id@, m.refs.refs@, m.refs.signature))
}

/// Find the entry of a remote in a list of remotes.
pub fn find_remote(remotes: &Vec<Remote<Verified>>, remote: &RemoteId) -> (r: Option<usize>)
    ensures
        match r {
            Some(i) => is_first(remotes_view(remotes@), entry_of(remote@), i as int),
            None => find_first(remotes_view(remotes@), entry_of(remote@)) is None,
        },
{
    let ghost view = remotes_view(remotes@);
    let n: usize = remotes.len();
    let mut i: usize = 0;
    while i < n
        invariant
            n == remotes@.len(),
            view == remotes_view(remotes@),
            i <= n,
            forall|j: int| 0 <= j < i ==> !entry_of(remote@)(#[trigger] view[j]),
        decreases n - i,
    {
        if remotes[i].id == *remote {
            return Some(i);
        }
        proof {
            crate::crypto::lemma_key_by_bytes(remotes@[i as int].id, *remote);
        }
        i = i + 1;
    }
    proof {
        lemma_absent(view, entry_of(remote@));
    }
    None
}

/// The head of an identity history.
#[derive(Debug, Copy, Clone, PartialEq, Eq)]
pub struct Identity {
    /// The project that the history starts from.
    pub root: Id,
    /// The object at the head of the history.
    pub head: Oid,
    /// Whether the history is consistent in itself.
    pub consistent: bool,
}

impl Identity {
    /// Whether the history stands for `project`.
    pub fn verified(&self, project: &Id) -> (r: Result<(), IdentityError>)
        ensures
            r == if self.root != *project {
                Err::<(), _>(IdentityError::MismatchedRoot)
            } else if !self.consistent {
                Err(IdentityError::Inconsistent)
            } else {
                Ok(())
            },
    {
        if self.root != *project {
            Err(IdentityError::MismatchedRoot)
        } else if !self.consistent {
            Err(IdentityError::Inconsistent)
        } else {
            Ok(())
        }
    }
}

impl Repository {
    /// A repository without references.
    pub fn new(id: Id) -> (repo: Repository)
        ensures
            repo@ == (RepositoryView { id, refs: Seq::empty(), objects: Seq::empty() }),
    {
        let repo = Repository { id, refs: Vec::new(), objects: Vec::new() };
        assert(repo@.refs =~= Seq::empty());
        assert(repo@.objects =~= Seq::empty());
        repo
    }

    /// Find the reference `name` of `remote`.
    pub fn find_owned(&self, remote: &RemoteId, name: &str) -> (r: Option<usize>)
        ensures
            match r {
                Some(i) => is_first(self@.refs, owned(remote@, name@), i as int) && find_first(
                    self@.refs,
                    owned(remote@, name@),
                ) == Some(i as int),
                None => find_first(self@.refs, owned(remote@, name@)) is None,
            },
    {
        let ghost view = self@.refs;
        let n: usize = self.refs.len();
        let mut i: usize = 0;
        while i < n
            invariant
                n == self.refs@.len(),
                view == self@.refs,
                i <= n,
                forall|j: int| 0 <= j < i ==> !owned(remote@, name@)(#[trigger] view[j]),
            decreases n - i,
        {
            let found = match &self.refs[i].name {
                None => false,
                Some(full) => match parse_ref(full.as_str()) {
                    Ok((key, refname)) => {
                        proof {
                            crate::crypto::lemma_key_by_bytes(key, *remote);
                        }
                        key == *remote && str_same(refname.as_str(), name)
                    },
                    Err(_) => false,
                },
            };
            assert(found == owned(remote@, name@)(view[i as int]));
            if found {
                proof {
                    lemma_found(view, owned(remote@, name@), i as int);
                }
                return Some(i);
            }
            i = i + 1;
        }
        proof {
            lemma_absent(view, owned(remote@, name@));
        }
        None
    }

    /// Find the object stored under `oid`.
    pub fn find_object(&self, oid: &Oid) -> (r: Option<usize>)
        ensures
            match r {
                Some(i) => is_first(self@.objects, stored_as(*oid), i as int) && find_first(
                    self@.objects,
                    stored_as(*oid),
                ) == Some(i as int),
                None => find_first(self@.objects, stored_as(*oid)) is None,
            },
    {
        let ghost view = self@.objects;
        let n: usize = self.objects.len();
        let mut i: usize = 0;
        while i < n
            invariant
                n == self.objects@.len(),
                view == self@.objects,
                i <= n,
                forall|j: int| 0 <= j < i ==> !stored_as(*oid)(#[trigger] view[j]),
            decreases n - i,
        {
            if self.objects[i].oid == *oid {
                proof {
                    lemma_found(view, stored_as(*oid), i as int);
                }
                return Some(i);
            }
            i = i + 1;
        }
        proof {
            lemma_absent(view, stored_as(*oid));
        }
        None
    }

    /// Where the reference `name` of `remote` points, if the repository
    /// has it and it has a target.
    pub fn reference_oid(&self, remote: &RemoteId, name: &str) -> (r: Option<Oid>)
        ensures
            r == match self@.reference(remote@, name@) {
                Some(reference) => reference.target,
                None => None,
            },
    {
        match self.find_owned(remote, name) {
            Some(i) => self.refs[i].target,
            None => None,
        }
    }

    /// The signed references of `remote`, with the signature checked.
    pub fn remote(&self, remote: &RemoteId) -> (r: Result<Remote<Verified>, refs::Error>)
        ensures
            match r {
                Ok(m) => m.id == *remote && (self@.manifest(remote@) matches Ok(stored)
                    && stored.0 == m.refs.refs@ && stored.1 == m.refs.signature),
                Err(e) => (self@.manifest(remote@) matches Err(x) && x == e),
            },
    {
        proof {
            reveal_strlit("radicle/signature");
            assert("radicle/signature"@ =~= signature_name());
        }
        match self.find_owned(remote, "radicle/signature") {
            None => Err(refs::Error::NotFound),
            Some(i) => match self.refs[i].target {
                None => Err(refs::Error::InvalidRef),
                Some(oid) => match self.find_object(&oid) {
                    None => Err(refs::Error::NotFound),
                    Some(k) => match &self.objects[k].object {
                        Object::Manifest(signed) => match Self::checked(signed, remote) {
                            Some(checked) => Ok(Remote::new(*remote, checked)),
                            None => Err(refs::Error::InvalidSignature),
                        },
                        Object::Identity { .. } => Err(refs::Error::NotFound),
                    },
                },
            },
        }
    }

    /// Signed references as they were stored, with the signature checked
    /// against the key of the remote that they belong to.
    fn checked(signed: &SignedRefs<Unverified>, remote: &RemoteId) -> (r: Option<
        SignedRefs<Verified>,
    >)
        ensures
            strictly_sorted(signed.refs@),
            r is Some == signed.signed_by(*remote),
            r matches Some(v) ==> v.refs@ == signed.refs@ && v.signature == signed.signature,
    {
        let _ = signed.refs.len();
        signed.duplicate().verified(remote)
    }

    /// The head of the identity history of `remote`.
    pub fn identity(&self, remote: &RemoteId) -> (r: Result<Identity, IdentityError>)
        ensures
            match r {
                Ok(identity) => self@.reference(remote@, identity_name()) matches Some(reference)
                    && reference.target == Some(identity.head) && self@.object(identity.head)
                    == Some(
                    ObjectView::Identity { root: identity.root, consistent: identity.consistent },
                ),
                Err(e) => e == IdentityError::NotFound && (self@.identity_verified(remote@)
                    matches Err(x) && x == e),
            },
    {
        proof {
            reveal_strlit("heads/radicle/id");
            assert("heads/radicle/id"@ =~= identity_name());
        }
        match self.find_owned(remote, "heads/radicle/id") {
            None => Err(IdentityError::NotFound),
            Some(i) => match self.refs[i].target {
                None => Err(IdentityError::NotFound),
                Some(head) => match self.find_object(&head) {
                    None => Err(IdentityError::NotFound),
                    Some(k) => match &self.objects[k].object {
                        Object::Identity { root, consistent } => Ok(
                            Identity { root: *root, head, consistent: *consistent },
                        ),
                        Object::Manifest(_) => Err(IdentityError::NotFound),
                    },
                },
            },
        }
    }

    /// Whether the identity history of `remote` stands for this project.
    pub fn identity_verified(&self, remote: &RemoteId) -> (r: Result<(), IdentityError>)
        ensures
            r == self@.identity_verified(remote@),
    {
        match self.identity(remote) {
            Err(e) => Err(e),
            Ok(identity) => identity.verified(&self.id),
        }
    }

    /// The remotes of the repository with their signed references: one for
    /// every signature reference, in the order of the references.
    pub fn remotes(&self) -> (r: Result<Vec<Remote<Verified>>, refs::Error>)
        ensures
            match r {
                Ok(found) => (self@.remotes() matches Ok(x) && x == remotes_view(found@)),
                Err(e) => (self@.remotes() matches Err(x) && x == e),
            },
    {
        proof {
            reveal_strlit("radicle/signature");
            assert("radicle/signature"@ =~= signature_name());
        }
        let ghost view = self@.refs;
        let mut found: Vec<Remote<Verified>> = Vec::new();
        let n: usize = self.refs.len();
        let mut i: usize = 0;
        assert(view.take(0) =~= Seq::empty());
        assert(remotes_view(found@) =~= Seq::empty());
        while i < n
            invariant
                n == self.refs@.len(),
                view == self@.refs,
                i <= n,
                "radicle/signature"@ == signature_name(),
                self@.remotes_in(view.take(i as int)) matches Ok(x) && x == remotes_view(found@),
            decreases n - i,
        {
            proof {
                assert(view.take(i + 1).drop_last() =~= view.take(i as int));
                assert(view.take(i + 1).last() == view[i as int]);
            }
            let ghost before = remotes_view(found@);
            match &self.refs[i].name {
                None => {},
                Some(full) => match parse_ref(full.as_str()) {
                    Err(_) => {},
                    Ok((key, refname)) => {
                        if str_same(refname.as_str(), "radicle/signature") {
                            match self.remote(&key) {
                                Ok(remote) => {
                                    found.push(remote);
                                    assert(remotes_view(found@) =~= before.push(
                                        (key@, remote.refs.refs@, remote.refs.signature),
                                    ));
                                },
                                Err(e) => {
                                    proof {
                                        assert(self@.remotes_in(view.take(i + 1)) matches Err(x)
                                            && x == e);
                                        lemma_remotes_failure_stays(self@, view, i + 1);
                                    }
                                    return Err(e);
                                },
                            }
                        }
                    },
                },
            }
            i = i + 1;
        }
        assert(view.take(n as int) =~= view);
        Ok(found)
    }

    /// The remotes of the repository.
    pub fn remote_ids(&self) -> (r: Result<Vec<RemoteId>, refs::Error>)
        ensures
            match r {
                Ok(ids) => (self@.remotes() matches Ok(x) && x.len() == ids@.len()
                    && forall|i: int| 0 <= i < ids@.len() ==> ids@[i]@ == x[i].0),
                Err(e) => (self@.remotes() matches Err(x) && x == e),
            },
    {
        match self.remotes() {
            Err(e) => Err(e),
            Ok(remotes) => {
                let mut ids: Vec<RemoteId> = Vec::new();
                let n: usize = remotes.len();
                let mut i: usize = 0;
                while i < n
                    invariant
                        n == remotes@.len(),
                        i <= n,
                        ids@.len() == i,
                        forall|j: int| 0 <= j < i ==> ids@[j] == remotes@[j].id,
                    decreases n - i,
                {
                    ids.push(remotes[i].id);
                    i = i + 1;
                }
                Ok(ids)
            },
        }
    }

    /// Whether the repository has no remotes at all.
    pub fn is_empty(&self) -> (r: Result<bool, refs::Error>)
        ensures
            match r {
                Ok(empty) => (self@.remotes() matches Ok(x) && empty == (x.len() == 0)),
                Err(e) => (self@.remotes() matches Err(x) && x == e),
            },
    {
        match self.remotes() {
            Err(e) => Err(e),
            Ok(remotes) => Ok(remotes.len() == 0),
        }
    }
}

/// A failure to read a remote among the first references is the failure of
/// the whole list.
pub proof fn lemma_remotes_failure_stays(repo: RepositoryView, refs: Seq<ReferenceView>, k: int)
    requires
        0 <= k <= refs.len(),
        repo.remotes_in(refs.take(k)) is Err,
    ensures
        repo.remotes_in(refs) == repo.remotes_in(refs.take(k)),
    decreases refs.len() - k,
{
    if k < refs.len() {
        assert(refs.take(k + 1).drop_last() =~= refs.take(k));
        lemma_remotes_failure_stays(repo, refs, k + 1);
    } else {
        assert(refs.take(k) =~= refs);
    }
}

impl Repository {
    /// Check one reference against the signed references of the remotes.
    pub fn check_reference(&self, remotes: &Vec<Remote<Verified>>, i: usize) -> (r: Result<
        (),
        VerifyError,
    >)
        requires
            i < self.refs@.len(),
        ensures
            match r {
                Ok(()) => self@.reference_check(remotes_view(remotes@))(self@.refs[i as int])
                    is Ok,
                Err(e) => (self@.reference_check(remotes_view(remotes@))(self@.refs[i as int])
                    matches Err(x) && x == e@),
            },
    {
        proof {
            reveal_strlit("radicle/signature");
            assert("radicle/signature"@ =~= signature_name());
        }
        let reference = &self.refs[i];
        match (&reference.name, reference.target) {
            (Some(full), Some(oid)) => match parse_ref(full.as_str()) {
                Err(e) => Err(VerifyError::Ref(e)),
                Ok((remote, refname)) => {
                    if str_same(refname.as_str(), "radicle/signature") {
                        Ok(())
                    } else {
                        match find_remote(remotes, &remote) {
                            None => Err(VerifyError::InvalidRemote(remote)),
                            Some(k) => {
                                proof {
                                    lemma_found(
                                        remotes_view(remotes@),
                                        entry_of(remote@),
                                        k as int,
                                    );
                                }
                                match remotes[k].refs.refs.get(refname.as_str()) {
                                    Some(signed) => {
                                        if signed == oid {
                                            Ok(())
                                        } else {
                                            Err(VerifyError::InvalidRefTarget(remote, refname, oid))
                                        }
                                    },
                                    None => Err(
                                        VerifyError::InvalidRefTarget(remote, refname, oid),
                                    ),
                                }
                            },
                        }
                    }
                },
            },
            _ => Err(VerifyError::InvalidRef),
        }
    }

    /// Check one remote: each of its signed references is in the
    /// repository, and its identity history stands.
    pub fn check_remote(&self, remote: &Remote<Verified>) -> (r: Result<(), VerifyError>)
        ensures
            match r {
                Ok(()) => self@.remote_check()(
                    (remote.id@, remote.refs.refs@, remote.refs.signature),
                ) is Ok,
                Err(e) => (self@.remote_check()(
                    (remote.id@, remote.refs.refs@, remote.refs.signature),
                ) matches Err(x) && x == e@),
            },
    {
        proof {
            reveal_strlit("radicle/signature");
            assert("radicle/signature"@ =~= signature_name());
        }
        let signed = &remote.refs.refs;
        let ghost entries = signed@;
        let ghost missing = self@.missing(remote.id@);
        let n: usize = signed.len();
        let mut i: usize = 0;
        while i < n
            invariant
                "radicle/signature"@ == signature_name(),
                n == entries.len(),
                entries == signed@,
                entries == remote.refs.refs@,
                missing == self@.missing(remote.id@),
                i <= n,
                forall|j: int| 0 <= j < i ==> !missing(#[trigger] entries[j]),
            decreases n - i,
        {
            let entry = signed.entry(i);
            let found = if str_same(entry.name.as_str(), "radicle/signature") {
                None
            } else {
                self.find_owned(&remote.id, entry.name.as_str())
            };
            match found {
                Some(_) => {
                    assert(!missing(entries[i as int]));
                },
                None => {
                    proof {
                        assert(missing(entries[i as int]));
                        lemma_found(entries, missing, i as int);
                    }
                    return Err(VerifyError::MissingRef(remote.id, entry.name.clone()));
                },
            }
            i = i + 1;
        }
        proof {
            lemma_absent(entries, missing);
        }
        match self.identity_verified(&remote.id) {
            Err(e) => Err(VerifyError::InvalidIdentity(e)),
            Ok(()) => Ok(()),
        }
    }

    /// Whether the repository is valid, and if not, the first reason why
    /// not.
    pub fn verify(&self) -> (r: Result<(), VerifyError>)
        ensures
            match r {
                Ok(()) => self@.verified() is Ok,
                Err(e) => (self@.verified() matches Err(x) && x == e@),
            },
    {
        let remotes = match self.remotes() {
            Err(e) => {
                return Err(VerifyError::Refs(e));
            },
            Ok(remotes) => remotes,
        };
        let ghost view = self@.refs;
        let ghost listed = remotes_view(remotes@);
        let ghost check = self@.reference_check(listed);
        let n: usize = self.refs.len();
        let mut i: usize = 0;
        assert(view.take(0) =~= Seq::empty());
        while i < n
            invariant
                n == self.refs@.len(),
                view == self@.refs,
                listed == remotes_view(remotes@),
                check == self@.reference_check(listed),
                self@.remotes() matches Ok(x) && x == listed,
                i <= n,
                first_failure(view.take(i as int), check) is Ok,
            decreases n - i,
        {
            proof {
                assert(view.take(i + 1).drop_last() =~= view.take(i as int));
                assert(view.take(i + 1).last() == view[i as int]);
            }
            match self.check_reference(&remotes, i) {
                Ok(()) => {},
                Err(e) => {
                    proof {
                        lemma_failure_stays(view, check, i + 1);
                    }
                    return Err(e);
                },
            }
            i = i + 1;
        }
        assert(view.take(n as int) =~= view);
        let ghost later = self@.remote_check();
        let m: usize = remotes.len();
        let mut k: usize = 0;
        assert(listed.take(0) =~= Seq::empty());
        while k < m
            invariant
                m == remotes@.len(),
                listed == remotes_view(remotes@),
                later == self@.remote_check(),
                self@.remotes() matches Ok(x) && x == listed,
                first_failure(self@.refs, self@.reference_check(listed)) is Ok,
                k <= m,
                first_failure(listed.take(k as int), later) is Ok,
            decreases m - k,
        {
            proof {
                assert(listed.take(k + 1).drop_last() =~= listed.take(k as int));
                assert(listed.take(k + 1).last() == listed[k as int]);
            }
            match self.check_remote(&remotes[k]) {
                Ok(()) => {},
                Err(e) => {
                    proof {
                        lemma_failure_stays(listed, later, k + 1);
                    }
                    return Err(e);
                },
            }
            k = k + 1;
        }
        assert(listed.take(m as int) =~= listed);
        Ok(())
    }
}

/// Each remote of a repository stands with what it has stored: its signed
/// references, which are in the order of their names with each name once,
/// and the signature over them.
pub proof fn lemma_remotes_manifest(repo: RepositoryView, refs: Seq<ReferenceView>, k: int)
    requires
        repo.remotes_in(refs) is Ok,
        0 <= k < repo.remotes_in(refs)->Ok_0.len(),
    ensures
        repo.manifest(repo.remotes_in(refs)->Ok_0[k].0) == Ok::<_, refs::Error>(
            (repo.remotes_in(refs)->Ok_0[k].1, repo.remotes_in(refs)->Ok_0[k].2),
        ),
        strictly_sorted(repo.remotes_in(refs)->Ok_0[k].1),
    decreases refs.len(),
{
    if refs.len() > 0 {
        let front = repo.remotes_in(refs.drop_last())->Ok_0;
        if k < front.len() {
            lemma_remotes_manifest(repo, refs.drop_last(), k);
        }
    }
}

/// In a valid repository the references and the signed references of each
/// remote say the same: every reference of a remote, but its signature
/// reference, is signed by that remote with the target it has; and every
/// reference that a remote has signed is in the repository with the target
/// that was signed, and is not the signature reference.
pub proof fn lemma_verified_complete(repo: RepositoryView)
    requires
        repo.verified() is Ok,
    ensures
        repo.remotes() is Ok,
        forall|i: int|
            #![trigger repo.refs[i]]
            0 <= i < repo.refs.len() ==> (repo.refs[i].name matches Some(full) && (parsed_ref(full)
                matches Ok(parts) && (parts.1 != signature_name() ==> (find_first(
                repo.remotes()->Ok_0,
                entry_of(parts.0),
            ) matches Some(k) && lookup(repo.remotes()->Ok_0[k].1, parts.1)
                == repo.refs[i].target && repo.refs[i].target is Some)))),
        forall|k: int, j: int|
            #![trigger repo.remotes()->Ok_0[k].1[j]]
            0 <= k < repo.remotes()->Ok_0.len() && 0 <= j < repo.remotes()->Ok_0[k].1.len() ==> (
            repo.remotes()->Ok_0[k].1[j].0 != signature_name() && (repo.reference(
                repo.remotes()->Ok_0[k].0,
                repo.remotes()->Ok_0[k].1[j].0,
            ) matches Some(r) && r.target == Some(repo.remotes()->Ok_0[k].1[j].1))),
{
    let remotes = repo.remotes()->Ok_0;
    let check = repo.reference_check(remotes);
    assert forall|i: int| #![trigger repo.refs[i]] 0 <= i < repo.refs.len() implies (
    repo.refs[i].name matches Some(full) && (parsed_ref(full) matches Ok(parts) && (parts.1
        != signature_name() ==> (find_first(remotes, entry_of(parts.0)) matches Some(k) && lookup(
        remotes[k].1,
        parts.1,
    ) == repo.refs[i].target && repo.refs[i].target is Some)))) by {
        lemma_all_pass(repo.refs, check, i);
    }
    let later = repo.remote_check();
    assert forall|k: int, j: int|
        #![trigger remotes[k].1[j]]
        0 <= k < remotes.len() && 0 <= j < remotes[k].1.len() implies (remotes[k].1[j].0
        != signature_name() && (repo.reference(remotes[k].0, remotes[k].1[j].0) matches Some(r)
        && r.target == Some(remotes[k].1[j].1))) by {
        lemma_all_pass(remotes, later, k);
        let missing = repo.missing(remotes[k].0);
        lemma_find_first(remotes[k].1, missing);
        assert(!missing(remotes[k].1[j]));
        // The reference is there, and it is not the signature reference.
        // The check of the references has shown that its remote has
        // signed it with the target it has; and what the remote has
        // signed under a name is one object.
        let name = remotes[k].1[j].0;
        let at = find_first(repo.refs, owned(remotes[k].0, name))->Some_0;
        lemma_find_first(repo.refs, owned(remotes[k].0, name));
        lemma_all_pass(repo.refs, check, at);
        let first = find_first(remotes, entry_of(remotes[k].0))->Some_0;
        lemma_find_first(remotes, entry_of(remotes[k].0));
        lemma_remotes_manifest(repo, repo.refs, k);
        lemma_remotes_manifest(repo, repo.refs, first);
        assert(remotes[first].1 == remotes[k].1);
        lemma_lookup_at(remotes[k].1, j);
    }
}

/// Why a fetch has failed.
#[derive(Debug, PartialEq, Eq)]
pub enum FetchError {
    /// What was fetched is not valid.
    Verify(VerifyError),
    /// The object store failed.
    Git,
    /// The file system failed.
    Io,
}

/// The mathematical value of a [`FetchError`].
pub enum FetchErrorView {
    Verify(VerifyErrorView),
    Git,
    Io,
}

impl View for FetchError {
    type V = FetchErrorView;

    open spec fn view(&self) -> FetchErrorView {
        match self {
            FetchError::Verify(e) => FetchErrorView::Verify(e@),
            FetchError::Git => FetchErrorView::Git,
            FetchError::Io => FetchErrorView::Io,
        }
    }
}

/// The property of having the full name `name`.
pub open spec fn named(name: Seq<char>) -> spec_fn(ReferenceView) -> bool {
    |r: ReferenceView| r.name == Some(name)
}

/// Find the reference with the full name `name`.
pub fn find_named(refs: &Vec<Reference>, name: &str) -> (r: Option<usize>)
    ensures
        match r {
            Some(i) => is_first(references_view(refs@), named(name@), i as int) && find_first(
                references_view(refs@),
                named(name@),
            ) == Some(i as int),
            None => find_first(references_view(refs@), named(name@)) is None,
        },
{
    let ghost view = references_view(refs@);
    let n: usize = refs.len();
    let mut i: usize = 0;
    while i < n
        invariant
            n == refs@.len(),
            view == references_view(refs@),
            i <= n,
            forall|j: int| 0 <= j < i ==> !named(name@)(#[trigger] view[j]),
        decreases n - i,
    {
        let found = match &refs[i].name {
            Some(full) => str_same(full.as_str(), name),
            None => false,
        };
        assert(found == named(name@)(view[i as int]));
        if found {
            proof {
                lemma_found(view, named(name@), i as int);
            }
            return Some(i);
        }
        i = i + 1;
    }
    proof {
        lemma_absent(view, named(name@));
    }
    None
}

impl Clone for Repository {
    fn clone(&self) -> (r: Repository)
        ensures
            r@ == self@,
    {
        let mut refs: Vec<Reference> = Vec::new();
        let n: usize = self.refs.len();
        let mut i: usize = 0;
        while i < n
            invariant
                n == self.refs@.len(),
                i <= n,
                refs@.len() == i,
                forall|j: int| 0 <= j < i ==> refs@[j]@ == self.refs@[j]@,
            decreases n - i,
        {
            refs.push(self.refs[i].clone());
            i = i + 1;
        }
        let mut objects: Vec<StoredObject> = Vec::new();
        let m: usize = self.objects.len();
        let mut k: usize = 0;
        while k < m
            invariant
                m == self.objects@.len(),
                k <= m,
                objects@.len() == k,
                forall|j: int| 0 <= j < k ==> objects@[j]@ == self.objects@[j]@,
            decreases m - k,
        {
            objects.push(
                StoredObject { oid: self.objects[k].oid, object: self.objects[k].object.clone() },
            );
            k = k + 1;
        }
        let r = Repository { id: self.id, refs, objects };
        assert(r@.refs =~= self@.refs);
        assert(r@.objects =~= self@.objects);
        r
    }
}

/// The target of the reference `name` of `remote` among some references:
/// that of the last one that reads so and has a target.
pub open spec fn owned_target(refs: Seq<ReferenceView>, remote: Seq<u8>, name: Seq<char>) -> Option<
    Oid,
>
    decreases refs.len(),
{
    if refs.len() == 0 {
        None
    } else if owned(remote, name)(refs.last()) && refs.last().target is Some {
        refs.last().target
    } else {
        owned_target(refs.drop_last(), remote, name)
    }
}

/// The full name of the signature reference of a remote.
pub open spec fn signature_ref(remote: Seq<u8>) -> Seq<char> {
    remotes_prefix() + base58_text(remote) + seq!['/'] + signature_name()
}

/// A name without the `refs/` that it starts with, if it starts so.
pub open spec fn unqualified(name: Seq<char>) -> Seq<char> {
    if name.len() >= 5 && name.subrange(0, 5) == seq!['r', 'e', 'f', 's', '/'] {
        name.subrange(5, name.len() as int)
    } else {
        name
    }
}

/// The full name of the reference `name` of a remote. A `refs/` at the
/// start of `name` is left out.
pub open spec fn remote_ref(remote: Seq<u8>, name: Seq<char>) -> Seq<char> {
    remotes_prefix() + base58_text(remote) + seq!['/'] + unqualified(name)
}

/// The full name of the reference `name` of a remote.
pub fn remote_ref_name(remote: &RemoteId, name: &str) -> (full: String)
    ensures
        full@ == remote_ref(remote@, name@),
{
    proof {
        reveal_strlit("refs/");
        assert("refs/"@ =~= seq!['r', 'e', 'f', 's', '/']);
        reveal_strlit("refs/remotes/");
        assert("refs/remotes/"@ =~= remotes_prefix());
        reveal_strlit("/");
        assert("/"@ =~= seq!['/']);
    }
    let n: usize = name.unicode_len();
    let short = if n >= 5 && str_same(name.substring_char(0, 5), "refs/") {
        name.substring_char(5, n)
    } else {
        name
    };
    let mut full = String::from_str("refs/remotes/");
    full.append(remote.to_human().as_str());
    full.append("/");
    full.append(short);
    assert(full@ =~= remote_ref(remote@, name@));
    full
}

/// The full name of the signature reference of a remote.
pub fn signature_ref_name(remote: &RemoteId) -> (name: String)
    ensures
        name@ == signature_ref(remote@),
{
    proof {
        reveal_strlit("radicle/signature");
        assert("radicle/signature"@ =~= signature_name());
        reveal_strlit("refs/remotes/");
        assert("refs/remotes/"@ =~= remotes_prefix());
        reveal_strlit("/");
        assert("/"@ =~= seq!['/']);
    }
    let mut name = String::from_str("refs/remotes/");
    name.append(remote.to_human().as_str());
    name.append("/");
    name.append("radicle/signature");
    assert(name@ =~= signature_ref(remote@));
    name
}

/// A list of references with the reference `name` pointing to `target`:
/// the first reference of that name is moved, or a new one is added at the
/// end.
pub open spec fn with_reference(refs: Seq<ReferenceView>, name: Seq<char>, target: Oid) -> Seq<
    ReferenceView,
> {
    let made = ReferenceView { name: Some(name), target: Some(target) };
    match find_first(refs, named(name)) {
        Some(i) => refs.update(i, made),
        None => refs.push(made),
    }
}

impl Repository {
    /// The references of `remote`, by their names within the remote.
    pub fn references(&self, remote: &RemoteId) -> (r: Refs)
        ensures
            forall|name: Seq<char>| r.target(name) == owned_target(self@.refs, remote@, name),
    {
        let ghost view = self@.refs;
        let mut r = Refs::new();
        let n: usize = self.refs.len();
        let mut i: usize = 0;
        assert(view.take(0) =~= Seq::empty());
        assert forall|name: Seq<char>| r.target(name) == owned_target(
            view.take(0),
            remote@,
            name,
        ) by {
            assert forall|j: int| !crate::storage::refs::at(r@, name, j) by {}
        }
        while i < n
            invariant
                n == self.refs@.len(),
                view == self@.refs,
                i <= n,
                forall|name: Seq<char>|
                    r.target(name) == owned_target(view.take(i as int), remote@, name),
            decreases n - i,
        {
            proof {
                assert(view.take(i + 1).drop_last() =~= view.take(i as int));
                assert(view.take(i + 1).last() == view[i as int]);
            }
            match (&self.refs[i].name, self.refs[i].target) {
                (Some(full), Some(oid)) => match parse_ref(full.as_str()) {
                    Ok((key, refname)) => {
                        proof {
                            crate::crypto::lemma_key_by_bytes(key, *remote);
                        }
                        if key == *remote {
                            r.insert(refname, oid);
                        }
                    },
                    Err(_) => {},
                },
                _ => {},
            }
            i = i + 1;
        }
        assert(view.take(n as int) =~= view);
        r
    }

    /// Point the reference with the full name `name` to `target`.
    pub fn set_reference(&mut self, name: String, target: Oid)
        ensures
            final(self)@.refs == with_reference(old(self)@.refs, name@, target),
            final(self).id == old(self).id,
            final(self).objects == old(self).objects,
    {
        let ghost refs0 = self@.refs;
        let ghost made = ReferenceView { name: Some(name@), target: Some(target) };
        match find_named(&self.refs, name.as_str()) {
            Some(i) => {
                self.refs[i] = Reference { name: Some(name), target: Some(target) };
                assert(self@.refs =~= refs0.update(i as int, made));
            },
            None => {
                self.refs.push(Reference { name: Some(name), target: Some(target) });
                assert(self@.refs =~= refs0.push(made));
            },
        }
    }

    /// The references of the node that `signer` signs for, signed, and the
    /// node. The signature reference itself is not among the signed
    /// references.
    pub fn sign<G: Signer>(&self, signer: &G) -> (r: (RemoteId, SignedRefs<Verified>))
        ensures
            r.0 == signer.key(),
            r.1.signed_by(signer.key()),
            strictly_sorted(r.1.refs@),
            r.1.refs.target(signature_name()) is None,
            forall|name: Seq<char>|
                name != signature_name() ==> r.1.refs.target(name) == owned_target(
                    self@.refs,
                    r.0@,
                    name,
                ),
    {
        let remote = *signer.public_key();
        let mut refs = self.references(&remote);
        proof {
            reveal_strlit("radicle/signature");
            assert("radicle/signature"@ =~= signature_name());
        }
        let ghost all = refs;
        let _ = refs.remove("radicle/signature");
        let ghost kept = refs;
        let _ = refs.len();
        let signed = refs.signed(signer);
        proof {
            assert forall|name: Seq<char>| name != signature_name() implies signed.refs.target(
                name,
            ) == owned_target(self@.refs, remote@, name) by {
                assert(signed.refs.target(name) == kept.target(name));
                assert(kept.target(name) == all.target(name));
            }
        }
        (remote, signed)
    }

    /// Store the signed references of `remote` under `oid`, with the
    /// signature reference of that node pointing there.
    pub fn store(&mut self, remote: &RemoteId, signed: &SignedRefs<Verified>, oid: Oid)
        ensures
            final(self)@ == old(self)@.stored(remote@, signed.refs@, signed.signature, oid),
    {
        let ghost objects0 = self@.objects;
        self.objects.push(StoredObject { oid, object: Object::Manifest(signed.unverified()) });
        assert(self@.objects =~= objects0.push(
            (oid, ObjectView::Manifest { refs: signed.refs@, signature: signed.signature }),
        ));
        self.set_reference(signature_ref_name(remote), oid);
    }

    /// Sign the references of the node that `signer` signs for, and store
    /// them under `oid`, with the signature reference of that node
    /// pointing there. The signature is accepted under the key of that
    /// node, and the signature reference itself is not among the signed
    /// references.
    pub fn sign_refs<G: Signer>(&mut self, signer: &G, oid: Oid) -> (signed: SignedRefs<Verified>)
        ensures
            final(self)@ == old(self)@.stored(
                signer.key()@,
                signed.refs@,
                signed.signature,
                oid,
            ),
            signed.signed_by(signer.key()),
            strictly_sorted(signed.refs@),
            signed.refs.target(signature_name()) is None,
            forall|name: Seq<char>|
                name != signature_name() ==> signed.refs.target(name) == owned_target(
                    old(self)@.refs,
                    signer.key()@,
                    name,
                ),
    {
        let (remote, signed) = self.sign(signer);
        self.store(&remote, &signed, oid);
        proof {
            assert forall|name: Seq<char>| name != signature_name() implies signed.refs.target(
                name,
            ) == owned_target(old(self)@.refs, signer.key()@, name) by {
                assert(remote@ == signer.key()@);
            }
        }
        signed
    }
}

impl RepositoryView {
    /// Whether the signature reference of `remote` is kept under the text
    /// form of its key only: every reference that reads as the signature
    /// reference of `remote` has the name [`signature_ref`] of it.
    pub open spec fn plainly_kept(self, remote: Seq<u8>) -> bool {
        forall|i: int|
            0 <= i < self.refs.len() && owned(remote, signature_name())(#[trigger] self.refs[i])
                ==> self.refs[i].name == Some(signature_ref(remote))
    }

    /// The repository after signed references of `remote` were stored
    /// under `oid`, with the signature reference of `remote` pointing
    /// there.
    pub open spec fn stored(
        self,
        remote: Seq<u8>,
        refs: Seq<(Seq<char>, Oid)>,
        signature: Signature,
        oid: Oid,
    ) -> RepositoryView {
        RepositoryView {
            id: self.id,
            refs: with_reference(self.refs, signature_ref(remote), oid),
            objects: self.objects.push((oid, ObjectView::Manifest { refs, signature })),
        }
    }
}

/// What is stored is what is read. Where references in the order of their
/// names, with a signature of `remote` over them, are stored under an
/// identifier that was not in use, the signed references of `remote` are
/// those, with that signature. This holds where the name of the signature
/// reference reads as what it is, and no reference reads as the signature
/// reference of `remote` under another name.
pub proof fn lemma_stored_reads_back(
    repo: RepositoryView,
    remote: Seq<u8>,
    refs: Seq<(Seq<char>, Oid)>,
    signature: Signature,
    oid: Oid,
)
    requires
        strictly_sorted(refs),
        signature_valid(remote, refs_bytes(refs), signature@),
        repo.object(oid) is None,
        repo.plainly_kept(remote),
        parsed_ref(signature_ref(remote)) == Ok::<_, RefError>((remote, signature_name())),
    ensures
        repo.stored(remote, refs, signature, oid).manifest(remote) == Ok::<_, refs::Error>(
            (refs, signature),
        ),
{
    let after = repo.stored(remote, refs, signature, oid);
    let name = signature_ref(remote);
    let made = ReferenceView { name: Some(name), target: Some(oid) };
    let is_owned = owned(remote, signature_name());
    assert(is_owned(made));
    lemma_find_first(repo.refs, named(name));
    let place = match find_first(repo.refs, named(name)) {
        Some(i) => i,
        None => repo.refs.len() as int,
    };
    assert(after.refs[place] == made);
    assert forall|j: int| 0 <= j < place implies !is_owned(#[trigger] after.refs[j]) by {
        assert(after.refs[j] == repo.refs[j]);
        if is_owned(repo.refs[j]) {
            assert(named(name)(repo.refs[j]));
        }
    }
    assert(is_first(after.refs, is_owned, place));
    lemma_found(after.refs, is_owned, place);
    assert(after.reference(remote, signature_name()) == Some(made));

    let stored = (oid, ObjectView::Manifest { refs, signature });
    lemma_find_first(repo.objects, stored_as(oid));
    let last = repo.objects.len() as int;
    assert(after.objects[last] == stored);
    assert forall|j: int| 0 <= j < last implies !stored_as(oid)(#[trigger] after.objects[j]) by {
        assert(after.objects[j] == repo.objects[j]);
    }
    assert(is_first(after.objects, stored_as(oid), last));
    lemma_found(after.objects, stored_as(oid), last);
    assert(after.object(oid) == Some(stored.1));
}

/// Where the repositories of this node are kept.
#[derive(Debug, PartialEq, Eq)]
pub struct Storage {
    /// The directory that holds one repository for each project.
    pub path: String,
}

impl Storage {
    /// Storage in the directory `path`.
    pub fn new(path: String) -> (r: Storage)
        ensures
            r.path == path,
    {
        Storage { path }
    }

    /// The directory that holds the repositories.
    pub fn path(&self) -> (path: &str)
        ensures
            path@ == self.path@,
    {
        self.path.as_str()
    }

    /// The location of the repository of a project on this machine.
    pub fn url(&self, proj: &Id) -> (url: Url)
        ensures
            url@ == (UrlView {
                scheme: Scheme::File,
                host: None,
                port: None,
                path: paths::joined(self.path@, base58_text(proj@)),
            }),
    {
        Url::file(paths::repository(self, proj))
    }

    /// The location to fetch a project from, at a peer that serves its
    /// repositories at `remote`: the project below that location.
    pub fn fetch_url(remote: &Url, proj: &Id) -> (url: Url)
        ensures
            url@ == remote.joined(base58_text(proj@)),
    {
        let name = proj.to_human();
        remote.join(name.as_str())
    }

    /// The projects whose repositories are in the directories `names`:
    /// each name read as a project identifier. One name that is none makes
    /// the whole an error.
    pub fn projects(names: &Vec<String>) -> (r: Result<Vec<Id>, Error>)
        ensures
            match r {
                Ok(ids) => ids@.len() == names@.len() && forall|i: int|
                    #![trigger names@[i]]
                    0 <= i < names@.len() ==> (Id::parsed(names@[i]@) matches Ok(x) && x
                        == ids@[i]@),
                Err(e) => e == Error::InvalidId && exists|i: int|
                    0 <= i < names@.len() && Id::parsed((#[trigger] names@[i])@) is Err,
            },
    {
        let mut ids: Vec<Id> = Vec::new();
        let n: usize = names.len();
        let mut i: usize = 0;
        while i < n
            invariant
                n == names@.len(),
                i <= n,
                ids@.len() == i,
                forall|j: int|
                    #![trigger names@[j]]
                    0 <= j < i ==> (Id::parsed(names@[j]@) matches Ok(x) && x == ids@[j]@),
            decreases n - i,
        {
            match Id::from_str(names[i].as_str()) {
                Ok(id) => {
                    ids.push(id);
                },
                Err(_) => {
                    return Err(Error::InvalidId);
                },
            }
            i = i + 1;
        }
        Ok(ids)
    }
}

/// Why a project has no canonical identity.
#[derive(Debug, Copy, Clone, PartialEq, Eq, Structural)]
pub enum ProjectError {
    /// The identity branches diverge from each other.
    BranchesDiverge,
    /// The identity branches are in an invalid state: there is none.
    InvalidState,
    /// The object store failed.
    Git,
    /// The signed references of a remote could not be had.
    Refs(refs::Error),
}

/// The longest identity history after the head `head` was seen, where the
/// longest so far ends at `longest` and `base` is the merge base of the
/// two: `head`, if it extends the longest; the longest, if `head` is an
/// ancestor of it or the same; and none if the histories have diverged.
pub open spec fn extended(longest: Oid, head: Oid, base: Oid) -> Result<Oid, ProjectError> {
    if base == longest {
        Ok(head)
    } else if base == head || head == longest {
        Ok(longest)
    } else {
        Err(ProjectError::BranchesDiverge)
    }
}

/// The head of the longest identity history after the head `head` was
/// seen.
pub fn extend(longest: Oid, head: Oid, base: Oid) -> (r: Result<Oid, ProjectError>)
    ensures
        r == extended(longest, head, base),
{
    if base == longest {
        Ok(head)
    } else if base == head || head == longest {
        Ok(longest)
    } else {
        Err(ProjectError::BranchesDiverge)
    }
}

/// The search for the canonical identity of a project among the heads of
/// the identity histories of its remotes. The search starts from the last
/// head and takes the others in order. For each it asks for the merge base
/// of that head and the longest history so far, and goes on with the
/// answer.
#[derive(Debug)]
pub struct Walk {
    /// The head of the longest history so far.
    pub longest: Oid,
    /// The heads still to be seen; the next one is at `next`.
    pub heads: Vec<Oid>,
    /// The place of the next head to be seen.
    pub next: usize,
}

impl Walk {
    /// Start the search. There has to be one head at least.
    pub fn start(heads: Vec<Oid>) -> (r: Result<Walk, ProjectError>)
        ensures
            match r {
                Ok(walk) => heads@.len() > 0 && walk.longest == heads@.last() && walk.heads@
                    == heads@.drop_last() && walk.next == 0,
                Err(e) => heads@.len() == 0 && e == ProjectError::InvalidState,
            },
    {
        let mut heads = heads;
        match heads.pop() {
            Some(longest) => Ok(Walk { longest, heads, next: 0 }),
            None => Err(ProjectError::InvalidState),
        }
    }

    /// The two heads whose merge base is wanted next: the next head and
    /// the head of the longest history so far. None when every head was
    /// seen.
    pub fn query(&self) -> (r: Option<(Oid, Oid)>)
        ensures
            r == if self.next < self.heads@.len() {
                Some((self.heads@[self.next as int], self.longest))
            } else {
                None
            },
    {
        if self.next < self.heads.len() {
            Some((self.heads[self.next], self.longest))
        } else {
            None
        }
    }

    /// Go on with the merge base that was asked for.
    pub fn advance(&mut self, base: Oid) -> (r: Result<(), ProjectError>)
        requires
            old(self).next < old(self).heads@.len(),
        ensures
            final(self).heads == old(self).heads,
            match extended(old(self).longest, old(self).heads@[old(self).next as int], base) {
                Ok(longest) => r is Ok && final(self).longest == longest && final(self).next
                    == old(self).next + 1,
                Err(e) => r == Err::<(), _>(e) && final(self).longest == old(self).longest
                    && final(self).next == old(self).next,
            },
    {
        let n: usize = self.heads.len();
        match extend(self.longest, self.heads[self.next], base) {
            Ok(longest) => {
                assert(self.next < n);
                self.longest = longest;
                self.next = self.next + 1;
                Ok(())
            },
            Err(e) => Err(e),
        }
    }

    /// The head of the canonical identity history, once every head was
    /// seen.
    pub fn finish(&self) -> (r: Option<Oid>)
        ensures
            r == if self.next >= self.heads@.len() {
                Some(self.longest)
            } else {
                None
            },
    {
        if self.next >= self.heads.len() {
            Some(self.longest)
        } else {
            None
        }
    }
}

impl Repository {
    /// The heads of the identity histories of the remotes, in the order of
    /// the remotes. There are heads exactly if the remotes can be read and
    /// each has an identity reference with a target; a remote without one
    /// leaves the repository in an invalid state.
    pub fn identity_heads(&self) -> (r: Result<Vec<Oid>, ProjectError>)
        ensures
            match r {
                Ok(heads) => (self@.remotes() matches Ok(remotes) && heads@.len()
                    == remotes.len() && forall|i: int|
                    #![trigger remotes[i]]
                    0 <= i < remotes.len() ==> (self@.reference(remotes[i].0, identity_name())
                        matches Some(reference) && reference.target == Some(heads@[i]))),
                Err(ProjectError::Refs(e)) => (self@.remotes() matches Err(x) && x == e),
                Err(e) => e == ProjectError::InvalidState && self@.remotes() is Ok,
            },
            r is Ok <==> (self@.remotes() matches Ok(remotes) && forall|i: int|
                #![trigger remotes[i]]
                0 <= i < remotes.len() ==> (self@.reference(remotes[i].0, identity_name())
                    matches Some(reference) && reference.target is Some)),
    {
        proof {
            reveal_strlit("heads/radicle/id");
            assert("heads/radicle/id"@ =~= identity_name());
        }
        let remotes = match self.remotes() {
            Ok(remotes) => remotes,
            Err(e) => {
                return Err(ProjectError::Refs(e));
            },
        };
        let ghost listed = remotes_view(remotes@);
        let mut heads: Vec<Oid> = Vec::new();
        let n: usize = remotes.len();
        let mut i: usize = 0;
        while i < n
            invariant
                n == remotes@.len(),
                listed == remotes_view(remotes@),
                self@.remotes() matches Ok(x) && x == listed,
                "heads/radicle/id"@ == identity_name(),
                i <= n,
                heads@.len() == i,
                forall|j: int|
                    #![trigger listed[j]]
                    0 <= j < i ==> (self@.reference(listed[j].0, identity_name()) matches Some(
                        reference,
                    ) && reference.target == Some(heads@[j])),
            decreases n - i,
        {
            assert(listed[i as int].0 == remotes@[i as int].id@);
            match self.find_owned(&remotes[i].id, "heads/radicle/id") {
                Some(k) => match self.refs[k].target {
                    Some(head) => {
                        heads.push(head);
                    },
                    None => {
                        assert(!(self@.reference(listed[i as int].0, identity_name()) matches Some(
                            reference,
                        ) && reference.target is Some));
                        return Err(ProjectError::InvalidState);
                    },
                },
                None => {
                    assert(self@.reference(listed[i as int].0, identity_name()) is None);
                    return Err(ProjectError::InvalidState);
                },
            }
            i = i + 1;
        }
        Ok(heads)
    }
}

} // verus!
