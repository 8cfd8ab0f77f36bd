//! Fetches between repositories on disk: the library decides the steps,
//! and git carries them out.

use std::path::{Path, PathBuf};

use radicle_node::crypto::{KeyPair, PublicKey, Verified};
use radicle_node::git::RefString;
use radicle_node::identity::{Id, Oid};
use radicle_node::storage::fetch::{tip, Action, Event, Failure, Fetch};
use radicle_node::storage::git::{
    object_kind, remote_ref_name, signature_ref_name, FetchError, Object, ObjectKind, Reference,
    Repository, StoredObject, VerifyError,
};
use radicle_node::storage::refs::SignedRefs;
use radicle_node::storage::RefUpdate;

const REMOTES_REFSPEC: &str = "refs/remotes/*:refs/remotes/*";
const SIGNED_REFS: &str = "refs";

fn key_pair(n: u8) -> KeyPair {
    let mut seed = [0u8; 32];
    seed[0] = n;
    seed[1] = 0x77;
    KeyPair::from_seed(seed).unwrap()
}

fn project() -> Id {
    Id([0xcd; 20])
}

fn oid_from(oid: git2::Oid) -> Oid {
    Oid(<[u8; 20]>::try_from(oid.as_bytes()).unwrap())
}

fn url_of(backend: &git2::Repository) -> String {
    format!("file://{}", backend.path().to_string_lossy())
}

/// The signed references in the tree of the commit `oid`.
fn manifest_at(backend: &git2::Repository, oid: git2::Oid) -> Option<Object> {
    let tree = backend.find_commit(oid).ok()?.tree().ok()?;
    let entry = tree.get_path(Path::new(SIGNED_REFS)).ok()?;
    let blob = entry.to_object(backend).ok()?.peel_to_blob().ok()?;

    SignedRefs::from_bytes(blob.content()).map(Object::Manifest)
}

/// Read a repository on disk. Every commit that an identity reference
/// points to counts as a consistent identity of the project.
fn load(backend: &git2::Repository, id: Id) -> Repository {
    let mut repo = Repository::new(id);

    for r in backend.references().unwrap() {
        let r = r.unwrap();
        let name = r.name().ok().map(|name| name.to_owned());
        let target = r.target();
        let object = match (name.as_deref().and_then(object_kind), target) {
            (Some(ObjectKind::Manifest), Some(target)) => manifest_at(backend, target),
            (Some(ObjectKind::Identity), Some(target)) => backend
                .find_commit(target)
                .ok()
                .map(|_| Object::Identity { root: id, consistent: true }),
            _ => None,
        };
        let target = target.map(oid_from);

        if let (Some(object), Some(oid)) = (object, target) {
            repo.objects.push(StoredObject { oid, object });
        }
        repo.refs.push(Reference { name, target });
    }
    repo
}

/// The references of a repository on disk, in the order of their names.
fn listing(backend: &git2::Repository) -> Vec<(String, git2::Oid)> {
    let mut refs = Vec::new();
    for r in backend.references().unwrap() {
        let r = r.unwrap();
        refs.push((r.name().unwrap().to_owned(), r.target().unwrap()));
    }
    refs.sort();
    refs
}

fn open(path: PathBuf) -> git2::Repository {
    git2::Repository::init_bare(path).unwrap()
}

/// Put a commit with an empty tree on top of the reference `name` of a
/// remote.
fn commit(backend: &git2::Repository, remote: &PublicKey, name: &str, message: &str) -> git2::Oid {
    let full = remote_ref_name(remote, name);
    let author = git2::Signature::new("radicle", "radicle@localhost", &git2::Time::new(0, 0)).unwrap();
    let tree = backend.treebuilder(None).unwrap().write().unwrap();
    let tree = backend.find_tree(tree).unwrap();
    let parent = backend
        .find_reference(&full)
        .ok()
        .and_then(|r| r.target())
        .map(|oid| backend.find_commit(oid).unwrap());
    let parents: Vec<&git2::Commit> = parent.iter().collect();

    backend.commit(Some(&full), &author, &author, message, &tree, &parents).unwrap()
}

/// Sign the references of the signer's node and store them on disk: a
/// commit on top of the signature reference, with the signed references in
/// its tree.
fn sign_refs(backend: &git2::Repository, id: Id, signer: &KeyPair) -> SignedRefs<Verified> {
    let (remote, signed) = load(backend, id).sign(signer);
    let name = signature_ref_name(&remote);
    let author = git2::Signature::new("radicle", "radicle@localhost", &git2::Time::new(0, 0)).unwrap();
    let blob = backend.blob(&signed.to_bytes()).unwrap();
    let mut tree = backend.treebuilder(None).unwrap();
    tree.insert(SIGNED_REFS, blob, 0o100644).unwrap();
    let tree = backend.find_tree(tree.write().unwrap()).unwrap();
    let parent = backend
        .find_reference(&name)
        .ok()
        .and_then(|r| r.target())
        .and_then(|oid| backend.find_commit(oid).ok());
    let parents: Vec<&git2::Commit> = parent.iter().collect();
    let oid = backend.commit(None, &author, &author, "Sign references", &tree, &parents).unwrap();

    backend.reference(&name, oid, true, "Sign references").unwrap();
    signed
}

/// Give the repository a remote with a master branch, an identity branch
/// and signed references.
fn remote(backend: &git2::Repository, id: Id, signer: &KeyPair) {
    let key = *signer.public_key();
    commit(backend, &key, "heads/master", &format!("Initial commit of {}", key.to_human()));
    commit(backend, &key, "heads/radicle/id", &format!("Identity of {}", key.to_human()));
    sign_refs(backend, id, signer);
}

fn stage(staging: &git2::Repository, url: &str, id: Id) -> Result<Repository, Failure> {
    let mut opts = git2::FetchOptions::default();
    opts.prune(git2::FetchPrune::Off);

    staging
        .remote_anonymous(url)
        .and_then(|mut remote| remote.fetch(&[REMOTES_REFSPEC], Some(&mut opts), None))
        .map_err(|_| Failure::Git)?;

    Ok(load(staging, id))
}

fn clone_local(canonical: &git2::Repository, path: &Path) -> Result<git2::Repository, Failure> {
    git2::build::RepoBuilder::new()
        .bare(true)
        .clone_local(git2::build::CloneLocal::Local)
        .clone(&url_of(canonical), path)
        .map_err(|_| Failure::Git)
}

fn promote(canonical: &git2::Repository, staging: &git2::Repository) -> Result<Vec<RefUpdate>, Failure> {
    let mut updates = Vec::new();
    {
        let mut callbacks = git2::RemoteCallbacks::new();
        callbacks.update_tips(|name, old, new| match tip(name, oid_from(old), oid_from(new)) {
            Some(update) => {
                updates.push(update);
                true
            }
            None => false,
        });
        let mut remote = canonical.remote_anonymous(&url_of(staging)).map_err(|_| Failure::Git)?;
        let mut opts = git2::FetchOptions::default();
        opts.remote_callbacks(callbacks);
        opts.prune(git2::FetchPrune::On);

        remote.fetch(&[REMOTES_REFSPEC], Some(&mut opts), None).map_err(|_| Failure::Git)?;
    }
    Ok(updates)
}

/// Fetch from `url` into the repository on disk, doing what the library
/// asks for. The actions are noted in `actions`.
fn fetch(
    canonical: &git2::Repository,
    id: Id,
    url: &str,
    actions: &mut Vec<Action>,
) -> Result<Vec<RefUpdate>, FetchError> {
    let tempdir = tempfile::tempdir().map_err(|_| FetchError::Io)?;
    let path = tempdir.path().join("git");
    let mut staging = None;
    let mut fetch = Fetch::new();
    let mut action = fetch.action();

    loop {
        actions.push(action);
        let event = match action {
            Action::Clone => match clone_local(canonical, &path) {
                Ok(copy) => {
                    staging = Some(copy);
                    Event::Cloned
                }
                Err(failure) => Event::Failed(failure),
            },
            Action::Stage => match stage(staging.as_ref().unwrap(), url, id) {
                Ok(repo) => Event::Staged(repo),
                Err(failure) => Event::Failed(failure),
            },
            Action::Promote => match promote(canonical, staging.as_ref().unwrap()) {
                Ok(updates) => Event::Promoted(updates),
                Err(failure) => Event::Failed(failure),
            },
            Action::Finish => break,
        };
        action = fetch.step(event);
    }
    fetch.finish().unwrap()
}

fn reference(backend: &git2::Repository, remote: &PublicKey, name: &str) -> Option<git2::Oid> {
    backend.find_reference(&remote_ref_name(remote, name)).ok().and_then(|r| r.target())
}

#[test]
fn test_fetch() {
    let tmp = tempfile::tempdir().unwrap();
    let alice = open(tmp.path().join("alice"));
    let bob = open(tmp.path().join("bob"));
    let proj = project();
    for n in [1, 2, 3] {
        remote(&alice, proj, &key_pair(n));
    }
    let repo = load(&alice, proj);
    assert_eq!(repo.verify(), Ok(()));
    let remotes = repo.remotes().unwrap();
    assert_eq!(remotes.len(), 3);
    let refname = "heads/master";

    // Have Bob fetch Alice's refs.
    let mut actions = vec![];
    let updates = fetch(&bob, proj, &url_of(&alice), &mut actions).unwrap();
    assert_eq!(actions, vec![Action::Clone, Action::Stage, Action::Promote, Action::Finish]);

    // Three refs are created for each remote.
    assert_eq!(updates.len(), remotes.len() * 3);

    for update in updates {
        assert!(matches!(
            update,
            RefUpdate::Created { name, .. } if name.as_str().starts_with("refs/remotes")
        ));
    }

    for remote in remotes {
        let alice_oid = reference(&alice, &remote.id, refname).unwrap();
        let bob_oid = reference(&bob, &remote.id, refname).unwrap();

        assert_eq!(alice_oid, bob_oid);
        assert_eq!(load(&bob, proj).reference_oid(&remote.id, refname), Some(oid_from(alice_oid)));
    }
    // What was fetched is what the remote holds, and it is valid.
    assert_eq!(listing(&bob), listing(&alice));
    assert_eq!(load(&bob, proj).verify(), Ok(()));
    assert_eq!(load(&bob, proj).remotes(), load(&alice, proj).remotes());
}

#[test]
fn test_fetch_update() {
    let tmp = tempfile::tempdir().unwrap();
    let alice = open(tmp.path().join("alice/storage"));
    let bob = open(tmp.path().join("bob/storage"));
    let alice_signer = key_pair(1);
    let alice_id = *alice_signer.public_key();
    let proj_id = project();
    remote(&alice, proj_id, &alice_signer);

    let refname = "refs/heads/master";
    let alice_url = url_of(&alice);

    // Have Bob fetch Alice's refs.
    let updates = fetch(&bob, proj_id, &alice_url, &mut vec![]).unwrap();
    // Three refs are created: the branch, the signature and the id.
    assert_eq!(updates.len(), 3);

    let old_head = reference(&alice, &alice_id, refname).unwrap();
    let alice_head = commit(&alice, &alice_id, refname, "Making changes");
    sign_refs(&alice, proj_id, &alice_signer);

    // Have Bob fetch Alice's new commit.
    let updates = fetch(&bob, proj_id, &alice_url, &mut vec![]).unwrap();
    // The branch and signature refs are updated.
    assert!(matches!(
        updates.as_slice(),
        &[RefUpdate::Updated { .. }, RefUpdate::Updated { .. }]
    ));
    assert!(updates.contains(&RefUpdate::Updated {
        name: RefString::try_from(remote_ref_name(&alice_id, refname).as_str()).unwrap(),
        old: oid_from(old_head),
        new: oid_from(alice_head),
    }));

    // Bob's storage is updated.
    let bob_master = reference(&bob, &alice_id, refname).unwrap();

    assert_eq!(bob_master, alice_head);
    assert_eq!(load(&bob, proj_id).verify(), Ok(()));

    // Nothing has changed since: nothing is updated.
    assert_eq!(fetch(&bob, proj_id, &alice_url, &mut vec![]), Ok(vec![]));
}

#[test]
fn fetch_of_unsigned_references_leaves_the_repository_as_it_was() {
    let tmp = tempfile::tempdir().unwrap();
    let alice = open(tmp.path().join("alice"));
    let bob = open(tmp.path().join("bob"));
    let signer = key_pair(1);
    let key = *signer.public_key();
    let proj = project();
    remote(&alice, proj, &signer);
    fetch(&bob, proj, &url_of(&alice), &mut vec![]).unwrap();
    let before = listing(&bob);

    // A branch that the remote has not signed, and a signed one moved.
    let evil = commit(&alice, &key, "heads/evil", "Not signed");
    commit(&alice, &key, "heads/master", "Not signed either");

    let mut actions = vec![];
    let result = fetch(&bob, proj, &url_of(&alice), &mut actions);
    assert_eq!(
        result,
        Err(FetchError::Verify(VerifyError::InvalidRefTarget(
            key,
            RefString::try_from("heads/evil").unwrap(),
            oid_from(evil)
        )))
    );
    // The repository on disk was never fetched into.
    assert_eq!(actions, vec![Action::Clone, Action::Stage, Action::Finish]);
    assert_eq!(listing(&bob), before);
    assert!(bob.find_commit(evil).is_err());
    assert_eq!(load(&bob, proj).verify(), Ok(()));
}

#[test]
fn fetch_from_nowhere_fails_before_anything_is_written() {
    let tmp = tempfile::tempdir().unwrap();
    let alice = open(tmp.path().join("alice"));
    let bob = open(tmp.path().join("bob"));
    let proj = project();
    remote(&alice, proj, &key_pair(1));
    fetch(&bob, proj, &url_of(&alice), &mut vec![]).unwrap();
    let before = listing(&bob);

    let mut actions = vec![];
    let nowhere = format!("file://{}", tmp.path().join("nowhere").to_string_lossy());
    assert_eq!(fetch(&bob, proj, &nowhere, &mut actions), Err(FetchError::Git));
    assert_eq!(actions, vec![Action::Clone, Action::Stage, Action::Finish]);
    assert_eq!(listing(&bob), before);
}

#[test]
fn fetch_prunes_what_the_remote_has_dropped() {
    let tmp = tempfile::tempdir().unwrap();
    let alice = open(tmp.path().join("alice"));
    let bob = open(tmp.path().join("bob"));
    let signer = key_pair(1);
    let key = *signer.public_key();
    let proj = project();
    remote(&alice, proj, &signer);
    let dev = commit(&alice, &key, "heads/dev", "Development");
    sign_refs(&alice, proj, &signer);
    assert_eq!(fetch(&bob, proj, &url_of(&alice), &mut vec![]).unwrap().len(), 4);

    // The remote drops a branch and signs again.
    alice.find_reference(&remote_ref_name(&key, "heads/dev")).unwrap().delete().unwrap();
    sign_refs(&alice, proj, &signer);

    let updates = fetch(&bob, proj, &url_of(&alice), &mut vec![]).unwrap();
    assert!(updates.contains(&RefUpdate::Deleted {
        name: RefString::try_from(remote_ref_name(&key, "heads/dev").as_str()).unwrap(),
        oid: oid_from(dev),
    }));
    assert_eq!(updates.len(), 2);
    assert_eq!(reference(&bob, &key, "heads/dev"), None);
    assert_eq!(listing(&bob), listing(&alice));
    assert_eq!(load(&bob, proj).verify(), Ok(()));
}

#[test]
fn sign_refs_on_disk_reads_back() {
    let tmp = tempfile::tempdir().unwrap();
    let backend = open(tmp.path().join("storage"));
    let signer = key_pair(1);
    let alice = *signer.public_key();
    let proj = project();
    commit(&backend, &alice, "heads/master", "Initial commit");
    let head = commit(&backend, &alice, "heads/master", "Second commit");

    let signed = sign_refs(&backend, proj, &signer);

    let project = load(&backend, proj);
    let stored = project.remote(&alice).unwrap();
    let mut unsigned = project.references(&alice);

    // The signed refs doesn't contain the signature ref itself.
    unsigned.remove("radicle/signature").unwrap();

    assert_eq!(stored.refs, signed);
    assert_eq!(stored.refs.refs, unsigned);
    assert_eq!(unsigned.get("heads/master"), Some(oid_from(head)));
}
