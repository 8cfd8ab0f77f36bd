use radicle_node::crypto::{KeyPair, PublicKeyError, Signature};
use radicle_node::git::{parse_ref, Host, RefError, RefString, Scheme, Url};
use radicle_node::identity::{Id, IdError, Oid};
use radicle_node::net::IpAddr;
use radicle_node::storage::fetch::{tip, Action, Event, Failure, Fetch};
use radicle_node::storage::git::{
    extend, object_kind, FetchError, IdentityError, Object, ObjectKind, ProjectError, Reference,
    Repository, Storage, StoredObject, VerifyError, Walk,
};
use radicle_node::storage::manifest::{decode_refs, read_u32, read_u64};
use radicle_node::storage::paths;
use radicle_node::storage::refs;
use radicle_node::storage::refs::{compare, Order, Refs, SignedRefs};
use radicle_node::storage::trailers;
use radicle_node::storage::{Error, RefUpdate};

const SIGNATURE_REF: &str = "radicle/signature";

fn signer(n: u8) -> KeyPair {
    let mut seed = [0u8; 32];
    seed[0] = n;
    seed[1] = 0x55;
    KeyPair::from_seed(seed).unwrap()
}

fn oid(a: u8, b: u8) -> Oid {
    let mut bytes = [a; 20];
    bytes[19] = b;
    Oid(bytes)
}

fn name(s: &str) -> RefString {
    RefString::try_from(s).unwrap()
}

fn full(signer: &KeyPair, name: &str) -> String {
    format!("refs/remotes/{}/{}", signer.public_key().to_human(), name)
}

/// Give `repo` a remote for `signer` with a master branch, an identity
/// branch and signed references.
fn remote(repo: &mut Repository, n: u8, signer: &KeyPair, master: Oid) {
    let identity = oid(n, 1);
    repo.set_reference(full(signer, "heads/master"), master);
    repo.set_reference(full(signer, "heads/radicle/id"), identity);
    repo.objects.push(StoredObject {
        oid: identity,
        object: Object::Identity { root: repo.id, consistent: true },
    });
    repo.sign_refs(signer, oid(n, 2));
}

/// A repository with one remote for each of `signers`.
fn fixture(proj: Id, signers: &[u8]) -> Repository {
    let mut repo = Repository::new(proj);
    for n in signers {
        remote(&mut repo, *n, &signer(*n), oid(*n, 0));
    }
    repo
}

fn proj() -> Id {
    Id([0xab; 20])
}

#[test]
fn test_remote_refs() {
    let project = fixture(proj(), &[1, 2, 3]);
    let remotes = project.remotes().unwrap();
    assert_eq!(remotes.len(), 3);

    for remote in remotes {
        // Strip the remote refs of sigrefs so we can compare them.
        let mut refs = project.references(&remote.id);
        refs.remove(SIGNATURE_REF).unwrap();

        assert_eq!(refs, remote.refs.refs);
    }
}

#[test]
fn test_sign_refs() {
    let signer = signer(1);
    let alice = *signer.public_key();
    let mut project = Repository::new(Id([1; 20]));

    project.set_reference(full(&signer, "heads/master"), oid(1, 1));

    let signed = project.sign_refs(&signer, oid(1, 2));
    let remote = project.remote(&alice).unwrap();
    let mut unsigned = project.references(&alice);

    // The signed refs doesn't contain the signature ref itself.
    unsigned.remove(SIGNATURE_REF).unwrap();

    assert_eq!(remote.refs, signed);
    assert_eq!(remote.refs.refs, unsigned);
    assert_eq!(unsigned.len(), 1);
    assert_eq!(unsigned.get("heads/master"), Some(oid(1, 1)));
    assert!(signed.signature != Signature([0; 64]));
    assert!(alice.verify(&signed.refs.canonical(), &signed.signature));
}

#[test]
fn sign_refs_again_leaves_the_old_signature_out() {
    let signer = signer(1);
    let mut project = fixture(proj(), &[1]);
    let first = project.remote(signer.public_key()).unwrap();
    project.set_reference(full(&signer, "heads/dev"), oid(3, 3));
    let signed = project.sign_refs(&signer, oid(3, 4));
    assert_eq!(signed.refs.get(SIGNATURE_REF), None);
    assert_eq!(signed.refs.len(), first.refs.refs.len() + 1);
    assert_eq!(project.reference_oid(signer.public_key(), SIGNATURE_REF), Some(oid(3, 4)));
    assert_eq!(project.verify(), Ok(()));
}

#[test]
fn fetch_steps_in_order() {
    let mut fetch = Fetch::new();
    assert_eq!(fetch.action(), Action::Clone);
    assert_eq!(fetch.step(Event::Cloned), Action::Stage);
    assert_eq!(fetch.action(), Action::Stage);
    assert_eq!(fetch.step(Event::Staged(fixture(proj(), &[1, 2]))), Action::Promote);
    assert_eq!(fetch.action(), Action::Promote);
    let updates = vec![RefUpdate::Created { name: name("refs/remotes/x/heads/master"), oid: oid(1, 0) }];
    assert_eq!(fetch.step(Event::Promoted(updates.clone())), Action::Finish);
    assert_eq!(fetch.action(), Action::Finish);
    assert_eq!(fetch.finish(), Some(Ok(updates)));
}

#[test]
fn fetch_of_an_invalid_copy_is_never_promoted() {
    // An extra ref that the remote has not signed.
    let mut copy = fixture(proj(), &[1]);
    copy.set_reference(full(&signer(1), "heads/evil"), oid(6, 6));

    let mut fetch = Fetch::new();
    assert_eq!(fetch.step(Event::Cloned), Action::Stage);
    assert_eq!(fetch.step(Event::Staged(copy)), Action::Finish);
    // Nothing brings the fetch back.
    assert_eq!(fetch.step(Event::Staged(fixture(proj(), &[1]))), Action::Finish);
    assert_eq!(fetch.step(Event::Promoted(vec![])), Action::Finish);
    assert_eq!(
        fetch.finish(),
        Some(Err(FetchError::Verify(VerifyError::InvalidRefTarget(
            *signer(1).public_key(),
            name("heads/evil"),
            oid(6, 6)
        ))))
    );
}

#[test]
fn fetch_of_a_copy_with_other_references_is_never_promoted() {
    // Every reference of a repository belongs to a remote.
    let mut copy = fixture(proj(), &[1]);
    copy.refs.push(Reference { name: Some("refs/heads/local".to_string()), target: Some(oid(8, 8)) });
    let mut fetch = Fetch::new();
    fetch.step(Event::Cloned);
    assert_eq!(fetch.step(Event::Staged(copy)), Action::Finish);
    assert_eq!(
        fetch.finish(),
        Some(Err(FetchError::Verify(VerifyError::Ref(RefError::InvalidName))))
    );
}

#[test]
fn fetch_ends_with_the_first_failure() {
    let mut fetch = Fetch::new();
    assert_eq!(fetch.step(Event::Failed(Failure::Io)), Action::Finish);
    assert_eq!(fetch.step(Event::Failed(Failure::Git)), Action::Finish);
    assert_eq!(fetch.finish(), Some(Err(FetchError::Io)));

    let mut fetch = Fetch::new();
    fetch.step(Event::Cloned);
    assert_eq!(fetch.step(Event::Failed(Failure::Git)), Action::Finish);
    assert_eq!(fetch.finish(), Some(Err(FetchError::Git)));

    let mut fetch = Fetch::new();
    fetch.step(Event::Cloned);
    fetch.step(Event::Staged(fixture(proj(), &[1])));
    assert_eq!(fetch.step(Event::Failed(Failure::Git)), Action::Finish);
    assert_eq!(fetch.finish(), Some(Err(FetchError::Git)));

    assert_eq!(Failure::Git.into_error(), FetchError::Git);
    assert_eq!(Failure::Io.into_error(), FetchError::Io);
}

#[test]
fn fetch_ignores_what_it_does_not_wait_for() {
    let mut fetch = Fetch::new();
    // No staging copy was asked for yet: a valid one changes nothing.
    assert_eq!(fetch.step(Event::Staged(fixture(proj(), &[1]))), Action::Clone);
    assert_eq!(fetch.step(Event::Promoted(vec![])), Action::Clone);
    assert_eq!(fetch.step(Event::Cloned), Action::Stage);
    assert_eq!(fetch.step(Event::Cloned), Action::Stage);
    assert_eq!(fetch.step(Event::Promoted(vec![])), Action::Stage);
    assert_eq!(fetch.step(Event::Staged(Repository::new(proj()))), Action::Promote);
    assert_eq!(fetch.step(Event::Cloned), Action::Promote);
    assert_eq!(fetch.step(Event::Staged(Repository::new(proj()))), Action::Promote);
    // A fetch that is not over has no result.
    assert_eq!(fetch.finish(), None);
    assert_eq!(Fetch::new().finish(), None);
}

#[test]
fn tip_of_a_fetched_reference() {
    let n = "refs/remotes/x/heads/master";
    assert_eq!(
        tip(n, Oid::null(), oid(1, 1)),
        Some(RefUpdate::Created { name: name(n), oid: oid(1, 1) })
    );
    assert_eq!(
        tip(n, oid(1, 1), oid(2, 2)),
        Some(RefUpdate::Updated { name: name(n), old: oid(1, 1), new: oid(2, 2) })
    );
    assert_eq!(
        tip(n, oid(1, 1), Oid::null()),
        Some(RefUpdate::Deleted { name: name(n), oid: oid(1, 1) })
    );
    assert_eq!(tip("refs/remotes/x/bad name", Oid::null(), oid(1, 1)), None);
    assert_eq!(tip("", Oid::null(), oid(1, 1)), None);
}

#[test]
fn sign_and_store_in_two_steps() {
    let signer = signer(1);
    let mut project = Repository::new(proj());
    project.set_reference(full(&signer, "heads/master"), oid(1, 1));
    project.set_reference(full(&signer, SIGNATURE_REF), oid(4, 4));

    let (remote, signed) = project.sign(&signer);
    assert_eq!(remote, *signer.public_key());
    assert_eq!(signed.refs.len(), 1);
    assert_eq!(signed.refs.get("heads/master"), Some(oid(1, 1)));
    assert_eq!(signed.refs.get(SIGNATURE_REF), None);
    assert!(remote.verify(&signed.refs.canonical(), &signed.signature));

    project.store(&remote, &signed, oid(1, 2));
    assert_eq!(project.reference_oid(&remote, SIGNATURE_REF), Some(oid(1, 2)));
    assert_eq!(project.remote(&remote).unwrap().refs, signed);
}

#[test]
fn verify_signed_entry_under_the_signature_name() {
    // A remote that has signed an entry under the name of the signature
    // reference: no reference can carry it.
    let signer = signer(1);
    let key = *signer.public_key();
    let mut repo = Repository::new(proj());
    repo.set_reference(full(&signer, "heads/radicle/id"), oid(1, 1));
    repo.objects.push(StoredObject {
        oid: oid(1, 1),
        object: Object::Identity { root: repo.id, consistent: true },
    });
    let mut refs = Refs::new();
    refs.insert(name("heads/radicle/id"), oid(1, 1));
    refs.insert(name(SIGNATURE_REF), oid(7, 7));
    let signed = refs.signed(&signer);
    repo.store(&key, &signed, oid(1, 2));
    assert_eq!(repo.remote(&key).unwrap().refs, signed);
    assert_eq!(repo.verify(), Err(VerifyError::MissingRef(key, name(SIGNATURE_REF))));

    // The same, with the entry pointing where the signature reference
    // points.
    let mut repo = Repository::new(proj());
    repo.set_reference(full(&signer, "heads/radicle/id"), oid(1, 1));
    repo.objects.push(StoredObject {
        oid: oid(1, 1),
        object: Object::Identity { root: repo.id, consistent: true },
    });
    let mut refs = Refs::new();
    refs.insert(name("heads/radicle/id"), oid(1, 1));
    refs.insert(name(SIGNATURE_REF), oid(1, 2));
    let signed = refs.signed(&signer);
    repo.store(&key, &signed, oid(1, 2));
    assert_eq!(repo.verify(), Err(VerifyError::MissingRef(key, name(SIGNATURE_REF))));
}

#[test]
fn identity_heads_need_every_remote() {
    // One remote with an identity branch, one without.
    let mut repo = fixture(proj(), &[1]);
    let other = signer(2);
    repo.set_reference(full(&other, "heads/master"), oid(2, 0));
    repo.sign_refs(&other, oid(2, 2));
    assert_eq!(repo.identity_heads(), Err(ProjectError::InvalidState));
    // With it, there are heads again.
    repo.set_reference(full(&other, "heads/radicle/id"), oid(2, 1));
    assert_eq!(repo.identity_heads(), Ok(vec![oid(1, 1), oid(2, 1)]));
    // A signature reference that cannot be read.
    let mut repo = fixture(proj(), &[1]);
    repo.set_reference(full(&other, SIGNATURE_REF), oid(9, 9));
    assert_eq!(repo.identity_heads(), Err(ProjectError::Refs(refs::Error::NotFound)));
}

#[test]
fn verify_valid_repository() {
    assert_eq!(Repository::new(proj()).verify(), Ok(()));
    assert_eq!(fixture(proj(), &[1, 2, 3]).verify(), Ok(()));
    assert_eq!(Repository::new(proj()).is_empty(), Ok(true));
    assert_eq!(fixture(proj(), &[1]).is_empty(), Ok(false));
}

#[test]
fn verify_after_success_refs_and_signed_refs_agree() {
    let repo = fixture(proj(), &[1, 2]);
    assert_eq!(repo.verify(), Ok(()));
    let remotes = repo.remotes().unwrap();
    for r in &repo.refs {
        let (id, refname) = parse_ref(r.name.as_ref().unwrap()).unwrap();
        if refname.as_str() == SIGNATURE_REF {
            continue;
        }
        let remote = remotes.iter().find(|m| m.id == id).unwrap();
        assert_eq!(remote.refs.refs.get(refname.as_str()), r.target);
    }
    for remote in &remotes {
        for i in 0..remote.refs.refs.len() {
            let entry = remote.refs.refs.entry(i);
            assert_eq!(repo.reference_oid(&remote.id, entry.name.as_str()), Some(entry.oid));
        }
    }
}

#[test]
fn verify_invalid_ref_target() {
    let mut repo = fixture(proj(), &[1]);
    repo.set_reference(full(&signer(1), "heads/master"), oid(7, 7));
    assert_eq!(
        repo.verify(),
        Err(VerifyError::InvalidRefTarget(*signer(1).public_key(), name("heads/master"), oid(7, 7)))
    );
}

#[test]
fn verify_missing_ref() {
    let mut repo = fixture(proj(), &[1]);
    let master = full(&signer(1), "heads/master");
    repo.refs.retain(|r| r.name.as_deref() != Some(master.as_str()));
    assert_eq!(
        repo.verify(),
        Err(VerifyError::MissingRef(*signer(1).public_key(), name("heads/master")))
    );
}

#[test]
fn verify_invalid_remote() {
    let mut repo = fixture(proj(), &[1]);
    repo.set_reference(full(&signer(2), "heads/master"), oid(2, 0));
    assert_eq!(repo.verify(), Err(VerifyError::InvalidRemote(*signer(2).public_key())));
}

#[test]
fn verify_invalid_ref() {
    let mut repo = fixture(proj(), &[1]);
    repo.refs.push(Reference { name: None, target: Some(oid(1, 1)) });
    assert_eq!(repo.verify(), Err(VerifyError::InvalidRef));
    let mut repo = fixture(proj(), &[1]);
    repo.refs.push(Reference { name: Some(full(&signer(1), "HEAD")), target: None });
    assert_eq!(repo.verify(), Err(VerifyError::InvalidRef));
}

#[test]
fn verify_unreadable_names() {
    let mut repo = fixture(proj(), &[1]);
    repo.set_reference("refs/heads/master".to_string(), oid(1, 1));
    assert_eq!(repo.verify(), Err(VerifyError::Ref(RefError::InvalidName)));

    let mut repo = fixture(proj(), &[1]);
    repo.set_reference("refs/remotes/nobody/heads/master".to_string(), oid(1, 1));
    assert!(matches!(repo.verify(), Err(VerifyError::Ref(RefError::InvalidRemote(_)))));

    let mut repo = fixture(proj(), &[1]);
    repo.set_reference(full(&signer(1), "heads/a..b"), oid(1, 1));
    assert_eq!(repo.verify(), Err(VerifyError::Ref(RefError::InvalidRef)));
}

#[test]
fn verify_bad_signed_refs() {
    // The signature is another node's.
    let mut repo = Repository::new(proj());
    remote(&mut repo, 1, &signer(1), oid(1, 0));
    let theirs = repo.remote(signer(1).public_key()).unwrap();
    let forged = SignedRefs::new(theirs.refs.refs.clone(), signer(2).sign(b"x"));
    repo.objects.push(StoredObject { oid: oid(5, 5), object: Object::Manifest(forged) });
    repo.set_reference(full(&signer(1), SIGNATURE_REF), oid(5, 5));
    assert_eq!(repo.verify(), Err(VerifyError::Refs(refs::Error::InvalidSignature)));
    assert_eq!(repo.remote(signer(1).public_key()).unwrap_err(), refs::Error::InvalidSignature);

    // The signature reference points to nothing that is there.
    repo.set_reference(full(&signer(1), SIGNATURE_REF), oid(5, 6));
    assert_eq!(repo.verify(), Err(VerifyError::Refs(refs::Error::NotFound)));

    // A node without a signature reference has no remote.
    assert_eq!(repo.remote(signer(3).public_key()).unwrap_err(), refs::Error::NotFound);

    // The signature reference has no target.
    let mut repo = Repository::new(proj());
    repo.refs.push(Reference { name: Some(full(&signer(1), SIGNATURE_REF)), target: None });
    assert_eq!(repo.remote(signer(1).public_key()).unwrap_err(), refs::Error::InvalidRef);
    assert_eq!(repo.verify(), Err(VerifyError::Refs(refs::Error::InvalidRef)));
    assert_eq!(repo.remotes().unwrap_err(), refs::Error::InvalidRef);
    assert_eq!(repo.identity_heads(), Err(ProjectError::Refs(refs::Error::InvalidRef)));
}

#[test]
fn verify_invalid_identity() {
    let key = *signer(1).public_key();

    // The history starts from another project.
    let mut repo = fixture(proj(), &[1]);
    repo.id = Id([0xcd; 20]);
    assert_eq!(repo.verify(), Err(VerifyError::InvalidIdentity(IdentityError::MismatchedRoot)));
    assert_eq!(repo.identity(&key).unwrap().root, proj());

    // The history is not consistent.
    let mut repo = fixture(proj(), &[1]);
    for o in repo.objects.iter_mut() {
        if let Object::Identity { consistent, .. } = &mut o.object {
            *consistent = false;
        }
    }
    assert_eq!(repo.verify(), Err(VerifyError::InvalidIdentity(IdentityError::Inconsistent)));
    assert_eq!(repo.identity_verified(&key), Err(IdentityError::Inconsistent));

    // There is no history.
    let signer = signer(1);
    let mut repo = Repository::new(proj());
    repo.set_reference(full(&signer, "heads/master"), oid(1, 0));
    repo.sign_refs(&signer, oid(1, 2));
    assert_eq!(repo.verify(), Err(VerifyError::InvalidIdentity(IdentityError::NotFound)));
    assert_eq!(repo.identity(&key), Err(IdentityError::NotFound));
}

#[test]
fn canonical_identity() {
    let (a, b, c) = (oid(1, 1), oid(2, 2), oid(3, 3));
    // `head` extends `longest`.
    assert_eq!(extend(a, b, a), Ok(b));
    // `head` is an ancestor of `longest`, or equal to it.
    assert_eq!(extend(a, b, b), Ok(a));
    assert_eq!(extend(a, a, a), Ok(a));
    assert_eq!(extend(a, a, c), Ok(a));
    // Neither: the branches have diverged.
    assert_eq!(extend(a, b, c), Err(ProjectError::BranchesDiverge));

    assert!(matches!(Walk::start(vec![]), Err(ProjectError::InvalidState)));

    // c extends b extends a.
    let base = |x: Oid, y: Oid| if x == a || y == a { a } else if x == b || y == b { b } else { c };
    let mut walk = Walk::start(vec![a, c, b]).unwrap();
    assert_eq!(walk.finish(), None);
    while let Some((head, longest)) = walk.query() {
        walk.advance(base(head, longest)).unwrap();
    }
    assert_eq!(walk.finish(), Some(c));

    // Diverging histories have no canonical head.
    let mut walk = Walk::start(vec![b, c]).unwrap();
    assert_eq!(walk.query(), Some((b, c)));
    assert_eq!(walk.advance(a), Err(ProjectError::BranchesDiverge));
    assert_eq!(walk.finish(), None);
}

#[test]
fn identity_heads_of_remotes() {
    let repo = fixture(proj(), &[1, 2]);
    assert_eq!(repo.identity_heads(), Ok(vec![oid(1, 1), oid(2, 1)]));
    assert_eq!(Repository::new(proj()).identity_heads(), Ok(vec![]));
    let signer = signer(1);
    let mut repo = Repository::new(proj());
    repo.set_reference(full(&signer, "heads/master"), oid(1, 0));
    repo.sign_refs(&signer, oid(1, 2));
    assert_eq!(repo.identity_heads(), Err(ProjectError::InvalidState));
}

#[test]
fn ref_update_from_tip_movement() {
    let n = name("refs/remotes/x/heads/master");
    let zero = Oid::null();
    assert!(zero.is_zero());
    assert!(!oid(0, 1).is_zero());
    assert_eq!(
        RefUpdate::from(n.clone(), zero, oid(1, 1)),
        RefUpdate::Created { name: n.clone(), oid: oid(1, 1) }
    );
    assert_eq!(
        RefUpdate::from(n.clone(), oid(1, 1), zero),
        RefUpdate::Deleted { name: n.clone(), oid: oid(1, 1) }
    );
    assert_eq!(
        RefUpdate::from(n.clone(), oid(1, 1), oid(2, 2)),
        RefUpdate::Updated { name: n.clone(), old: oid(1, 1), new: oid(2, 2) }
    );
}

#[test]
fn refs_are_kept_in_order() {
    let mut refs = Refs::new();
    assert!(refs.is_empty());
    for n in ["heads/master", "heads/dev", "tags/v1", "heads/a", "heads/master"] {
        refs.insert(name(n), oid(1, n.len() as u8));
    }
    assert_eq!(refs.len(), 4);
    let names: Vec<&str> = (0..refs.len()).map(|i| refs.entry(i).name.as_str()).collect();
    assert_eq!(names, vec!["heads/a", "heads/dev", "heads/master", "tags/v1"]);
    assert_eq!(refs.get("heads/dev"), Some(oid(1, 9)));
    assert_eq!(refs.get("heads/none"), None);
    assert_eq!(refs.remove("heads/dev"), Some(oid(1, 9)));
    assert_eq!(refs.remove("heads/dev"), None);
    assert_eq!(refs.len(), 3);

    // The canonical bytes do not depend on the order of insertion.
    let mut other = Refs::new();
    for n in ["tags/v1", "heads/master", "heads/a"] {
        other.insert(name(n), oid(1, n.len() as u8));
    }
    assert_eq!(refs.canonical(), other.canonical());
    assert_eq!(refs, other);
}

#[test]
fn refs_canonical_bytes() {
    assert_eq!(Refs::new().canonical(), vec![0u8; 8]);
    let mut refs = Refs::new();
    refs.insert(name("ab"), oid(7, 9));
    let mut expected = vec![0, 0, 0, 0, 0, 0, 0, 1];
    expected.extend([0, 0, 0, 0, 0, 0, 0, 2]);
    expected.extend([0, 0, 0, b'a', 0, 0, 0, b'b']);
    expected.extend(oid(7, 9).0);
    assert_eq!(refs.canonical(), expected);
}

#[test]
fn text_order() {
    assert_eq!(compare("a", "b"), Order::Before);
    assert_eq!(compare("b", "a"), Order::After);
    assert_eq!(compare("abc", "abc"), Order::Same);
    assert_eq!(compare("ab", "abc"), Order::Before);
    assert_eq!(compare("abc", "ab"), Order::After);
    assert_eq!(compare("", ""), Order::Same);
    assert_eq!(compare("", "a"), Order::Before);
    assert_eq!(compare("a", "é"), Order::Before);
}

#[test]
fn signed_refs_are_checked_against_the_signer() {
    let mut refs = Refs::new();
    refs.insert(name("heads/master"), oid(1, 1));
    let signed = refs.clone().signed(&signer(1));
    assert_eq!(signed.refs, refs);
    let stored = signed.unverified();
    assert!(stored.duplicate().verified(signer(1).public_key()).is_some());
    assert!(stored.verified(signer(2).public_key()).is_none());
}

#[test]
fn parse_ref_splits_remote_and_name() {
    let key = *signer(1).public_key();
    assert_eq!(parse_ref(&full(&signer(1), "heads/master")), Ok((key, name("heads/master"))));
    assert_eq!(
        parse_ref(&full(&signer(1), SIGNATURE_REF)),
        Ok((key, name("radicle/signature")))
    );
    assert_eq!(parse_ref("refs/heads/master"), Err(RefError::InvalidName));
    assert_eq!(parse_ref("refs/remotes/"), Err(RefError::InvalidName));
    assert_eq!(parse_ref("refs/remotes/abc"), Err(RefError::InvalidName));
    assert_eq!(parse_ref(""), Err(RefError::InvalidName));
    assert_eq!(
        parse_ref("refs/remotes/zCn8eVZg/heads/master"),
        Err(RefError::InvalidRemote(PublicKeyError::InvalidLength(5)))
    );
    assert_eq!(parse_ref(&full(&signer(1), "")), Err(RefError::InvalidRef));
    assert_eq!(parse_ref(&full(&signer(1), "heads/master.lock")), Err(RefError::InvalidRef));
}

#[test]
fn ref_names_are_checked() {
    assert!(RefString::try_from("heads/master").is_some());
    assert!(RefString::try_from("master").is_some());
    for bad in ["", "@", "a//b", "a/", "a..b", "a b", "a~b", "a^b", "a:b", "a?b", "a[b", "a*", ".a", "a.lock"] {
        assert!(RefString::try_from(bad).is_none(), "{:?}", bad);
    }
    assert!(name("a").same(&name("a")));
    assert!(!name("a").same(&name("b")));
}

#[test]
fn storage_paths_and_urls() {
    let storage = Storage::new("/var/lib/radicle".to_string());
    let id = Id([0; 20]);
    let text = id.to_human();
    assert_eq!(text, "z11111111111111111111");
    assert_eq!(storage.path(), "/var/lib/radicle");
    assert_eq!(paths::repository(&storage, &id), format!("/var/lib/radicle/{text}"));
    assert_eq!(
        storage.url(&id),
        Url { scheme: Scheme::File, host: None, port: None, path: format!("/var/lib/radicle/{text}") }
    );

    assert_eq!(paths::join("/a/", "b"), "/a/b");
    assert_eq!(paths::join("/a", "b"), "/a/b");
    assert_eq!(paths::join("/a", "/b"), "/b");
    assert_eq!(paths::join("", "b"), "b");
    assert_eq!(paths::join("/a", ""), "/a/");

    let remote = Url {
        scheme: Scheme::Git,
        host: Some(Host::Ip(IpAddr::V4(0x7f000001))),
        port: Some(8776),
        path: String::new(),
    };
    let url = Storage::fetch_url(&remote, &id);
    assert_eq!(url.path, format!("/{text}"));
    assert_eq!(url.scheme, Scheme::Git);
    assert_eq!(url.host, remote.host);
    assert_eq!(url.port, Some(8776));
}

#[test]
fn storage_projects_from_directory_names() {
    let a = Id([1; 20]);
    let b = Id([2; 20]);
    assert_eq!(Storage::projects(&vec![a.to_human(), b.to_human()]), Ok(vec![a, b]));
    assert_eq!(Storage::projects(&vec![]), Ok(vec![]));
    assert_eq!(Storage::projects(&vec![a.to_human(), "tmp".to_string()]), Err(Error::InvalidId));
}

#[test]
fn project_id_round_trip() {
    for n in 0..16u8 {
        let id = Id([n.wrapping_mul(17); 20]);
        assert_eq!(Id::from_str(&id.to_human()), Ok(id));
    }
    assert_eq!(Id::from_str("zCn8eVZg"), Err(IdError::InvalidLength(5)));
    assert!(matches!(Id::from_str("?"), Err(IdError::Multibase(_))));
}

#[test]
fn signatures_in_trailers() {
    let alice = signer(1);
    let bob = signer(2);
    let sig_a = alice.sign(b"doc");
    let sig_b = bob.sign(b"doc");
    let msg = format!(
        "Update identity\n\nSome text.\n\nSigned-off-by: Alice\nRad-Signature: {} {}\nRad-Signature: {} {}\n",
        alice.public_key().to_human(),
        sig_a.to_human(),
        bob.public_key().to_human(),
        sig_b.to_human(),
    );
    assert_eq!(
        trailers::parse_signatures(&msg),
        Ok(vec![(*alice.public_key(), sig_a), (*bob.public_key(), sig_b)])
    );
    assert_eq!(trailers::parse_signatures("No trailers here\n"), Ok(vec![]));
    assert_eq!(trailers::parse_signatures(""), Ok(vec![]));
}

#[test]
fn bad_signature_trailers() {
    let alice = signer(1);
    let key = alice.public_key().to_human();
    let sig = alice.sign(b"doc").to_human();

    let msg = format!("Title\n\nRad-Signature: {key}\n");
    assert_eq!(trailers::parse_signatures(&msg), Err(trailers::Error::SignatureTrailerFormat));

    let msg = format!("Title\n\nRad-Signature: zCn8eVZg {sig}\n");
    assert_eq!(
        trailers::parse_signatures(&msg),
        Err(trailers::Error::PublicKey(PublicKeyError::InvalidLength(5)))
    );

    let msg = format!("Title\n\nRad-Signature: {key} {key}\n");
    assert!(matches!(trailers::parse_signatures(&msg), Err(trailers::Error::Signature(_))));

    assert_eq!(
        trailers::parse_signature("nospace"),
        Err(trailers::Error::SignatureTrailerFormat)
    );
    assert_eq!(trailers::parse_signature(&format!("{key} {sig}")).unwrap().0, *alice.public_key());
    assert_eq!(
        trailers::signatures_from(None),
        Err(trailers::Error::SignatureTrailerFormat)
    );
}

#[test]
fn stored_form_of_signed_refs() {
    let mut refs = Refs::new();
    refs.insert(name("heads/master"), oid(1, 1));
    refs.insert(name("heads/dév"), oid(2, 2));
    refs.insert(name("tags/v1"), oid(3, 3));
    let signed = refs.clone().signed(&signer(1));

    let bytes = signed.to_bytes();
    assert_eq!(&bytes[..64], &signed.signature.0);
    assert_eq!(&bytes[64..], refs.canonical());

    let stored = SignedRefs::from_bytes(&bytes).unwrap();
    assert_eq!(stored.refs, refs);
    assert_eq!(stored.signature, signed.signature);
    assert!(stored.verified(signer(1).public_key()).is_some());

    // No references at all.
    let empty = Refs::new().signed(&signer(1));
    assert_eq!(empty.to_bytes().len(), 72);
    assert!(SignedRefs::from_bytes(&empty.to_bytes()).unwrap().refs.is_empty());
}

#[test]
fn stored_form_that_cannot_be_read() {
    let mut refs = Refs::new();
    refs.insert(name("a"), oid(1, 1));
    refs.insert(name("b"), oid(2, 2));
    let bytes = refs.canonical();
    assert_eq!(decode_refs(&bytes, 0), Some(refs.clone()));
    assert_eq!(bytes.len(), 8 + 2 * (8 + 4 + 20));

    // Cut short, or with something behind.
    for n in 0..bytes.len() {
        assert_eq!(decode_refs(&bytes[..n], 0), None);
    }
    let mut longer = bytes.clone();
    longer.push(0);
    assert_eq!(decode_refs(&longer, 0), None);
    assert_eq!(decode_refs(&longer, longer.len()), None);
    // A wrong count.
    let mut wrong = bytes.clone();
    wrong[7] = 3;
    assert_eq!(decode_refs(&wrong, 0), None);
    wrong[7] = 1;
    assert_eq!(decode_refs(&wrong, 0), None);
    wrong[0] = 0xff;
    assert_eq!(decode_refs(&wrong, 0), None);
    // Names out of order, or twice.
    let mut unsorted = bytes.clone();
    unsorted[19] = b'c';
    assert_eq!(decode_refs(&unsorted, 0), None);
    unsorted[19] = b'b';
    assert_eq!(decode_refs(&unsorted, 0), None);
    // A name that is not well formed, and one that is no text.
    let mut bad = bytes.clone();
    bad[19] = b' ';
    assert_eq!(decode_refs(&bad, 0), None);
    bad[17] = 0xd8;
    assert_eq!(decode_refs(&bad, 0), None);
    bad[16] = 0xff;
    assert_eq!(decode_refs(&bad, 0), None);
    // A name longer than the bytes.
    let mut long = bytes.clone();
    long[8] = 0x40;
    assert_eq!(decode_refs(&long, 0), None);

    assert!(SignedRefs::from_bytes(&[0u8; 63]).is_none());
    assert!(SignedRefs::from_bytes(&[0u8; 71]).is_none());
    assert!(SignedRefs::from_bytes(&[0u8; 72]).is_some());

    assert_eq!(read_u64(&[1, 2, 3, 4, 5, 6, 7, 8, 9], 1), 0x0203040506070809);
    assert_eq!(read_u32(&[0xff, 0, 0, 1], 0), 0xff000001);
}

#[test]
fn objects_by_the_names_of_references() {
    let s = signer(1);
    assert_eq!(object_kind(&full(&s, SIGNATURE_REF)), Some(ObjectKind::Manifest));
    assert_eq!(object_kind(&full(&s, "heads/radicle/id")), Some(ObjectKind::Identity));
    assert_eq!(object_kind(&full(&s, "heads/master")), None);
    assert_eq!(object_kind("refs/heads/radicle/signature"), None);
    assert_eq!(object_kind("refs/remotes/x/radicle/signature"), None);
    assert_eq!(
        radicle_node::storage::git::signature_ref_name(s.public_key()),
        full(&s, SIGNATURE_REF)
    );
    let remote_ref_name = radicle_node::storage::git::remote_ref_name;
    assert_eq!(remote_ref_name(s.public_key(), "refs/heads/master"), full(&s, "heads/master"));
    assert_eq!(remote_ref_name(s.public_key(), "heads/master"), full(&s, "heads/master"));
    assert_eq!(remote_ref_name(s.public_key(), "refs"), full(&s, "refs"));
    assert_eq!(remote_ref_name(s.public_key(), "refs/"), full(&s, ""));
}

#[test]
fn sign_refs_beside_another_spelling_of_the_key() {
    // The signature reference of the node stands under the hexadecimal
    // form of its key, and points nowhere.
    let signer = signer(1);
    let key = *signer.public_key();
    let hex: String = key.0.iter().map(|b| format!("{:02x}", b)).collect();
    let odd = format!("refs/remotes/f{}/radicle/signature", hex);
    assert_eq!(parse_ref(&odd), Ok((key, name(SIGNATURE_REF))));

    let mut project = Repository::new(proj());
    project.set_reference(odd, oid(4, 4));
    project.set_reference(full(&signer, "heads/master"), oid(1, 1));
    let signed = project.sign_refs(&signer, oid(1, 2));
    assert_eq!(signed.refs.len(), 1);
    assert!(key.verify(&signed.refs.canonical(), &signed.signature));
    // The first reference that reads as the signature reference is the
    // one that is read.
    assert_eq!(project.remote(&key), Err(refs::Error::NotFound));

    // Without it, what was stored is read back.
    project.refs.remove(0);
    assert_eq!(project.remote(&key).unwrap().refs, signed);
    assert_eq!(
        parse_ref(&full(&signer, SIGNATURE_REF)),
        Ok((key, name(SIGNATURE_REF)))
    );
}
