//! The signatures that a commit message carries in its trailers.

use crate::crypto::{PublicKey, PublicKeyError, Signature, SignatureError};
use crate::git::str_same;
use vstd::prelude::*;
use vstd::string::*;

verus! {

/// Why the signatures of a commit message could not be read.
#[derive(Debug, Copy, Clone, PartialEq, Eq, Structural)]
pub enum Error {
    /// The trailers cannot be read, or a signature trailer does not hold a
    /// key and a signature with a space between them.
    SignatureTrailerFormat,
    /// The key of a signature trailer is no public key.
    PublicKey(PublicKeyError),
    /// The signature of a signature trailer is no signature.
    Signature(SignatureError),
}

/// The views of a list of trailers.
pub open spec fn trailers_view(trailers: Seq<(String, String)>) -> Seq<(Seq<char>, Seq<char>)> {
    trailers.map_values(|t: (String, String)| (t.0@, t.1@))
}

/// `git2::message_trailers_strs`: the trailers of a commit message, each a
/// key and a value, in the order in which they stand, or none if the
/// message cannot be read. Nothing is claimed of the result: which bytes
/// count as letters and as spaces is the machine's to say.
#[verifier::external_body]
fn trailers_of(msg: &str) -> Option<Vec<(String, String)>> {
    match git2::message_trailers_strs(msg) {
        Ok(found) => Some(found.iter().map(|(k, v)| (k.to_string(), v.to_string())).collect()),
        Err(_) => None,
    }
}

/// The key of the trailers that carry a signature.
pub open spec fn signature_trailer() -> Seq<char> {
    seq!['R', 'a', 'd', '-', 'S', 'i', 'g', 'n', 'a', 't', 'u', 'r', 'e']
}

/// Whether `k` is the place of the first space in `s`.
pub open spec fn first_space(s: Seq<char>, k: int) -> bool {
    &&& 0 <= k < s.len()
    &&& s[k] == ' '
    &&& forall|j: int| 0 <= j < k ==> s[j] != ' '
}

/// The key and the signature that the value of a signature trailer holds:
/// the text before its first space as a public key, and the text after it
/// as a signature.
pub open spec fn signature_in(value: Seq<char>) -> Result<(Seq<u8>, Seq<u8>), Error> {
    if exists|k: int| first_space(value, k) {
        let k = choose|k: int| first_space(value, k);
        match PublicKey::parsed(value.subrange(0, k)) {
            Err(e) => Err(Error::PublicKey(e)),
            Ok(key) => match Signature::parsed(value.subrange(k + 1, value.len() as int)) {
                Err(e) => Err(Error::Signature(e)),
                Ok(sig) => Ok((key, sig)),
            },
        }
    } else {
        Err(Error::SignatureTrailerFormat)
    }
}

/// The signatures in a list of trailers, in the order of the trailers; or
/// the error of the first signature trailer that cannot be read.
pub open spec fn signatures_in(trailers: Seq<(Seq<char>, Seq<char>)>) -> Result<
    Seq<(Seq<u8>, Seq<u8>)>,
    Error,
>
    decreases trailers.len(),
{
    if trailers.len() == 0 {
        Ok(Seq::empty())
    } else {
        match signatures_in(trailers.drop_last()) {
            Err(e) => Err(e),
            Ok(found) => if trailers.last().0 == signature_trailer() {
                match signature_in(trailers.last().1) {
                    Err(e) => Err(e),
                    Ok(pair) => Ok(found.push(pair)),
                }
            } else {
                Ok(found)
            },
        }
    }
}

/// The signatures of a commit message whose trailers are `trailers`.
pub open spec fn signatures_of(trailers: Option<Seq<(Seq<char>, Seq<char>)>>) -> Result<
    Seq<(Seq<u8>, Seq<u8>)>,
    Error,
> {
    match trailers {
        None => Err(Error::SignatureTrailerFormat),
        Some(found) => signatures_in(found),
    }
}

/// The views of a list of signatures: each as the bytes of the key and the
/// bytes of the signature.
pub open spec fn signatures_view(signatures: Seq<(PublicKey, Signature)>) -> Seq<
    (Seq<u8>, Seq<u8>),
> {
    signatures.map_values(|s: (PublicKey, Signature)| (s.0@, s.1@))
}

/// An error among the first trailers is the error of the whole list.
pub proof fn lemma_error_stays(trailers: Seq<(Seq<char>, Seq<char>)>, k: int)
    requires
        0 <= k <= trailers.len(),
        signatures_in(trailers.take(k)) is Err,
    ensures
        signatures_in(trailers) == signatures_in(trailers.take(k)),
    decreases trailers.len() - k,
{
    if k < trailers.len() {
        assert(trailers.take(k + 1).drop_last() =~= trailers.take(k));
        lemma_error_stays(trailers, k + 1);
    } else {
        assert(trailers.take(k) =~= trailers);
    }
}

/// Read the key and the signature out of the value of a signature
/// trailer.
pub fn parse_signature(value: &str) -> (r: Result<(PublicKey, Signature), Error>)
    ensures
        match r {
            Ok((key, sig)) => signature_in(value@) == Ok::<_, Error>((key@, sig@)),
            Err(e) => signature_in(value@) == Err::<(Seq<u8>, Seq<u8>), _>(e),
        },
{
    let n: usize = value.unicode_len();
    let mut i: usize = 0;
    while i < n
        invariant
            n == value@.len(),
            i <= n,
            forall|j: int| 0 <= j < i ==> value@[j] != ' ',
        decreases n - i,
    {
        if value.get_char(i) == ' ' {
            proof {
                let c = choose|c: int| first_space(value@, c);
                assert(first_space(value@, i as int));
                if c < i {
                    assert(value@[c] != ' ');
                } else if i < c {
                    assert(value@[i as int] != ' ');
                }
            }
            let key = match PublicKey::from_str(value.substring_char(0, i)) {
                Ok(key) => key,
                Err(e) => {
                    return Err(Error::PublicKey(e));
                },
            };
            let sig = match Signature::from_str(value.substring_char(i + 1, n)) {
                Ok(sig) => sig,
                Err(e) => {
                    return Err(Error::Signature(e));
                },
            };
            return Ok((key, sig));
        }
        i = i + 1;
    }
    Err(Error::SignatureTrailerFormat)
}

/// The signatures of a commit message, given its trailers.
pub fn signatures_from(trailers: Option<Vec<(String, String)>>) -> (r: Result<
    Vec<(PublicKey, Signature)>,
    Error,
>)
    ensures
        match r {
            Ok(found) => signatures_of(
                match trailers {
                    Some(t) => Some(trailers_view(t@)),
                    None => None,
                },
            ) == Ok::<_, Error>(signatures_view(found@)),
            Err(e) => signatures_of(
                match trailers {
                    Some(t) => Some(trailers_view(t@)),
                    None => None,
                },
            ) == Err::<Seq<(Seq<u8>, Seq<u8>)>, _>(e),
        },
{
    let list = match &trailers {
        Some(list) => list,
        None => {
            return Err(Error::SignatureTrailerFormat);
        },
    };
    proof {
        reveal_strlit("Rad-Signature");
        assert("Rad-Signature"@ =~= signature_trailer());
    }
    let ghost view = trailers_view(list@);
    let mut found: Vec<(PublicKey, Signature)> = Vec::new();
    let n: usize = list.len();
    let mut i: usize = 0;
    assert(view.take(0) =~= Seq::empty());
    assert(signatures_view(found@) =~= Seq::empty());
    while i < n
        invariant
            n == list@.len(),
            trailers == Some(*list),
            view == trailers_view(list@),
            "Rad-Signature"@ == signature_trailer(),
            i <= n,
            signatures_in(view.take(i as int)) == Ok::<_, Error>(signatures_view(found@)),
        decreases n - i,
    {
        proof {
            assert(view.take(i + 1).drop_last() =~= view.take(i as int));
            assert(view.take(i + 1).last() == view[i as int]);
        }
        if str_same(list[i].0.as_str(), "Rad-Signature") {
            match parse_signature(list[i].1.as_str()) {
                Ok(pair) => {
                    let ghost before = signatures_view(found@);
                    found.push(pair);
                    assert(signatures_view(found@) =~= before.push((pair.0@, pair.1@)));
                },
                Err(e) => {
                    proof {
                        lemma_error_stays(view, i + 1);
                    }
                    return Err(e);
                },
            }
        }
        i = i + 1;
    }
    assert(view.take(n as int) =~= view);
    Ok(found)
}

/// The signatures that a commit message carries in its trailers: what
/// [`signatures_from`] makes of the trailers that git finds in the message.
pub fn parse_signatures(msg: &str) -> (r: Result<Vec<(PublicKey, Signature)>, Error>)
    ensures
        exists|trailers: Option<Seq<(Seq<char>, Seq<char>)>>|
            match r {
                Ok(found) => #[trigger] signatures_of(trailers) == Ok::<_, Error>(
                    signatures_view(found@),
                ),
                Err(e) => signatures_of(trailers) == Err::<Seq<(Seq<u8>, Seq<u8>)>, _>(e),
            },
{
    let trailers = trailers_of(msg);
    let ghost view: Option<Seq<(Seq<char>, Seq<char>)>> = match &trailers {
        Some(t) => Some(trailers_view(t@)),
        None => None,
    };
    let r = signatures_from(trailers);
    proof {
        match &r {
            Ok(found) => {
                assert(signatures_of(view) == Ok::<_, Error>(signatures_view(found@)));
            },
            Err(e) => {
                assert(signatures_of(view) == Err::<Seq<(Seq<u8>, Seq<u8>)>, _>(*e));
            },
        }
    }
    r
}

} // verus!
