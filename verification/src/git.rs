//! Reference names and repository locations.

use crate::crypto::{PublicKey, PublicKeyError};
use vstd::prelude::*;
use vstd::string::*;

verus! {

/// Whether a text is a well-formed reference name, by the rules that git
/// has for the names of references, with names of one level allowed and
/// patterns not.
pub uninterp spec fn ref_format_valid(name: Seq<char>) -> bool;

/// `git_ref_format::RefString::try_from`. Trusted: it accepts exactly the
/// well-formed names.
#[verifier::external_body]
fn ref_format_check(name: &str) -> (ok: bool)
    ensures
        ok == ref_format_valid(name@),
{
    git_ref_format::RefString::try_from(name).is_ok()
}

/// A well-formed reference name.
#[derive(Debug, PartialEq, Eq, Hash, PartialOrd, Ord)]
pub struct RefString {
    name: String,
}

impl View for RefString {
    type V = Seq<char>;

    closed spec fn view(&self) -> Seq<char> {
        self.name@
    }
}

impl RefString {
    #[verifier::type_invariant]
    spec fn well_formed(self) -> bool {
        ref_format_valid(self.name@)
    }

    /// The name, if the text is a well-formed reference name.
    pub fn try_from(s: &str) -> (r: Option<RefString>)
        ensures
            r is Some == ref_format_valid(s@),
            r matches Some(name) ==> name@ == s@,
    {
        if ref_format_check(s) {
            Some(RefString { name: String::from_str(s) })
        } else {
            None
        }
    }

    /// The text of the name.
    pub fn as_str(&self) -> (s: &str)
        ensures
            s@ == self@,
            ref_format_valid(s@),
    {
        proof {
            use_type_invariant(self);
        }
        self.name.as_str()
    }

    /// Whether two names are the same text.
    pub fn same(&self, other: &RefString) -> (r: bool)
        ensures
            r == (self@ == other@),
    {
        self.name == other.name
    }

}

impl Clone for RefString {
    fn clone(&self) -> (r: RefString)
        ensures
            r@ == self@,
    {
        proof {
            use_type_invariant(self);
        }
        RefString { name: self.name.clone() }
    }
}

/// How a repository is reached.
#[derive(Debug, Copy, Clone, PartialEq, Eq, Structural)]
pub enum Scheme {
    /// A directory on this machine.
    File,
    /// The git protocol.
    Git,
}

/// The machine that a location names.
#[derive(Debug, PartialEq, Eq)]
pub enum Host {
    Name(String),
    Ip(crate::net::IpAddr),
}

/// The mathematical value of a [`Host`].
pub enum HostView {
    Name(Seq<char>),
    Ip(crate::net::IpAddr),
}

impl View for Host {
    type V = HostView;

    open spec fn view(&self) -> HostView {
        match self {
            Host::Name(name) => HostView::Name(name@),
            Host::Ip(ip) => HostView::Ip(*ip),
        }
    }
}

impl Clone for Host {
    fn clone(&self) -> (r: Host)
        ensures
            r@ == self@,
    {
        match self {
            Host::Name(name) => Host::Name(name.clone()),
            Host::Ip(ip) => Host::Ip(*ip),
        }
    }
}

/// The location of a repository.
#[derive(Debug, PartialEq, Eq)]
pub struct Url {
    pub scheme: Scheme,
    pub host: Option<Host>,
    pub port: Option<u16>,
    pub path: String,
}

/// The mathematical value of a [`Url`].
pub struct UrlView {
    pub scheme: Scheme,
    pub host: Option<HostView>,
    pub port: Option<u16>,
    pub path: Seq<char>,
}

impl View for Url {
    type V = UrlView;

    open spec fn view(&self) -> UrlView {
        UrlView {
            scheme: self.scheme,
            host: match self.host {
                Some(host) => Some(host@),
                None => None,
            },
            port: self.port,
            path: self.path@,
        }
    }
}

impl Clone for Url {
    fn clone(&self) -> (r: Url)
        ensures
            r@ == self@,
    {
        Url {
            scheme: self.scheme,
            host: match &self.host {
                Some(host) => Some(host.clone()),
                None => None,
            },
            port: self.port,
            path: self.path.clone(),
        }
    }
}

impl Url {
    /// The location of a directory on this machine.
    pub fn file(path: String) -> (r: Url)
        ensures
            r@ == (UrlView { scheme: Scheme::File, host: None, port: None, path: path@ }),
    {
        Url { scheme: Scheme::File, host: None, port: None, path }
    }

    /// The location `name` below this one: the same place, with a slash and
    /// `name` added to the path.
    pub open spec fn joined(self, name: Seq<char>) -> UrlView {
        UrlView { path: self.path@ + seq!['/'] + name, ..self@ }
    }

    /// The location `name` below this one.
    pub fn join(&self, name: &str) -> (r: Url)
        ensures
            r@ == self.joined(name@),
    {
        let mut url = self.clone();
        proof {
            reveal_strlit("/");
            assert("/"@ =~= seq!['/']);
        }
        url.path.append("/");
        url.path.append(name);
        url
    }
}

/// Why a text does not name a reference of a remote.
#[derive(Debug, Copy, Clone, PartialEq, Eq, Structural)]
pub enum RefError {
    /// The text does not have the form `refs/remotes/<remote>/<name>`.
    InvalidName,
    /// The remote is not a public key.
    InvalidRemote(PublicKeyError),
    /// The name after the remote is not a well-formed reference name.
    InvalidRef,
}

/// Where the references of remotes are kept.
pub open spec fn remotes_prefix() -> Seq<char> {
    seq!['r', 'e', 'f', 's', '/', 'r', 'e', 'm', 'o', 't', 'e', 's', '/']
}

/// Whether `k` is the place of the first slash in `s`.
pub open spec fn first_slash(s: Seq<char>, k: int) -> bool {
    &&& 0 <= k < s.len()
    &&& s[k] == '/'
    &&& forall|j: int| 0 <= j < k ==> s[j] != '/'
}

/// The parts of the full name of a reference of a remote: the text that
/// names the remote, and the name of the reference within that remote.
pub open spec fn remote_ref_parts(s: Seq<char>) -> Option<(Seq<char>, Seq<char>)> {
    if s.len() >= 13 && s.subrange(0, 13) == remotes_prefix() && exists|k: int|
        first_slash(s.subrange(13, s.len() as int), k) {
        let rest = s.subrange(13, s.len() as int);
        let k = choose|k: int| first_slash(rest, k);
        Some((rest.subrange(0, k), rest.subrange(k + 1, rest.len() as int)))
    } else {
        None
    }
}

/// What the full name of a reference means: the key of the remote that owns
/// it and its name within that remote.
pub open spec fn parsed_ref(s: Seq<char>) -> Result<(Seq<u8>, Seq<char>), RefError> {
    match remote_ref_parts(s) {
        None => Err(RefError::InvalidName),
        Some((remote, name)) => match PublicKey::parsed(remote) {
            Err(e) => Err(RefError::InvalidRemote(e)),
            Ok(key) => if ref_format_valid(name) {
                Ok((key, name))
            } else {
                Err(RefError::InvalidRef)
            },
        },
    }
}

/// The first slash of a text is in one place only.
pub proof fn lemma_first_slash_unique(s: Seq<char>, a: int, b: int)
    requires
        first_slash(s, a),
        first_slash(s, b),
    ensures
        a == b,
{
    if a < b {
        assert(s[a] != '/');
    } else if b < a {
        assert(s[b] != '/');
    }
}

/// Find the first slash of a text.
pub fn find_slash(s: &str) -> (r: Option<usize>)
    ensures
        match r {
            Some(k) => first_slash(s@, k as int),
            None => forall|k: int| !first_slash(s@, k),
        },
{
    let n: usize = s.unicode_len();
    let mut i: usize = 0;
    while i < n
        invariant
            n == s@.len(),
            i <= n,
            forall|j: int| 0 <= j < i ==> s@[j] != '/',
        decreases n - i,
    {
        if s.get_char(i) == '/' {
            return Some(i);
        }
        i = i + 1;
    }
    None
}

/// Split the full name of a reference of a remote into the remote and the
/// name within that remote.
pub fn parse_ref(s: &str) -> (r: Result<(PublicKey, RefString), RefError>)
    ensures
        match r {
            Ok((remote, name)) => parsed_ref(s@) == Ok::<_, RefError>((remote@, name@)),
            Err(e) => parsed_ref(s@) == Err::<(Seq<u8>, Seq<char>), _>(e),
        },
{
    let n: usize = s.unicode_len();
    let prefix = "refs/remotes/";
    proof {
        reveal_strlit("refs/remotes/");
        assert(prefix@ =~= remotes_prefix());
    }
    if n < 13 {
        return Err(RefError::InvalidName);
    }
    let head = s.substring_char(0, 13);
    if !str_same(head, prefix) {
        return Err(RefError::InvalidName);
    }
    let rest = s.substring_char(13, n);
    match find_slash(rest) {
        None => Err(RefError::InvalidName),
        Some(k) => {
            let m: usize = rest.unicode_len();
            let remote_text = rest.substring_char(0, k);
            let name_text = rest.substring_char(k + 1, m);
            proof {
                let c = choose|c: int| first_slash(rest@, c);
                lemma_first_slash_unique(rest@, c, k as int);
                assert(remote_ref_parts(s@) == Some((remote_text@, name_text@)));
            }
            match PublicKey::from_str(remote_text) {
                Err(e) => Err(RefError::InvalidRemote(e)),
                Ok(remote) => match RefString::try_from(name_text) {
                    None => Err(RefError::InvalidRef),
                    Some(name) => Ok((remote, name)),
                },
            }
        },
    }
}

/// Whether two texts are the same.
pub fn str_same(a: &str, b: &str) -> (r: bool)
    ensures
        r == (a@ == b@),
{
    let n: usize = a.unicode_len();
    if n != b.unicode_len() {
        return false;
    }
    let mut i: usize = 0;
    while i < n
        invariant
            n == a@.len(),
            n == b@.len(),
            i <= n,
            forall|j: int| 0 <= j < i ==> a@[j] == b@[j],
        decreases n - i,
    {
        if a.get_char(i) != b.get_char(i) {
            return false;
        }
        i = i + 1;
    }
    assert(a@ =~= b@);
    true
}

} // verus!
