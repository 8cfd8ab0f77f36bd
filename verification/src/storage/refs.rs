//! The references of a remote, and their signed form.

use crate::bytes::{be_u32, be_u64, put_bytes, put_u32, put_u64};
use crate::crypto::{signature_valid, PublicKey, Signature, Signer, Unverified, Verified};
use crate::git::RefString;
use crate::identity::Oid;
use std::marker::PhantomData;
use vstd::prelude::*;
use vstd::string::*;

verus! {

/// Why the signed references of a remote could not be had.
#[derive(Debug, Copy, Clone, PartialEq, Eq, Structural)]
pub enum Error {
    /// A reference has no name or no target.
    InvalidRef,
    /// The remote has no signed references in the repository.
    NotFound,
    /// The signature is not one of the remote over the references.
    InvalidSignature,
}

/// How one text stands to another in the order of the dictionary.
#[derive(Debug, Copy, Clone, PartialEq, Eq, Structural)]
pub enum Order {
    Before,
    Same,
    After,
}

/// Whether `a` and `b` agree on their first `k` characters and `a` is the
/// smaller one from there on: `a` ends at `k` and `b` does not, or `a` has the
/// smaller character at `k`.
pub open spec fn differ_at(a: Seq<char>, b: Seq<char>, k: int) -> bool {
    &&& 0 <= k <= a.len()
    &&& k < b.len()
    &&& forall|j: int| 0 <= j < k ==> a[j] == b[j]
    &&& k < a.len() ==> (a[k] as u32) < (b[k] as u32)
}

/// Whether `a` comes before `b` in the order of the dictionary.
pub open spec fn lex_less(a: Seq<char>, b: Seq<char>) -> bool {
    exists|k: int| differ_at(a, b, k)
}

/// No text comes before itself.
pub proof fn lemma_lex_irreflexive(a: Seq<char>)
    ensures
        !lex_less(a, a),
{
}

/// The order of the dictionary is transitive.
pub proof fn lemma_lex_transitive(a: Seq<char>, b: Seq<char>, c: Seq<char>)
    requires
        lex_less(a, b),
        lex_less(b, c),
    ensures
        lex_less(a, c),
{
    let k1 = choose|k: int| differ_at(a, b, k);
    let k2 = choose|k: int| differ_at(b, c, k);
    let k = if k1 <= k2 {
        k1
    } else {
        k2
    };
    assert(differ_at(a, c, k));
}

/// Compare two texts in the order of the dictionary.
pub fn compare(a: &str, b: &str) -> (r: Order)
    ensures
        match r {
            Order::Before => lex_less(a@, b@),
            Order::Same => a@ == b@,
            Order::After => lex_less(b@, a@),
        },
{
    let n: usize = a.unicode_len();
    let m: usize = b.unicode_len();
    let mut i: usize = 0;
    while i < n && i < m
        invariant
            n == a@.len(),
            m == b@.len(),
            i <= n,
            i <= m,
            forall|j: int| 0 <= j < i ==> a@[j] == b@[j],
        decreases n - i,
    {
        let x: u32 = a.get_char(i) as u32;
        let y: u32 = b.get_char(i) as u32;
        if x < y {
            assert(differ_at(a@, b@, i as int));
            return Order::Before;
        }
        if y < x {
            assert(differ_at(b@, a@, i as int));
            return Order::After;
        }
        i = i + 1;
    }
    if n < m {
        assert(differ_at(a@, b@, n as int));
        Order::Before
    } else if m < n {
        assert(differ_at(b@, a@, m as int));
        Order::After
    } else {
        assert(a@ =~= b@);
        Order::Same
    }
}

/// Whether the names of a list of references go up strictly.
pub open spec fn strictly_sorted(s: Seq<(Seq<char>, Oid)>) -> bool {
    forall|i: int, j: int| 0 <= i < j < s.len() ==> lex_less(#[trigger] s[i].0, #[trigger] s[j].0)
}

/// Whether `i` is a place in the list where the reference `name` stands.
pub open spec fn at(s: Seq<(Seq<char>, Oid)>, name: Seq<char>, i: int) -> bool {
    0 <= i < s.len() && s[i].0 == name
}

/// The target of the reference `name` in a list, if the list has it.
pub open spec fn lookup(s: Seq<(Seq<char>, Oid)>, name: Seq<char>) -> Option<Oid> {
    if exists|i: int| at(s, name, i) {
        Some(s[choose|i: int| at(s, name, i)].1)
    } else {
        None
    }
}

/// In a sorted list a name stands in one place at most.
pub proof fn lemma_sorted_unique(s: Seq<(Seq<char>, Oid)>, i: int, j: int)
    requires
        strictly_sorted(s),
        0 <= i < s.len(),
        0 <= j < s.len(),
        s[i].0 == s[j].0,
    ensures
        i == j,
{
    lemma_lex_irreflexive(s[i].0);
}

/// In a sorted list, what stands at a place is what a lookup of its name
/// finds.
pub proof fn lemma_lookup_at(s: Seq<(Seq<char>, Oid)>, i: int)
    requires
        strictly_sorted(s),
        0 <= i < s.len(),
    ensures
        lookup(s, s[i].0) == Some(s[i].1),
{
    assert(at(s, s[i].0, i));
    let c = choose|c: int| at(s, s[i].0, c);
    lemma_sorted_unique(s, i, c);
}

/// A name that is found by a lookup stands in the list.
pub proof fn lemma_lookup_found(s: Seq<(Seq<char>, Oid)>, name: Seq<char>) -> (i: int)
    requires
        lookup(s, name) is Some,
    ensures
        at(s, name, i),
        lookup(s, name) == Some(s[i].1),
{
    choose|i: int| at(s, name, i)
}

/// Two sorted lists of references that point every name to the same
/// object are the same list: the order of the names leaves no choice in how
/// a mapping is written down, so that its canonical bytes depend on
/// nothing but the mapping.
pub proof fn lemma_sorted_same(a: Seq<(Seq<char>, Oid)>, b: Seq<(Seq<char>, Oid)>)
    requires
        strictly_sorted(a),
        strictly_sorted(b),
        forall|name: Seq<char>| lookup(a, name) == lookup(b, name),
    ensures
        a == b,
    decreases a.len(),
{
    if a.len() == 0 {
        if b.len() > 0 {
            lemma_lookup_at(b, 0);
            assert(lookup(a, b[0].0) is None) by {
                assert forall|i: int| !at(a, b[0].0, i) by {}
            }
        }
        assert(a =~= b);
    } else {
        let la = a.len() - 1;
        // The last name of `a` stands in `b`, and it stands last there.
        lemma_lookup_at(a, la);
        let j = lemma_lookup_found(b, a[la].0);
        let lb = b.len() - 1;
        if j < lb {
            // Then `b` has a later name, which stands in `a` before or at
            // the last place: the names would go round in a circle.
            lemma_lookup_at(b, lb);
            let i = lemma_lookup_found(a, b[lb].0);
            assert(lex_less(b[j].0, b[lb].0));
            if i < la {
                assert(lex_less(a[i].0, a[la].0));
                lemma_lex_transitive(a[la].0, b[lb].0, a[la].0);
            }
            lemma_lex_irreflexive(a[la].0);
        }
        assert(j == lb);
        assert(a[la] == b[lb]);
        let a0 = a.drop_last();
        let b0 = b.drop_last();
        assert(strictly_sorted(a0)) by {
            assert forall|x: int, y: int| 0 <= x < y < a0.len() implies lex_less(
                #[trigger] a0[x].0,
                #[trigger] a0[y].0,
            ) by {
                assert(a0[x] == a[x] && a0[y] == a[y]);
            }
        }
        assert(strictly_sorted(b0)) by {
            assert forall|x: int, y: int| 0 <= x < y < b0.len() implies lex_less(
                #[trigger] b0[x].0,
                #[trigger] b0[y].0,
            ) by {
                assert(b0[x] == b[x] && b0[y] == b[y]);
            }
        }
        assert forall|name: Seq<char>| lookup(a0, name) == lookup(b0, name) by {
            lemma_lookup_drop_last(a, name);
            lemma_lookup_drop_last(b, name);
        }
        lemma_sorted_same(a0, b0);
        assert(a =~= a0.push(a[la]));
        assert(b =~= b0.push(b[lb]));
    }
}

/// A lookup in a sorted list without its last entry finds what a lookup
/// in the whole list finds, but for the last name, which it does not find.
pub proof fn lemma_lookup_drop_last(s: Seq<(Seq<char>, Oid)>, name: Seq<char>)
    requires
        strictly_sorted(s),
        s.len() > 0,
    ensures
        lookup(s.drop_last(), name) == if name == s.last().0 {
            None
        } else {
            lookup(s, name)
        },
{
    let front = s.drop_last();
    let last = s.len() - 1;
    if name == s.last().0 {
        assert forall|i: int| !at(front, name, i) by {
            if at(front, name, i) {
                assert(front[i] == s[i]);
                lemma_sorted_unique(s, i, last);
            }
        }
    } else if exists|i: int| at(s, name, i) {
        let i = choose|i: int| at(s, name, i);
        assert(i < last);
        assert(front[i] == s[i]);
        assert(at(front, name, i));
        let c = choose|c: int| at(front, name, c);
        assert(front[c] == s[c]);
        lemma_sorted_unique(s, i, c);
    } else {
        assert forall|i: int| !at(front, name, i) by {
            if at(front, name, i) {
                assert(front[i] == s[i]);
                assert(at(s, name, i));
            }
        }
    }
}

/// The bytes that stand for a text: each character as four bytes.
pub open spec fn chars_bytes(s: Seq<char>) -> Seq<u8>
    decreases s.len(),
{
    if s.len() == 0 {
        Seq::<u8>::empty()
    } else {
        chars_bytes(s.drop_last()) + be_u32(s.last() as u32)
    }
}

/// The bytes that stand for a name: its length, then its characters.
pub open spec fn name_bytes(s: Seq<char>) -> Seq<u8> {
    be_u64(s.len() as u64) + chars_bytes(s)
}

/// The bytes that stand for the entries of a list of references, in the
/// order of the list: each name, then the 20 bytes of its target.
pub open spec fn entries_bytes(s: Seq<(Seq<char>, Oid)>) -> Seq<u8>
    decreases s.len(),
{
    if s.len() == 0 {
        Seq::<u8>::empty()
    } else {
        entries_bytes(s.drop_last()) + name_bytes(s.last().0) + s.last().1@
    }
}

/// The canonical bytes of a list of references: the number of entries, then
/// the entries.
pub open spec fn refs_bytes(s: Seq<(Seq<char>, Oid)>) -> Seq<u8> {
    be_u64(s.len() as u64) + entries_bytes(s)
}

/// Append the bytes that stand for a name.
pub fn put_name(buf: &mut Vec<u8>, name: &str)
    ensures
        final(buf)@ == old(buf)@ + name_bytes(name@),
{
    let n: usize = name.unicode_len();
    put_u64(buf, n as u64);
    let ghost start = buf@;
    let mut i: usize = 0;
    assert(chars_bytes(name@.take(0)) =~= Seq::<u8>::empty());
    while i < n
        invariant
            n == name@.len(),
            i <= n,
            buf@ == start + chars_bytes(name@.take(i as int)),
        decreases n - i,
    {
        let c: u32 = name.get_char(i) as u32;
        put_u32(buf, c);
        proof {
            let next = name@.take(i + 1);
            assert(next.drop_last() =~= name@.take(i as int));
            assert(buf@ =~= start + chars_bytes(next));
        }
        i = i + 1;
    }
    assert(name@.take(n as int) =~= name@);
    assert(buf@ =~= old(buf)@ + name_bytes(name@));
}

/// One reference: a name and the object it points to.
#[derive(Debug, PartialEq, Eq)]
pub struct RefEntry {
    pub name: RefString,
    pub oid: Oid,
}

impl View for RefEntry {
    type V = (Seq<char>, Oid);

    open spec fn view(&self) -> (Seq<char>, Oid) {
        (self.name@, self.oid)
    }
}

/// The references of one remote: a mapping from names to objects, kept in the
/// order of the names.
#[derive(Debug, PartialEq, Eq)]
pub struct Refs {
    entries: Vec<RefEntry>,
}

impl View for Refs {
    type V = Seq<(Seq<char>, Oid)>;

    closed spec fn view(&self) -> Seq<(Seq<char>, Oid)> {
        self.entries@.map_values(|e: RefEntry| e@)
    }
}

impl Refs {
    #[verifier::type_invariant]
    spec fn well_formed(self) -> bool {
        strictly_sorted(self@)
    }

    /// The target of `name`, if these references hold it.
    pub open spec fn target(self, name: Seq<char>) -> Option<Oid> {
        lookup(self@, name)
    }

    /// No references.
    pub fn new() -> (refs: Refs)
        ensures
            refs@ == Seq::<(Seq<char>, Oid)>::empty(),
    {
        let refs = Refs { entries: Vec::new() };
        assert(refs@ =~= Seq::<(Seq<char>, Oid)>::empty());
        refs
    }

    /// The number of references. They are sorted by name.
    pub fn len(&self) -> (n: usize)
        ensures
            n == self@.len(),
            strictly_sorted(self@),
    {
        proof {
            use_type_invariant(self);
        }
        self.entries.len()
    }

    /// Whether there are no references.
    pub fn is_empty(&self) -> (r: bool)
        ensures
            r == (self@.len() == 0),
    {
        self.entries.len() == 0
    }

    /// The reference at place `i` in the order of the names.
    pub fn entry(&self, i: usize) -> (e: &RefEntry)
        requires
            i < self@.len(),
        ensures
            e@ == self@[i as int],
    {
        &self.entries[i]
    }

    /// The place of `name`, or the place where it would have to stand.
    fn position(&self, name: &str) -> (r: (usize, bool))
        ensures
            r.0 <= self@.len(),
            forall|j: int| 0 <= j < r.0 ==> lex_less(#[trigger] self@[j].0, name@),
            r.1 ==> r.0 < self@.len() && self@[r.0 as int].0 == name@,
            !r.1 ==> forall|j: int|
                r.0 <= j < self@.len() ==> lex_less(name@, #[trigger] self@[j].0),
    {
        proof {
            use_type_invariant(self);
        }
        let n: usize = self.entries.len();
        let mut i: usize = 0;
        while i < n
            invariant
                n == self@.len(),
                self@ == self.entries@.map_values(|e: RefEntry| e@),
                strictly_sorted(self@),
                i <= n,
                forall|j: int| 0 <= j < i ==> lex_less(#[trigger] self@[j].0, name@),
            decreases n - i,
        {
            match compare(self.entries[i].name.as_str(), name) {
                Order::Before => {},
                Order::Same => {
                    return (i, true);
                },
                Order::After => {
                    assert forall|j: int| i <= j < self@.len() implies lex_less(
                        name@,
                        #[trigger] self@[j].0,
                    ) by {
                        if i < j {
                            lemma_lex_transitive(name@, self@[i as int].0, self@[j].0);
                        }
                    }
                    return (i, false);
                },
            }
            i = i + 1;
        }
        (n, false)
    }

    /// The target of `name`, if these references hold it.
    pub fn get(&self, name: &str) -> (r: Option<Oid>)
        ensures
            r == self.target(name@),
    {
        proof {
            use_type_invariant(self);
        }
        let (i, found) = self.position(name);
        if found {
            proof {
                lemma_lookup_at(self@, i as int);
            }
            Some(self.entries[i].oid)
        } else {
            proof {
                assert forall|j: int| !at(self@, name@, j) by {
                    lemma_lex_irreflexive(name@);
                }
            }
            None
        }
    }

    /// Point `name` to `oid`, whether or not it pointed anywhere before.
    pub fn insert(&mut self, name: RefString, oid: Oid)
        ensures
            final(self).target(name@) == Some(oid),
            forall|other: Seq<char>|
                other != name@ ==> final(self).target(other) == old(self).target(other),
            final(self)@.len() == old(self)@.len() + if old(self).target(name@) is Some {
                0int
            } else {
                1int
            },
    {
        proof {
            use_type_invariant(&*self);
        }
        let ghost before = self@;
        let (i, found) = self.position(name.as_str());
        let ghost key = name@;
        let mut entries: Vec<RefEntry> = Vec::new();
        std::mem::swap(&mut self.entries, &mut entries);
        if found {
            entries[i] = RefEntry { name, oid };
            let ghost after = entries@.map_values(|e: RefEntry| e@);
            proof {
                assert(after =~= before.update(i as int, (key, oid)));
                assert(strictly_sorted(after)) by {
                    assert forall|a: int, b: int| 0 <= a < b < after.len() implies lex_less(
                        #[trigger] after[a].0,
                        #[trigger] after[b].0,
                    ) by {
                        assert(after[a].0 == before[a].0);
                        assert(after[b].0 == before[b].0);
                    }
                }
            }
            self.entries = entries;
            proof {
                lemma_lookup_at(after, i as int);
                lemma_lookup_at(before, i as int);
                assert forall|other: Seq<char>| other != key implies lookup(after, other)
                    == lookup(before, other) by {
                    lemma_lookup_same(before, after, other);
                }
            }
        } else {
            entries.insert(i, RefEntry { name, oid });
            let ghost after = entries@.map_values(|e: RefEntry| e@);
            proof {
                assert(after =~= before.insert(i as int, (key, oid)));
                assert(strictly_sorted(after)) by {
                    assert forall|a: int, b: int| 0 <= a < b < after.len() implies lex_less(
                        #[trigger] after[a].0,
                        #[trigger] after[b].0,
                    ) by {
                        let a0 = if a < i { a } else { a - 1 };
                        let b0 = if b < i { b } else { b - 1 };
                        if a != i && b != i {
                            assert(after[a] == before[a0]);
                            assert(after[b] == before[b0]);
                        } else if a == i {
                            assert(after[b] == before[b0]);
                        } else {
                            assert(after[a] == before[a0]);
                        }
                    }
                }
            }
            self.entries = entries;
            proof {
                lemma_lookup_at(after, i as int);
                assert forall|j: int| !at(before, key, j) by {
                    lemma_lex_irreflexive(key);
                }
                assert forall|other: Seq<char>| other != key implies lookup(after, other)
                    == lookup(before, other) by {
                    if exists|j: int| at(before, other, j) {
                        let j = choose|j: int| at(before, other, j);
                        let j1 = if j < i { j } else { j + 1 };
                        assert(at(after, other, j1));
                        lemma_lookup_at(before, j);
                        lemma_lookup_at(after, j1);
                    } else {
                        assert forall|j: int| !at(after, other, j) by {
                            if at(after, other, j) {
                                let j0 = if j < i { j } else { j - 1 };
                                assert(at(before, other, j0));
                            }
                        }
                    }
                }
            }
        }
    }

    /// Add `name` at the end, if it comes after every name that is there.
    /// Returns whether it does; if not, nothing changes.
    pub fn push_last(&mut self, name: RefString, oid: Oid) -> (pushed: bool)
        ensures
            pushed == (old(self)@.len() == 0 || lex_less(old(self)@.last().0, name@)),
            final(self)@ == if pushed {
                old(self)@.push((name@, oid))
            } else {
                old(self)@
            },
    {
        proof {
            use_type_invariant(&*self);
        }
        let ghost before = self@;
        let n: usize = self.entries.len();
        let after = if n == 0 {
            true
        } else {
            match compare(self.entries[n - 1].name.as_str(), name.as_str()) {
                Order::Before => true,
                Order::Same => {
                    proof {
                        lemma_lex_irreflexive(name@);
                    }
                    false
                },
                Order::After => {
                    proof {
                        if lex_less(before.last().0, name@) {
                            lemma_lex_transitive(name@, before.last().0, name@);
                            lemma_lex_irreflexive(name@);
                        }
                    }
                    false
                },
            }
        };
        if after {
            let ghost key = name@;
            let mut entries: Vec<RefEntry> = Vec::new();
            std::mem::swap(&mut self.entries, &mut entries);
            entries.push(RefEntry { name, oid });
            let ghost made = entries@.map_values(|e: RefEntry| e@);
            proof {
                assert(made =~= before.push((key, oid)));
                assert(strictly_sorted(made)) by {
                    assert forall|a: int, b: int| 0 <= a < b < made.len() implies lex_less(
                        #[trigger] made[a].0,
                        #[trigger] made[b].0,
                    ) by {
                        if b < before.len() {
                            assert(made[a] == before[a] && made[b] == before[b]);
                        } else {
                            assert(made[a] == before[a]);
                            if a < before.len() - 1 {
                                assert(lex_less(before[a].0, before[before.len() - 1].0));
                                lemma_lex_transitive(before[a].0, before.last().0, key);
                            }
                        }
                    }
                }
            }
            self.entries = entries;
        }
        after
    }

    /// Drop the reference `name`, and say where it pointed.
    pub fn remove(&mut self, name: &str) -> (r: Option<Oid>)
        ensures
            r == old(self).target(name@),
            final(self).target(name@) is None,
            forall|other: Seq<char>|
                other != name@ ==> final(self).target(other) == old(self).target(other),
    {
        proof {
            use_type_invariant(&*self);
        }
        let ghost before = self@;
        let (i, found) = self.position(name);
        if found {
            let mut entries: Vec<RefEntry> = Vec::new();
            std::mem::swap(&mut self.entries, &mut entries);
            let entry = entries.remove(i);
            let ghost after = entries@.map_values(|e: RefEntry| e@);
            proof {
                assert(after =~= before.remove(i as int));
                assert(strictly_sorted(after)) by {
                    assert forall|a: int, b: int| 0 <= a < b < after.len() implies lex_less(
                        #[trigger] after[a].0,
                        #[trigger] after[b].0,
                    ) by {
                        let a0 = if a < i { a } else { a + 1 };
                        let b0 = if b < i { b } else { b + 1 };
                        assert(after[a] == before[a0]);
                        assert(after[b] == before[b0]);
                    }
                }
            }
            self.entries = entries;
            proof {
                lemma_lookup_at(before, i as int);
                assert forall|j: int| !at(after, name@, j) by {
                    if at(after, name@, j) {
                        let j0 = if j < i { j } else { j + 1 };
                        lemma_sorted_unique(before, j0, i as int);
                    }
                }
                assert forall|other: Seq<char>| other != name@ implies lookup(after, other)
                    == lookup(before, other) by {
                    if exists|j: int| at(before, other, j) {
                        let j = choose|j: int| at(before, other, j);
                        let j1 = if j < i { j } else { j - 1 };
                        assert(at(after, other, j1));
                        lemma_lookup_at(before, j);
                        lemma_lookup_at(after, j1);
                    } else {
                        assert forall|j: int| !at(after, other, j) by {
                            if at(after, other, j) {
                                let j0 = if j < i { j } else { j + 1 };
                                assert(at(before, other, j0));
                            }
                        }
                    }
                }
            }
            Some(entry.oid)
        } else {
            proof {
                assert forall|j: int| !at(before, name@, j) by {
                    lemma_lex_irreflexive(name@);
                }
            }
            None
        }
    }

    /// The canonical bytes of these references: what a signature is made
    /// over.
    pub fn canonical(&self) -> (bytes: Vec<u8>)
        ensures
            bytes@ == refs_bytes(self@),
    {
        let mut buf: Vec<u8> = Vec::new();
        let n: usize = self.entries.len();
        put_u64(&mut buf, n as u64);
        let ghost start = buf@;
        let mut i: usize = 0;
        assert(entries_bytes(self@.take(0)) =~= Seq::<u8>::empty());
        while i < n
            invariant
                n == self@.len(),
                self@ == self.entries@.map_values(|e: RefEntry| e@),
                i <= n,
                buf@ == start + entries_bytes(self@.take(i as int)),
            decreases n - i,
        {
            put_name(&mut buf, self.entries[i].name.as_str());
            put_bytes(&mut buf, self.entries[i].oid.0.as_slice());
            proof {
                let next = self@.take(i + 1);
                assert(next.drop_last() =~= self@.take(i as int));
                assert(buf@ =~= start + entries_bytes(next));
            }
            i = i + 1;
        }
        assert(self@.take(n as int) =~= self@);
        assert(buf@ =~= refs_bytes(self@));
        buf
    }

    /// Sign these references: the signature is made over their canonical
    /// bytes and is accepted under the signer's key.
    pub fn signed<G: Signer>(self, signer: &G) -> (r: SignedRefs<Verified>)
        ensures
            r.refs@ == self@,
            r.signed_by(signer.key()),
    {
        let msg = self.canonical();
        let signature = signer.sign(msg.as_slice());
        SignedRefs { refs: self, signature, witness: PhantomData }
    }
}

impl Clone for Refs {
    fn clone(&self) -> (r: Refs)
        ensures
            r@ == self@,
    {
        proof {
            use_type_invariant(self);
        }
        let mut entries: Vec<RefEntry> = Vec::new();
        let n: usize = self.entries.len();
        let mut i: usize = 0;
        while i < n
            invariant
                n == self.entries@.len(),
                i <= n,
                entries@.len() == i,
                forall|j: int| 0 <= j < i ==> entries@[j]@ == self.entries@[j]@,
            decreases n - i,
        {
            entries.push(RefEntry { name: self.entries[i].name.clone(), oid: self.entries[i].oid });
            i = i + 1;
        }
        assert(entries@.map_values(|e: RefEntry| e@) =~= self@);
        Refs { entries }
    }
}

/// A lookup of a name finds the same in two lists that differ only in the
/// target of another name.
pub proof fn lemma_lookup_same(
    before: Seq<(Seq<char>, Oid)>,
    after: Seq<(Seq<char>, Oid)>,
    other: Seq<char>,
)
    requires
        strictly_sorted(before),
        strictly_sorted(after),
        before.len() == after.len(),
        forall|j: int| 0 <= j < before.len() ==> #[trigger] before[j].0 == after[j].0,
        forall|j: int|
            0 <= j < before.len() && before[j].0 == other ==> #[trigger] before[j].1 == after[j].1,
    ensures
        lookup(after, other) == lookup(before, other),
{
    if exists|j: int| at(before, other, j) {
        let j = choose|j: int| at(before, other, j);
        assert(at(after, other, j));
        lemma_lookup_at(before, j);
        lemma_lookup_at(after, j);
    } else {
        assert forall|j: int| !at(after, other, j) by {
            if at(after, other, j) {
                assert(at(before, other, j));
            }
        }
    }
}

/// The references of a remote with the signature of that remote over their
/// canonical bytes.
#[derive(Debug, PartialEq, Eq)]
pub struct SignedRefs<V> {
    pub refs: Refs,
    pub signature: Signature,
    pub witness: PhantomData<V>,
}

impl<V> SignedRefs<V> {
    /// Whether the signature is one of `signer` over these references.
    pub open spec fn signed_by(self, signer: PublicKey) -> bool {
        signature_valid(signer@, refs_bytes(self.refs@), self.signature@)
    }
}

impl SignedRefs<Unverified> {
    /// References with a signature that nobody has checked yet.
    pub fn new(refs: Refs, signature: Signature) -> (r: SignedRefs<Unverified>)
        ensures
            r.refs == refs,
            r.signature == signature,
    {
        SignedRefs { refs, signature, witness: PhantomData }
    }

    /// Check the signature against the key of the remote that the references
    /// belong to.
    pub fn verified(self, signer: &PublicKey) -> (r: Option<SignedRefs<Verified>>)
        ensures
            r is Some == self.signed_by(*signer),
            r matches Some(v) ==> v.refs == self.refs && v.signature == self.signature,
    {
        let msg = self.refs.canonical();
        if signer.verify(msg.as_slice(), &self.signature) {
            Some(SignedRefs { refs: self.refs, signature: self.signature, witness: PhantomData })
        } else {
            None
        }
    }
}

impl SignedRefs<Verified> {
    /// A copy that counts as unchecked, as it is when it is stored.
    pub fn unverified(&self) -> (r: SignedRefs<Unverified>)
        ensures
            r.refs@ == self.refs@,
            r.signature == self.signature,
    {
        SignedRefs { refs: self.refs.clone(), signature: self.signature, witness: PhantomData }
    }
}

impl<V> SignedRefs<V> {
    /// A copy with the same references and signature.
    pub fn duplicate(&self) -> (r: SignedRefs<V>)
        ensures
            r.refs@ == self.refs@,
            r.signature == self.signature,
    {
        SignedRefs { refs: self.refs.clone(), signature: self.signature, witness: PhantomData }
    }
}

} // verus!
