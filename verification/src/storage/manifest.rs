//! The stored form of signed references: the 64 bytes of the signature,
//! then the canonical bytes of the references.

use crate::bytes::{be_u32, be_u64};
use crate::crypto::{Signature, Unverified};
use crate::git::{ref_format_valid, RefString};
use crate::identity::Oid;
use crate::storage::refs::{
    chars_bytes, entries_bytes, name_bytes, refs_bytes, strictly_sorted, Refs, SignedRefs,
};
use vstd::prelude::*;
use vstd::utf8::{char_is_scalar, char_u32_cast, is_scalar};

verus! {

/// `char::from_u32`. Trusted: the result is the character with the code
/// `u`, and there is one exactly if `u` is the code of a character.
#[verifier::external_body]
fn char_from_u32(u: u32) -> (r: Option<char>)
    ensures
        r is Some == is_scalar(u),
        r matches Some(c) ==> c as u32 == u,
{
    char::from_u32(u)
}

/// `String::from_iter` over characters. Trusted: the text has the
/// characters of the list, in their order.
#[verifier::external_body]
fn string_from_chars(chars: &Vec<char>) -> (r: String)
    ensures
        r@ == chars@,
{
    String::from_iter(chars.iter())
}

/// The number that eight bytes stand for, most significant first.
pub open spec fn u64_of(b: Seq<u8>) -> u64 {
    (b[0] * 0x100_0000_0000_0000 + b[1] * 0x1_0000_0000_0000 + b[2] * 0x100_0000_0000 + b[3]
        * 0x1_0000_0000 + b[4] * 0x100_0000 + b[5] * 0x1_0000 + b[6] * 0x100 + b[7]) as u64
}

/// The number that four bytes stand for, most significant first.
pub open spec fn u32_of(b: Seq<u8>) -> u32 {
    (b[0] * 0x100_0000 + b[1] * 0x1_0000 + b[2] * 0x100 + b[3]) as u32
}

/// Eight bytes stand for the number that they were made from.
pub proof fn lemma_u64_of_bytes(x: u64)
    ensures
        be_u64(x).len() == 8,
        u64_of(be_u64(x)) == x,
{
    assert(((x / 0x100_0000_0000_0000) % 256) * 0x100_0000_0000_0000 + ((x / 0x1_0000_0000_0000)
        % 256) * 0x1_0000_0000_0000 + ((x / 0x100_0000_0000) % 256) * 0x100_0000_0000 + ((x
        / 0x1_0000_0000) % 256) * 0x1_0000_0000 + ((x / 0x100_0000) % 256) * 0x100_0000 + ((x
        / 0x1_0000) % 256) * 0x1_0000 + ((x / 0x100) % 256) * 0x100 + (x % 256) == x)
        by (bit_vector);
}

/// Four bytes stand for the number that they were made from.
pub proof fn lemma_u32_of_bytes(x: u32)
    ensures
        be_u32(x).len() == 4,
        u32_of(be_u32(x)) == x,
{
    assert(((x / 0x100_0000) % 256) * 0x100_0000 + ((x / 0x1_0000) % 256) * 0x1_0000 + ((x
        / 0x100) % 256) * 0x100 + (x % 256) == x) by (bit_vector);
}

/// The character with the code `u`, if there is one.
pub open spec fn char_of(u: u32) -> Option<char> {
    if is_scalar(u) {
        Some(u as char)
    } else {
        None
    }
}

/// The text that some bytes stand for, each character as four bytes; none
/// if the bytes do not come in fours, or four of them are not the code of
/// a character.
pub open spec fn parse_chars(b: Seq<u8>) -> Option<Seq<char>>
    decreases b.len(),
{
    if b.len() == 0 {
        Some(Seq::empty())
    } else if b.len() < 4 {
        None
    } else {
        match (
            parse_chars(b.subrange(0, b.len() - 4)),
            char_of(u32_of(b.subrange(b.len() - 4, b.len() as int))),
        ) {
            (Some(front), Some(c)) => Some(front.push(c)),
            _ => None,
        }
    }
}

/// Where the first characters cannot be read, the whole cannot.
pub proof fn lemma_chars_fail(b: Seq<u8>, k: int)
    requires
        0 <= k,
        4 * k <= b.len(),
        b.len() % 4 == 0,
        parse_chars(b.subrange(0, 4 * k)) is None,
    ensures
        parse_chars(b) is None,
    decreases b.len() - 4 * k,
{
    if 4 * k < b.len() {
        let next = b.subrange(0, 4 * (k + 1));
        assert(next.subrange(0, next.len() - 4) =~= b.subrange(0, 4 * k));
        lemma_chars_fail(b, k + 1);
    } else {
        assert(b.subrange(0, 4 * k) =~= b);
    }
}

/// The bytes of a text stand for the text.
pub proof fn lemma_chars_round_trip(s: Seq<char>)
    ensures
        chars_bytes(s).len() == 4 * s.len(),
        parse_chars(chars_bytes(s)) == Some(s),
    decreases s.len(),
{
    if s.len() > 0 {
        let front = s.drop_last();
        lemma_chars_round_trip(front);
        let b = chars_bytes(s);
        let c: char = s.last();
        let code: u32 = c as u32;
        char_is_scalar(c);
        char_u32_cast(c, code);
        lemma_u32_of_bytes(code);
        assert(b.subrange(0, b.len() - 4) =~= chars_bytes(front));
        assert(b.subrange(b.len() - 4, b.len() as int) =~= be_u32(code));
        assert(front.push(c) =~= s);
    }
}

/// Read the number that the eight bytes from `at` on stand for.
pub fn read_u64(bytes: &[u8], at: usize) -> (x: u64)
    requires
        at + 8 <= bytes@.len(),
    ensures
        x == u64_of(bytes@.subrange(at as int, at + 8)),
{
    let b0: u64 = bytes[at] as u64;
    let b1: u64 = bytes[at + 1] as u64;
    let b2: u64 = bytes[at + 2] as u64;
    let b3: u64 = bytes[at + 3] as u64;
    let b4: u64 = bytes[at + 4] as u64;
    let b5: u64 = bytes[at + 5] as u64;
    let b6: u64 = bytes[at + 6] as u64;
    let b7: u64 = bytes[at + 7] as u64;
    b0 * 0x100_0000_0000_0000 + b1 * 0x1_0000_0000_0000 + b2 * 0x100_0000_0000 + b3
        * 0x1_0000_0000 + b4 * 0x100_0000 + b5 * 0x1_0000 + b6 * 0x100 + b7
}

/// Read the number that the four bytes from `at` on stand for.
pub fn read_u32(bytes: &[u8], at: usize) -> (x: u32)
    requires
        at + 4 <= bytes@.len(),
    ensures
        x == u32_of(bytes@.subrange(at as int, at + 4)),
{
    let b0: u32 = bytes[at] as u32;
    let b1: u32 = bytes[at + 1] as u32;
    let b2: u32 = bytes[at + 2] as u32;
    let b3: u32 = bytes[at + 3] as u32;
    b0 * 0x100_0000 + b1 * 0x1_0000 + b2 * 0x100 + b3
}

/// Read the text of `n` characters that the bytes from `at` on stand for.
pub fn read_chars(bytes: &[u8], at: usize, n: usize) -> (r: Option<Vec<char>>)
    requires
        at + 4 * n <= bytes@.len(),
    ensures
        match r {
            Some(chars) => parse_chars(bytes@.subrange(at as int, at + 4 * n)) == Some(chars@),
            None => parse_chars(bytes@.subrange(at as int, at + 4 * n)) is None,
        },
{
    let ghost region = bytes@.subrange(at as int, at + 4 * n);
    let len: usize = bytes.len();
    let mut chars: Vec<char> = Vec::new();
    let mut i: usize = 0;
    assert(region.subrange(0, 0) =~= Seq::empty());
    while i < n
        invariant
            len == bytes@.len(),
            at + 4 * n <= bytes@.len(),
            region == bytes@.subrange(at as int, at + 4 * n),
            i <= n,
            parse_chars(region.subrange(0, 4 * i)) == Some(chars@),
        decreases n - i,
    {
        let u = read_u32(bytes, at + 4 * i);
        proof {
            let next = region.subrange(0, 4 * (i + 1));
            assert(next.subrange(0, next.len() - 4) =~= region.subrange(0, 4 * i));
            assert(next.subrange(next.len() - 4, next.len() as int) =~= bytes@.subrange(
                at + 4 * i,
                at + 4 * i + 4,
            ));
        }
        match char_from_u32(u) {
            Some(c) => {
                proof {
                    char_u32_cast(c, u);
                }
                chars.push(c);
            },
            None => {
                proof {
                    lemma_chars_fail(region, i + 1);
                }
                return None;
            },
        }
        i = i + 1;
    }
    assert(region.subrange(0, 4 * n) =~= region);
    Some(chars)
}

/// The name that stands at the start of some bytes, with the number of
/// bytes that it takes: the number of its characters in eight bytes, then
/// the characters.
pub open spec fn parse_name(b: Seq<u8>) -> Option<(Seq<char>, int)> {
    if b.len() < 8 {
        None
    } else {
        let n = u64_of(b.subrange(0, 8)) as int;
        if b.len() - 8 < 4 * n {
            None
        } else {
            match parse_chars(b.subrange(8, 8 + 4 * n)) {
                Some(name) => Some((name, 8 + 4 * n)),
                None => None,
            }
        }
    }
}

/// The reference that stands at the start of some bytes, with the number
/// of bytes that it takes: the name, then the 20 bytes of the target.
pub open spec fn parse_entry(b: Seq<u8>) -> Option<((Seq<char>, Seq<u8>), int)> {
    match parse_name(b) {
        None => None,
        Some((name, k)) => if b.len() - k < 20 {
            None
        } else {
            Some(((name, b.subrange(k, k + 20)), k + 20))
        },
    }
}

/// The `n` references that stand at the start of some bytes, with the
/// number of bytes that they take.
pub open spec fn parse_entries(b: Seq<u8>, n: nat) -> Option<(Seq<(Seq<char>, Seq<u8>)>, int)>
    decreases n,
{
    if n == 0 {
        Some((Seq::empty(), 0))
    } else {
        match parse_entry(b) {
            None => None,
            Some((e, k)) => match parse_entries(b.subrange(k, b.len() as int), (n - 1) as nat) {
                None => None,
                Some((es, m)) => Some((seq![e] + es, k + m)),
            },
        }
    }
}

/// A list of references with each target as its bytes.
pub open spec fn raw(s: Seq<(Seq<char>, Oid)>) -> Seq<(Seq<char>, Seq<u8>)> {
    s.map_values(|e: (Seq<char>, Oid)| (e.0, e.1@))
}

/// Whether a list of references is in canonical form: every name is well
/// formed, and the names go up strictly.
pub open spec fn canonical(es: Seq<(Seq<char>, Seq<u8>)>) -> bool {
    &&& forall|i: int| 0 <= i < es.len() ==> ref_format_valid(#[trigger] es[i].0)
    &&& forall|i: int, j: int|
        0 <= i < j < es.len() ==> crate::storage::refs::lex_less(
            #[trigger] es[i].0,
            #[trigger] es[j].0,
        )
}

/// The references that some bytes stand for: the number of references in
/// eight bytes, then the references. The bytes stand for none if anything
/// follows the references, or the references are not in canonical form.
pub open spec fn parse_refs(b: Seq<u8>) -> Option<Seq<(Seq<char>, Seq<u8>)>> {
    if b.len() < 8 {
        None
    } else {
        match parse_entries(b.subrange(8, b.len() as int), u64_of(b.subrange(0, 8)) as nat) {
            Some((es, k)) => if k == b.len() - 8 && canonical(es) {
                Some(es)
            } else {
                None
            },
            None => None,
        }
    }
}

/// The bytes of a name, with anything behind them, stand for the name.
pub proof fn lemma_name_round_trip(name: Seq<char>, tail: Seq<u8>)
    requires
        name.len() <= u64::MAX,
    ensures
        name_bytes(name).len() == 8 + 4 * name.len(),
        parse_name(name_bytes(name) + tail) == Some((name, 8 + 4 * (name.len() as int))),
{
    let b = name_bytes(name) + tail;
    lemma_u64_of_bytes(name.len() as u64);
    lemma_chars_round_trip(name);
    assert(b.subrange(0, 8) =~= be_u64(name.len() as u64));
    assert(b.subrange(8, 8 + 4 * (name.len() as int)) =~= chars_bytes(name));
}

/// The bytes of a reference, with anything behind them, stand for the
/// reference.
pub proof fn lemma_entry_round_trip(e: (Seq<char>, Oid), tail: Seq<u8>)
    requires
        e.0.len() <= u64::MAX,
    ensures
        parse_entry(name_bytes(e.0) + e.1@ + tail) == Some(
            ((e.0, e.1@), 8 + 4 * (e.0.len() as int) + 20),
        ),
        (name_bytes(e.0) + e.1@).len() == 8 + 4 * e.0.len() + 20,
{
    let b = name_bytes(e.0) + e.1@ + tail;
    lemma_name_round_trip(e.0, e.1@ + tail);
    assert(b =~= name_bytes(e.0) + (e.1@ + tail));
    let k: int = 8 + 4 * (e.0.len() as int);
    assert(b.subrange(k, k + 20) =~= e.1@);
}

/// The bytes of a list of references are the bytes of the first one, then
/// the bytes of the others.
pub proof fn lemma_entries_front(s: Seq<(Seq<char>, Oid)>)
    requires
        s.len() > 0,
    ensures
        entries_bytes(s) == name_bytes(s[0].0) + s[0].1@ + entries_bytes(s.drop_first()),
    decreases s.len(),
{
    if s.len() == 1 {
        assert(s.drop_last() =~= Seq::empty());
        assert(s.drop_first() =~= Seq::empty());
        assert(entries_bytes(s) =~= name_bytes(s[0].0) + s[0].1@ + entries_bytes(s.drop_first()));
    } else {
        let front = s.drop_last();
        lemma_entries_front(front);
        assert(front.drop_first() =~= s.drop_first().drop_last());
        assert(s.drop_first().last() == s.last());
        assert(front[0] == s[0]);
        assert(entries_bytes(s) =~= name_bytes(s[0].0) + s[0].1@ + entries_bytes(s.drop_first()));
    }
}

/// The bytes of a list of references, with anything behind them, stand for
/// the references.
pub proof fn lemma_entries_round_trip(s: Seq<(Seq<char>, Oid)>, tail: Seq<u8>)
    requires
        forall|i: int| 0 <= i < s.len() ==> (#[trigger] s[i]).0.len() <= u64::MAX,
    ensures
        parse_entries(entries_bytes(s) + tail, s.len()) == Some(
            (raw(s), entries_bytes(s).len() as int),
        ),
    decreases s.len(),
{
    if s.len() == 0 {
        assert(raw(s) =~= Seq::empty());
    } else {
        let rest = s.drop_first();
        let b = entries_bytes(s) + tail;
        lemma_entries_front(s);
        assert(s[0].0.len() <= u64::MAX);
        lemma_entry_round_trip(s[0], entries_bytes(rest) + tail);
        assert(b =~= name_bytes(s[0].0) + s[0].1@ + (entries_bytes(rest) + tail));
        let k: int = 8 + 4 * (s[0].0.len() as int) + 20;
        assert(b.subrange(k, b.len() as int) =~= entries_bytes(rest) + tail);
        assert forall|i: int| 0 <= i < rest.len() implies (#[trigger] rest[i]).0.len()
            <= u64::MAX by {
            assert(rest[i] == s[i + 1]);
        }
        lemma_entries_round_trip(rest, tail);
        assert(seq![(s[0].0, s[0].1@)] + raw(rest) =~= raw(s));
    }
}

/// The canonical bytes of a list of references stand for the list, if the
/// list is in canonical form: what is written can be read again.
pub proof fn lemma_refs_round_trip(s: Seq<(Seq<char>, Oid)>)
    requires
        strictly_sorted(s),
        forall|i: int| 0 <= i < s.len() ==> ref_format_valid(#[trigger] s[i].0),
        forall|i: int| 0 <= i < s.len() ==> (#[trigger] s[i]).0.len() <= u64::MAX,
        s.len() <= u64::MAX,
    ensures
        parse_refs(refs_bytes(s)) == Some(raw(s)),
{
    let b = refs_bytes(s);
    lemma_u64_of_bytes(s.len() as u64);
    assert(b.subrange(0, 8) =~= be_u64(s.len() as u64));
    assert(b.subrange(8, b.len() as int) =~= entries_bytes(s) + Seq::<u8>::empty());
    lemma_entries_round_trip(s, Seq::empty());
    assert(canonical(raw(s)));
}

/// Read the 20 bytes from `at` on as the name of an object.
pub fn read_oid(bytes: &[u8], at: usize) -> (oid: Oid)
    requires
        at + 20 <= bytes@.len(),
    ensures
        oid@ == bytes@.subrange(at as int, at + 20),
{
    let len: usize = bytes.len();
    let mut r: [u8; 20] = [0u8; 20];
    let mut i: usize = 0;
    while i < 20
        invariant
            len == bytes@.len(),
            at + 20 <= bytes@.len(),
            i <= 20,
            forall|j: int| 0 <= j < i ==> r@[j] == bytes@[at + j],
        decreases 20 - i,
    {
        r[i] = bytes[at + i];
        i = i + 1;
    }
    assert(r@ =~= bytes@.subrange(at as int, at + 20));
    Oid(r)
}

/// Read the reference that stands at `at`: its name, its target, and the
/// number of bytes that it takes.
pub fn read_entry(bytes: &[u8], at: usize) -> (r: Option<(Vec<char>, Oid, usize)>)
    requires
        at <= bytes@.len(),
    ensures
        match r {
            Some((name, oid, size)) => parse_entry(
                bytes@.subrange(at as int, bytes@.len() as int),
            ) == Some(((name@, oid@), size as int)) && at + size <= bytes@.len(),
            None => parse_entry(bytes@.subrange(at as int, bytes@.len() as int)) is None,
        },
{
    let len: usize = bytes.len();
    let ghost rem = bytes@.subrange(at as int, len as int);
    if len - at < 8 {
        return None;
    }
    let k = read_u64(bytes, at);
    assert(rem.subrange(0, 8) =~= bytes@.subrange(at as int, at + 8));
    let room: usize = len - at - 8;
    if k > (room / 4) as u64 {
        return None;
    }
    let n: usize = k as usize;
    let name = match read_chars(bytes, at + 8, n) {
        Some(name) => name,
        None => {
            assert(rem.subrange(8, 8 + 4 * n) =~= bytes@.subrange(at + 8, at + 8 + 4 * n));
            return None;
        },
    };
    assert(rem.subrange(8, 8 + 4 * n) =~= bytes@.subrange(at + 8, at + 8 + 4 * n));
    let used: usize = 8 + 4 * n;
    if len - at - used < 20 {
        return None;
    }
    let oid = read_oid(bytes, at + used);
    assert(rem.subrange(used as int, used + 20) =~= bytes@.subrange(at + used, at + used + 20));
    Some((name, oid, used + 20))
}

/// What was read so far, joined with what is read of the rest.
pub open spec fn joined(
    done: Seq<(Seq<char>, Seq<u8>)>,
    at: int,
    rest: Option<(Seq<(Seq<char>, Seq<u8>)>, int)>,
) -> Option<(Seq<(Seq<char>, Seq<u8>)>, int)> {
    match rest {
        Some((es, m)) => Some((done + es, at + m)),
        None => None,
    }
}

/// Read the references that the bytes from `start` on stand for.
#[verifier::rlimit(60)]
#[verifier::spinoff_prover]
pub fn decode_refs(bytes: &[u8], start: usize) -> (r: Option<Refs>)
    requires
        start <= bytes@.len(),
    ensures
        match r {
            Some(refs) => parse_refs(bytes@.subrange(start as int, bytes@.len() as int)) == Some(
                raw(refs@),
            ),
            None => parse_refs(bytes@.subrange(start as int, bytes@.len() as int)) is None,
        },
{
    let len: usize = bytes.len();
    let ghost whole = bytes@.subrange(start as int, len as int);
    if len - start < 8 {
        return None;
    }
    let n: u64 = read_u64(bytes, start);
    assert(whole.subrange(0, 8) =~= bytes@.subrange(start as int, start + 8));
    let ghost entries = whole.subrange(8, whole.len() as int);
    let mut refs = Refs::new();
    let mut at: usize = start + 8;
    let mut i: u64 = 0;
    proof {
        assert(entries.subrange(0, entries.len() as int) =~= entries);
        assert(raw(refs@) =~= Seq::empty());
        match parse_entries(entries, n as nat) {
            Some((es, m)) => {
                assert(raw(refs@) + es =~= es);
            },
            None => {},
        }
    }
    while i < n
        invariant
            len == bytes@.len(),
            whole == bytes@.subrange(start as int, len as int),
            whole.len() >= 8,
            n == u64_of(whole.subrange(0, 8)),
            entries == whole.subrange(8, whole.len() as int),
            start + 8 <= at <= len,
            i <= n,
            refs@.len() == i,
            canonical(raw(refs@)),
            parse_entries(entries, n as nat) == joined(
                raw(refs@),
                at - start - 8,
                parse_entries(
                    entries.subrange(at - start - 8, entries.len() as int),
                    (n - i) as nat,
                ),
            ),
        decreases n - i,
    {
        let ghost off: int = at - start - 8;
        let ghost rem = entries.subrange(off, entries.len() as int);
        let ghost done = raw(refs@);
        assert(rem =~= bytes@.subrange(at as int, len as int));
        let (chars, oid, size) = match read_entry(bytes, at) {
            Some(entry) => entry,
            None => {
                assert(parse_entries(rem, (n - i) as nat) is None);
                assert(parse_entries(entries, n as nat) is None);
                return None;
            },
        };
        let ghost e = (chars@, oid@);
        let ghost rest = rem.subrange(size as int, rem.len() as int);
        let ghost tail = parse_entries(rest, (n - i - 1) as nat);
        assert(parse_entries(rem, (n - i) as nat) == match tail {
            None => None::<(Seq<(Seq<char>, Seq<u8>)>, int)>,
            Some((es, m)) => Some((seq![e] + es, size + m)),
        });
        let text = string_from_chars(&chars);
        let name = match RefString::try_from(text.as_str()) {
            Some(name) => name,
            None => {
                proof {
                    match tail {
                        Some((es, m)) => {
                            let all = done + (seq![e] + es);
                            assert(all[done.len() as int] == e);
                            assert(!ref_format_valid(all[done.len() as int].0));
                            assert(!canonical(all));
                            assert(parse_entries(entries, n as nat) == Some((all, off + size + m)));
                        },
                        None => {
                            assert(parse_entries(entries, n as nat) is None);
                        },
                    }
                }
                return None;
            },
        };
        let ghost before = refs@;
        let pushed = refs.push_last(name, oid);
        if !pushed {
            proof {
                match tail {
                    Some((es, m)) => {
                        let all = done + (seq![e] + es);
                        let k = done.len() as int;
                        assert(all[k] == e);
                        assert(all[k - 1] == done[k - 1]);
                        assert(done[k - 1].0 == before.last().0);
                        assert(!crate::storage::refs::lex_less(all[k - 1].0, all[k].0));
                        assert(!canonical(all));
                        assert(parse_entries(entries, n as nat) == Some((all, off + size + m)));
                    },
                    None => {
                        assert(parse_entries(entries, n as nat) is None);
                    },
                }
            }
            return None;
        }
        proof {
            let now = raw(refs@);
            assert(now =~= done.push(e));
            assert(canonical(now)) by {
                assert forall|a: int| 0 <= a < now.len() implies ref_format_valid(
                    #[trigger] now[a].0,
                ) by {
                    if a < done.len() {
                        assert(now[a] == done[a]);
                    }
                }
                assert forall|a: int, b: int| 0 <= a < b < now.len() implies
                    crate::storage::refs::lex_less(#[trigger] now[a].0, #[trigger] now[b].0) by {
                    if b < done.len() {
                        assert(now[a] == done[a] && now[b] == done[b]);
                    } else {
                        if a < done.len() - 1 {
                            assert(now[a] == done[a]);
                            assert(crate::storage::refs::lex_less(
                                done[a].0,
                                done[done.len() - 1].0,
                            ));
                            crate::storage::refs::lemma_lex_transitive(
                                done[a].0,
                                done[done.len() - 1].0,
                                e.0,
                            );
                        } else {
                            assert(now[a] == done[done.len() - 1]);
                        }
                    }
                }
            }
            assert(entries.subrange(off + size, entries.len() as int) =~= rest);
            match tail {
                Some((es, m)) => {
                    assert(now + es =~= done + (seq![e] + es));
                },
                None => {},
            }
        }
        at = at + size;
        i = i + 1;
    }
    if at != len {
        return None;
    }
    proof {
        let done = raw(refs@);
        assert(done + Seq::<(Seq<char>, Seq<u8>)>::empty() =~= done);
    }
    Some(refs)
}

impl<V> SignedRefs<V> {
    /// The stored form of these signed references: the signature, then the
    /// canonical bytes of the references.
    pub fn to_bytes(&self) -> (bytes: Vec<u8>)
        ensures
            bytes@ == self.signature@ + refs_bytes(self.refs@),
    {
        let mut buf: Vec<u8> = Vec::new();
        crate::bytes::put_bytes(&mut buf, self.signature.0.as_slice());
        let refs = self.refs.canonical();
        crate::bytes::put_bytes(&mut buf, refs.as_slice());
        assert(buf@ =~= self.signature@ + refs_bytes(self.refs@));
        buf
    }
}

/// The signature and the references that some bytes stand for: the first
/// 64 bytes as the signature, the others as the references.
pub open spec fn parse_signed(b: Seq<u8>) -> Option<(Seq<u8>, Seq<(Seq<char>, Seq<u8>)>)> {
    if b.len() < 64 {
        None
    } else {
        match parse_refs(b.subrange(64, b.len() as int)) {
            Some(refs) => Some((b.subrange(0, 64), refs)),
            None => None,
        }
    }
}

/// The stored form of signed references stands for them, if the
/// references are in canonical form.
pub proof fn lemma_signed_round_trip(signature: Signature, s: Seq<(Seq<char>, Oid)>)
    requires
        strictly_sorted(s),
        forall|i: int| 0 <= i < s.len() ==> ref_format_valid(#[trigger] s[i].0),
        forall|i: int| 0 <= i < s.len() ==> (#[trigger] s[i]).0.len() <= u64::MAX,
        s.len() <= u64::MAX,
    ensures
        parse_signed(signature@ + refs_bytes(s)) == Some((signature@, raw(s))),
{
    let b = signature@ + refs_bytes(s);
    lemma_refs_round_trip(s);
    assert(b.subrange(64, b.len() as int) =~= refs_bytes(s));
    assert(b.subrange(0, 64) =~= signature@);
}

impl SignedRefs<Unverified> {
    /// Read signed references from their stored form. The signature is not
    /// checked.
    pub fn from_bytes(bytes: &[u8]) -> (r: Option<SignedRefs<Unverified>>)
        ensures
            match r {
                Some(signed) => parse_signed(bytes@) == Some(
                    (signed.signature@, raw(signed.refs@)),
                ),
                None => parse_signed(bytes@) is None,
            },
    {
        if bytes.len() < 64 {
            return None;
        }
        let mut sig: [u8; 64] = [0u8; 64];
        let mut i: usize = 0;
        while i < 64
            invariant
                64 <= bytes@.len(),
                i <= 64,
                forall|j: int| 0 <= j < i ==> sig@[j] == bytes@[j],
            decreases 64 - i,
        {
            sig[i] = bytes[i];
            i = i + 1;
        }
        assert(sig@ =~= bytes@.subrange(0, 64));
        match decode_refs(bytes, 64) {
            Some(refs) => Some(SignedRefs::new(refs, Signature(sig))),
            None => None,
        }
    }
}

} // verus!
