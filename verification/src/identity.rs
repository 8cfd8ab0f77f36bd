//! Object and project identifiers.

use crate::bytes::{array20, bytes_eq};
use crate::crypto::{
    base58_text, decoded_view, multibase_bytes, multibase_decode, multibase_encode,
    MultibaseError,
};
use vstd::prelude::*;
use vstd::std_specs::cmp::PartialEqSpecImpl;

verus! {

/// The name of an object in a content-addressed store.
#[derive(Debug, Copy, Clone, Eq, Hash, PartialOrd, Ord)]
pub struct Oid(pub [u8; 20]);

impl View for Oid {
    type V = Seq<u8>;

    open spec fn view(&self) -> Seq<u8> {
        self.0@
    }
}

impl PartialEq for Oid {
    fn eq(&self, other: &Self) -> (r: bool) {
        let r = bytes_eq(self.0.as_slice(), other.0.as_slice());
        proof {
            if r {
                assert(self.0 =~= other.0);
            }
        }
        r
    }
}

impl PartialEqSpecImpl for Oid {
    open spec fn obeys_eq_spec() -> bool {
        true
    }

    open spec fn eq_spec(&self, other: &Self) -> bool {
        *self == *other
    }
}

/// The all-zero name, which stands for "no object".
pub open spec fn null_oid() -> Oid {
    Oid(vstd::array::spec_array_fill_for_copy_type::<u8, 20>(0u8))
}

impl Oid {
    /// Whether every byte is zero.
    pub open spec fn zero(self) -> bool {
        forall|i: int| 0 <= i < 20 ==> self@[i] == 0
    }

    /// The all-zero identifier, which stands for "no object".
    pub fn null() -> (oid: Oid)
        ensures
            oid == null_oid(),
            oid.zero(),
    {
        Oid([0u8; 20])
    }

    /// Whether this is the all-zero identifier.
    pub fn is_zero(&self) -> (r: bool)
        ensures
            r == self.zero(),
    {
        let mut i: usize = 0;
        while i < 20
            invariant
                i <= 20,
                forall|j: int| 0 <= j < i ==> self@[j] == 0,
            decreases 20 - i,
        {
            if self.0[i] != 0 {
                assert(self@[i as int] != 0);
                return false;
            }
            i = i + 1;
        }
        true
    }
}

/// Why a string is not a project identifier.
#[derive(Debug, Copy, Clone, PartialEq, Eq, Structural)]
pub enum IdError {
    /// The decoded identifier has this many bytes instead of 20.
    InvalidLength(usize),
    /// The string is not valid multibase.
    Multibase(MultibaseError),
}

/// A project identifier: the name of the object that the project started
/// from.
#[derive(Debug, Copy, Clone, Eq, Hash, PartialOrd, Ord)]
pub struct Id(pub [u8; 20]);

impl View for Id {
    type V = Seq<u8>;

    open spec fn view(&self) -> Seq<u8> {
        self.0@
    }
}

impl PartialEq for Id {
    fn eq(&self, other: &Self) -> (r: bool) {
        let r = bytes_eq(self.0.as_slice(), other.0.as_slice());
        proof {
            if r {
                assert(self.0 =~= other.0);
            }
        }
        r
    }
}

impl PartialEqSpecImpl for Id {
    open spec fn obeys_eq_spec() -> bool {
        true
    }

    open spec fn eq_spec(&self, other: &Self) -> bool {
        *self == *other
    }
}

impl Id {
    /// What a decoded multibase text means as an identifier: the bytes, if
    /// there are 20 of them.
    pub open spec fn from_decoded(decoded: Result<Seq<u8>, MultibaseError>) -> Result<
        Seq<u8>,
        IdError,
    > {
        match decoded {
            Ok(bytes) => if bytes.len() == 20 {
                Ok(bytes)
            } else {
                Err(IdError::InvalidLength(bytes.len() as usize))
            },
            Err(e) => Err(IdError::Multibase(e)),
        }
    }

    /// What a text means as an identifier.
    pub open spec fn parsed(text: Seq<char>) -> Result<Seq<u8>, IdError> {
        Self::from_decoded(multibase_bytes(text))
    }

    /// The identifier, or the error, that the result of decoding a multibase
    /// text gives.
    pub fn id_from_decoded(decoded: Result<Vec<u8>, MultibaseError>) -> (r: Result<Id, IdError>)
        ensures
            match r {
                Ok(id) => (Self::from_decoded(decoded_view(decoded)) matches Ok(x) && x == id@),
                Err(e) => (Self::from_decoded(decoded_view(decoded)) matches Err(x) && x == e),
            },
    {
        match decoded {
            Ok(bytes) => {
                if bytes.len() == 20 {
                    Ok(Id(array20(bytes.as_slice())))
                } else {
                    Err(IdError::InvalidLength(bytes.len()))
                }
            },
            Err(e) => Err(IdError::Multibase(e)),
        }
    }

    /// Parse the text form of an identifier.
    pub fn from_str(s: &str) -> (r: Result<Id, IdError>)
        ensures
            match r {
                Ok(id) => (Self::parsed(s@) matches Ok(x) && x == id@),
                Err(e) => (Self::parsed(s@) matches Err(x) && x == e),
            },
    {
        Self::id_from_decoded(multibase_decode(s))
    }

    /// The text form of the identifier. Parsing it gives the identifier back.
    pub fn to_human(&self) -> (s: String)
        ensures
            s@ == base58_text(self@),
            (Self::parsed(s@) matches Ok(x) && x == self@),
    {
        multibase_encode(self.0.as_slice())
    }
}

} // verus!
