//! Account addresses and their text form.
use vstd::prelude::*;
use crate::codec::{append_bytes, bytes_eq, copy_bytes, slice_bytes, starts_with};

verus! {

/// The byte `/`, which separates key segments.
pub const SLASH: u8 = 47;

/// The byte `#`, which marks an address segment of a key.
pub const HASH: u8 = 35;

/// Built-in accounts, each validated by a native validity predicate.
#[derive(Debug, Clone, Copy, PartialEq, Eq, Structural)]
pub enum InternalAddress {
    /// The IBC module.
    Ibc,
    /// The proof-of-stake module.
    PoS,
}

/// An account address.
#[derive(Debug, Clone)]
pub enum Address {
    /// An account created by the ledger's address generator.
    Established(Vec<u8>),
    /// An account derived from a public key hash.
    Implicit(Vec<u8>),
    /// A built-in account.
    Internal(InternalAddress),
}

/// "est": the text that begins an established address.
pub open spec fn est_tag() -> Seq<u8> {
    seq![101u8, 115u8, 116u8]
}

/// "imp": the text that begins an implicit address.
pub open spec fn imp_tag() -> Seq<u8> {
    seq![105u8, 109u8, 112u8]
}

/// "IBC": the text of the IBC internal address.
pub open spec fn ibc_text() -> Seq<u8> {
    seq![73u8, 66u8, 67u8]
}

/// "PoS": the text of the proof-of-stake internal address.
pub open spec fn pos_text() -> Seq<u8> {
    seq![80u8, 111u8, 83u8]
}

pub open spec fn no_slash(s: Seq<u8>) -> bool {
    forall|i: int| 0 <= i < s.len() ==> s[i] != SLASH
}

/// An identifier that can follow a tag: non-empty and free of `/`.
pub open spec fn valid_id(s: Seq<u8>) -> bool {
    s.len() > 0 && no_slash(s)
}

/// Whether `s` is the text of an address.
pub open spec fn is_address_text(s: Seq<u8>) -> bool {
    ||| s == ibc_text()
    ||| s == pos_text()
    ||| (s.len() > 3 && s.subrange(0, 3) == est_tag() && valid_id(s.subrange(3, s.len() as int)))
    ||| (s.len() > 3 && s.subrange(0, 3) == imp_tag() && valid_id(s.subrange(3, s.len() as int)))
}

impl View for Address {
    type V = Seq<u8>;

    /// The text form of the address.
    open spec fn view(&self) -> Seq<u8> {
        match self {
            Address::Established(id) => est_tag() + id@,
            Address::Implicit(id) => imp_tag() + id@,
            Address::Internal(InternalAddress::Ibc) => ibc_text(),
            Address::Internal(InternalAddress::PoS) => pos_text(),
        }
    }
}

fn est_tag_bytes() -> (r: Vec<u8>)
    ensures
        r@ == est_tag(),
{
    vec![101u8, 115u8, 116u8]
}

fn imp_tag_bytes() -> (r: Vec<u8>)
    ensures
        r@ == imp_tag(),
{
    vec![105u8, 109u8, 112u8]
}

fn ibc_text_bytes() -> (r: Vec<u8>)
    ensures
        r@ == ibc_text(),
{
    vec![73u8, 66u8, 67u8]
}

fn pos_text_bytes() -> (r: Vec<u8>)
    ensures
        r@ == pos_text(),
{
    vec![80u8, 111u8, 83u8]
}

/// Whether `s` holds no `/`.
pub fn has_no_slash(s: &[u8]) -> (r: bool)
    ensures
        r == no_slash(s@),
{
    let mut i: usize = 0;
    while i < s.len()
        invariant
            0 <= i <= s@.len(),
            forall|j: int| 0 <= j < i ==> s@[j] != SLASH,
        decreases s@.len() - i,
    {
        if s[i] == SLASH {
            return false;
        }
        i = i + 1;
    }
    true
}

impl Address {
    /// Ids are non-empty and free of `/`.
    pub open spec fn wf(&self) -> bool {
        match self {
            Address::Established(id) => valid_id(id@),
            Address::Implicit(id) => valid_id(id@),
            Address::Internal(_) => true,
        }
    }

    pub open spec fn is_implicit_or_internal_spec(&self) -> bool {
        self is Implicit || self is Internal
    }

    /// The text form of the address.
    pub fn encode(&self) -> (r: Vec<u8>)
        ensures
            r@ == self@,
    {
        match self {
            Address::Established(id) => {
                let mut r = est_tag_bytes();
                append_bytes(&mut r, id.as_slice());
                r
            },
            Address::Implicit(id) => {
                let mut r = imp_tag_bytes();
                append_bytes(&mut r, id.as_slice());
                r
            },
            Address::Internal(InternalAddress::Ibc) => ibc_text_bytes(),
            Address::Internal(InternalAddress::PoS) => pos_text_bytes(),
        }
    }

    /// Parse the text form of an address.
    pub fn decode(s: &[u8]) -> (r: Option<Address>)
        ensures
            r is Some <==> is_address_text(s@),
            r matches Some(a) ==> a@ == s@ && a.wf(),
    {
        let ibc = ibc_text_bytes();
        if bytes_eq(s, ibc.as_slice()) {
            return Some(Address::Internal(InternalAddress::Ibc));
        }
        let pos = pos_text_bytes();
        if bytes_eq(s, pos.as_slice()) {
            return Some(Address::Internal(InternalAddress::PoS));
        }
        if s.len() <= 3 {
            return None;
        }
        let id = slice_bytes(s, 3, s.len());
        let est = est_tag_bytes();
        let imp = imp_tag_bytes();
        let is_est = starts_with(s, est.as_slice());
        let is_imp = starts_with(s, imp.as_slice());
        if !has_no_slash(id.as_slice()) {
            return None;
        }
        proof {
            assert(s@ == s@.subrange(0, 3) + s@.subrange(3, s@.len() as int));
        }
        if is_est {
            Some(Address::Established(id))
        } else if is_imp {
            Some(Address::Implicit(id))
        } else {
            None
        }
    }

    /// Whether both addresses are the same.
    pub fn same(&self, other: &Address) -> (r: bool)
        ensures
            r == (self@ == other@),
    {
        let a = self.encode();
        let b = other.encode();
        bytes_eq(a.as_slice(), b.as_slice())
    }

    /// Whether the address is implicit or internal, the two kinds that need
    /// no stored validity predicate.
    pub fn is_implicit_or_internal(&self) -> (r: bool)
        ensures
            r == self.is_implicit_or_internal_spec(),
    {
        match self {
            Address::Established(_) => false,
            _ => true,
        }
    }

    /// A copy of the address.
    pub fn copy(&self) -> (r: Address)
        ensures
            r@ == self@,
            r.wf() == self.wf(),
            r.is_implicit_or_internal_spec() == self.is_implicit_or_internal_spec(),
    {
        match self {
            Address::Established(id) => Address::Established(copy_bytes(id.as_slice())),
            Address::Implicit(id) => Address::Implicit(copy_bytes(id.as_slice())),
            Address::Internal(i) => Address::Internal(*i),
        }
    }
}

/// The text of a well-formed address parses back.
pub proof fn lemma_wf_is_address_text(a: Address)
    requires
        a.wf(),
    ensures
        is_address_text(a@),
{
    match a {
        Address::Established(id) => {
            assert(a@.subrange(0, 3) =~= est_tag());
            assert(a@.subrange(3, a@.len() as int) =~= id@);
        },
        Address::Implicit(id) => {
            assert(a@.subrange(0, 3) =~= imp_tag());
            assert(a@.subrange(3, a@.len() as int) =~= id@);
        },
        Address::Internal(_) => {},
    }
}

} // verus!
