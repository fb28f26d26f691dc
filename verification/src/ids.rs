//! Fixed-size, unguessable identifiers and their semantic aliases.
use vstd::prelude::*;
use vstd::string::*;
use crate::digest::{hex_decode, hex_decoded, hex_encode, hex_lower};
use crate::ordered::{compare_bytes, key_order, KeyOrder, SortKey};

verus! {

broadcast use vstd::array::group_array_axioms;

/// A fixed-size, unguessable identifier of 32 bytes.
#[derive(Clone, Copy, PartialEq, Eq, PartialOrd, Ord, Hash, Debug)]
pub struct OpaqueId([u8; 32]);

impl View for OpaqueId {
    type V = Seq<u8>;

    closed spec fn view(&self) -> Seq<u8> {
        self.0@
    }
}

/// Why text did not name an identifier.
#[derive(Debug)]
pub enum ParseIdError {
    /// The text decodes to some other number of bytes than 32.
    Length,
    /// The text is not hexadecimal of even length.
    Hex(hex::FromHexError),
}

/// The bytes an identifier's text denotes, where it denotes 32 of them.
pub open spec fn parsed_id_bytes(text: &str) -> Option<Seq<u8>> {
    match hex_decoded(text.spec_bytes()) {
        Some(b) => if b.len() == 32 { Some(b) } else { None },
        None => None,
    }
}

impl OpaqueId {
    /// An identifier always has 32 bytes; two with the same bytes are the same.
    pub proof fn lemma_view(a: OpaqueId, b: OpaqueId)
        ensures
            a@.len() == 32,
            a@ == b@ ==> a == b,
    {
        if a@ == b@ {
            assert(forall|i: int| 0 <= i < 32 ==> a.0[i] == a@[i] && b.0[i] == b@[i]);
            assert(a.0 =~= b.0);
        }
    }

    pub fn from_bytes(bytes: [u8; 32]) -> (r: Self)
        ensures
            r@ == bytes@,
    {
        OpaqueId(bytes)
    }

    pub fn as_bytes(&self) -> (r: &[u8; 32])
        ensures
            r@ == self@,
    {
        &self.0
    }

    /// Lowercase hexadecimal of the first six bytes, for logs and labels.
    pub fn short(&self) -> (r: String)
        ensures
            r@ == hex_lower(self@.take(6)),
    {
        let mut prefix: Vec<u8> = Vec::new();
        let mut i: usize = 0;
        while i < 6
            invariant
                i <= 6,
                self@.len() == 32,
                prefix@ == self@.take(i as int),
            decreases 6 - i,
        {
            prefix.push(self.0[i]);
            assert(self@.take(i + 1) =~= self@.take(i as int).push(self@[i as int]));
            i = i + 1;
        }
        hex_encode(prefix.as_slice())
    }

    /// Lowercase hexadecimal of all 32 bytes: the identifier's text form.
    pub fn to_hex(&self) -> (r: String)
        ensures
            r@ == hex_lower(self@),
    {
        hex_encode(self.0.as_slice())
    }

    /// Reads an identifier from hexadecimal text of either case.
    pub fn parse(text: &str) -> (r: Result<Self, ParseIdError>)
        ensures
            r matches Ok(id) ==> parsed_id_bytes(text) == Some(id@),
            r is Ok <==> parsed_id_bytes(text) is Some,
            r matches Err(ParseIdError::Hex(_)) <==> hex_decoded(text.spec_bytes()) is None,
            r matches Err(ParseIdError::Length) <==> (hex_decoded(text.spec_bytes()) is Some
                && parsed_id_bytes(text) is None),
    {
        match hex_decode(text) {
            Err(e) => Err(ParseIdError::Hex(e)),
            Ok(v) => {
                if v.len() != 32 {
                    Err(ParseIdError::Length)
                } else {
                    let mut bytes = [0u8; 32];
                    let mut i: usize = 0;
                    while i < 32
                        invariant
                            i <= 32,
                            v@.len() == 32,
                            forall|j: int| 0 <= j < i ==> bytes@[j] == v@[j],
                        decreases 32 - i,
                    {
                        bytes[i] = v[i];
                        i = i + 1;
                    }
                    assert(bytes@ =~= v@);
                    Ok(OpaqueId(bytes))
                }
            },
        }
    }

    /// Whether two identifiers have the same bytes.
    pub fn same(&self, other: &Self) -> (r: bool)
        ensures
            r == (self@ == other@),
    {
        let mut i: usize = 0;
        while i < 32
            invariant
                i <= 32,
                self@.len() == 32,
                other@.len() == 32,
                forall|j: int| 0 <= j < i ==> self@[j] == other@[j],
            decreases 32 - i,
        {
            if self.0[i] != other.0[i] {
                return false;
            }
            i = i + 1;
        }
        assert(self@ =~= other@);
        true
    }
}

impl SortKey for OpaqueId {
    open spec fn sort_bytes(&self) -> Seq<u8> {
        self@
    }

    fn compare_key(&self, other: &Self) -> (r: KeyOrder) {
        let a = vstd::array::array_as_slice(&self.0);
        let b = vstd::array::array_as_slice(&other.0);
        assert(a@ == self.sort_bytes());
        assert(b@ == other.sort_bytes());
        compare_bytes(a, b)
    }
}

/// The identity a person holds across all of their devices.
#[derive(Clone, Copy, PartialEq, Eq, PartialOrd, Ord, Hash, Debug)]
pub struct IdentityId(pub OpaqueId);

impl View for IdentityId {
    type V = Seq<u8>;

    open spec fn view(&self) -> Seq<u8> {
        self.0@
    }
}

impl IdentityId {
    pub fn from_bytes(bytes: [u8; 32]) -> (r: Self)
        ensures
            r@ == bytes@,
    {
        IdentityId(OpaqueId::from_bytes(bytes))
    }

    pub fn as_bytes(&self) -> (r: &[u8; 32])
        ensures
            r@ == self@,
    {
        self.0.as_bytes()
    }

    /// Lowercase hexadecimal of the first six bytes.
    pub fn short(&self) -> (r: String)
        ensures
            r@ == hex_lower(self@.take(6)),
    {
        self.0.short()
    }

    /// Lowercase hexadecimal of all 32 bytes.
    pub fn to_hex(&self) -> (r: String)
        ensures
            r@ == hex_lower(self@),
    {
        self.0.to_hex()
    }

    /// Reads the identifier from hexadecimal text of either case.
    pub fn parse(text: &str) -> (r: Result<Self, ParseIdError>)
        ensures
            r matches Ok(id) ==> parsed_id_bytes(text) == Some(id@),
            r is Ok <==> parsed_id_bytes(text) is Some,
            r matches Err(ParseIdError::Hex(_)) <==> hex_decoded(text.spec_bytes()) is None,
            r matches Err(ParseIdError::Length) <==> (hex_decoded(text.spec_bytes()) is Some
                && parsed_id_bytes(text) is None),
    {
        match OpaqueId::parse(text) {
            Ok(id) => Ok(IdentityId(id)),
            Err(e) => Err(e),
        }
    }

    /// Whether two identifiers have the same bytes.
    pub fn same(&self, other: &Self) -> (r: bool)
        ensures
            r == (self@ == other@),
            r == (*self == *other),
    {
        proof {
            OpaqueId::lemma_view(self.0, other.0);
        }
        self.0.same(&other.0)
    }
}

impl SortKey for IdentityId {
    open spec fn sort_bytes(&self) -> Seq<u8> {
        self@
    }

    fn compare_key(&self, other: &Self) -> (r: KeyOrder) {
        self.0.compare_key(&other.0)
    }
}

/// One device of an identity: the digest of its public key.
#[derive(Clone, Copy, PartialEq, Eq, PartialOrd, Ord, Hash, Debug)]
pub struct DeviceId(pub OpaqueId);

impl View for DeviceId {
    type V = Seq<u8>;

    open spec fn view(&self) -> Seq<u8> {
        self.0@
    }
}

impl DeviceId {
    pub fn from_bytes(bytes: [u8; 32]) -> (r: Self)
        ensures
            r@ == bytes@,
    {
        DeviceId(OpaqueId::from_bytes(bytes))
    }

    pub fn as_bytes(&self) -> (r: &[u8; 32])
        ensures
            r@ == self@,
    {
        self.0.as_bytes()
    }

    /// Lowercase hexadecimal of the first six bytes.
    pub fn short(&self) -> (r: String)
        ensures
            r@ == hex_lower(self@.take(6)),
    {
        self.0.short()
    }

    /// Lowercase hexadecimal of all 32 bytes.
    pub fn to_hex(&self) -> (r: String)
        ensures
            r@ == hex_lower(self@),
    {
        self.0.to_hex()
    }

    /// Reads the identifier from hexadecimal text of either case.
    pub fn parse(text: &str) -> (r: Result<Self, ParseIdError>)
        ensures
            r matches Ok(id) ==> parsed_id_bytes(text) == Some(id@),
            r is Ok <==> parsed_id_bytes(text) is Some,
            r matches Err(ParseIdError::Hex(_)) <==> hex_decoded(text.spec_bytes()) is None,
            r matches Err(ParseIdError::Length) <==> (hex_decoded(text.spec_bytes()) is Some
                && parsed_id_bytes(text) is None),
    {
        match OpaqueId::parse(text) {
            Ok(id) => Ok(DeviceId(id)),
            Err(e) => Err(e),
        }
    }

    /// Whether two identifiers have the same bytes.
    pub fn same(&self, other: &Self) -> (r: bool)
        ensures
            r == (self@ == other@),
            r == (*self == *other),
    {
        proof {
            OpaqueId::lemma_view(self.0, other.0);
        }
        self.0.same(&other.0)
    }
}

impl SortKey for DeviceId {
    open spec fn sort_bytes(&self) -> Seq<u8> {
        self@
    }

    fn compare_key(&self, other: &Self) -> (r: KeyOrder) {
        self.0.compare_key(&other.0)
    }
}

/// A conversation, direct or in a group.
#[derive(Clone, Copy, PartialEq, Eq, PartialOrd, Ord, Hash, Debug)]
pub struct ConversationId(pub OpaqueId);

impl View for ConversationId {
    type V = Seq<u8>;

    open spec fn view(&self) -> Seq<u8> {
        self.0@
    }
}

impl ConversationId {
    pub fn from_bytes(bytes: [u8; 32]) -> (r: Self)
        ensures
            r@ == bytes@,
    {
        ConversationId(OpaqueId::from_bytes(bytes))
    }

    pub fn as_bytes(&self) -> (r: &[u8; 32])
        ensures
            r@ == self@,
    {
        self.0.as_bytes()
    }

    /// Lowercase hexadecimal of the first six bytes.
    pub fn short(&self) -> (r: String)
        ensures
            r@ == hex_lower(self@.take(6)),
    {
        self.0.short()
    }

    /// Lowercase hexadecimal of all 32 bytes.
    pub fn to_hex(&self) -> (r: String)
        ensures
            r@ == hex_lower(self@),
    {
        self.0.to_hex()
    }

    /// Reads the identifier from hexadecimal text of either case.
    pub fn parse(text: &str) -> (r: Result<Self, ParseIdError>)
        ensures
            r matches Ok(id) ==> parsed_id_bytes(text) == Some(id@),
            r is Ok <==> parsed_id_bytes(text) is Some,
            r matches Err(ParseIdError::Hex(_)) <==> hex_decoded(text.spec_bytes()) is None,
            r matches Err(ParseIdError::Length) <==> (hex_decoded(text.spec_bytes()) is Some
                && parsed_id_bytes(text) is None),
    {
        match OpaqueId::parse(text) {
            Ok(id) => Ok(ConversationId(id)),
            Err(e) => Err(e),
        }
    }

    /// Whether two identifiers have the same bytes.
    pub fn same(&self, other: &Self) -> (r: bool)
        ensures
            r == (self@ == other@),
            r == (*self == *other),
    {
        proof {
            OpaqueId::lemma_view(self.0, other.0);
        }
        self.0.same(&other.0)
    }
}

impl SortKey for ConversationId {
    open spec fn sort_bytes(&self) -> Seq<u8> {
        self@
    }

    fn compare_key(&self, other: &Self) -> (r: KeyOrder) {
        self.0.compare_key(&other.0)
    }
}

/// One conversation event.
#[derive(Clone, Copy, PartialEq, Eq, PartialOrd, Ord, Hash, Debug)]
pub struct EventId(pub OpaqueId);

impl View for EventId {
    type V = Seq<u8>;

    open spec fn view(&self) -> Seq<u8> {
        self.0@
    }
}

impl EventId {
    pub fn from_bytes(bytes: [u8; 32]) -> (r: Self)
        ensures
            r@ == bytes@,
    {
        EventId(OpaqueId::from_bytes(bytes))
    }

    pub fn as_bytes(&self) -> (r: &[u8; 32])
        ensures
            r@ == self@,
    {
        self.0.as_bytes()
    }

    /// Lowercase hexadecimal of the first six bytes.
    pub fn short(&self) -> (r: String)
        ensures
            r@ == hex_lower(self@.take(6)),
    {
        self.0.short()
    }

    /// Lowercase hexadecimal of all 32 bytes.
    pub fn to_hex(&self) -> (r: String)
        ensures
            r@ == hex_lower(self@),
    {
        self.0.to_hex()
    }

    /// Reads the identifier from hexadecimal text of either case.
    pub fn parse(text: &str) -> (r: Result<Self, ParseIdError>)
        ensures
            r matches Ok(id) ==> parsed_id_bytes(text) == Some(id@),
            r is Ok <==> parsed_id_bytes(text) is Some,
            r matches Err(ParseIdError::Hex(_)) <==> hex_decoded(text.spec_bytes()) is None,
            r matches Err(ParseIdError::Length) <==> (hex_decoded(text.spec_bytes()) is Some
                && parsed_id_bytes(text) is None),
    {
        match OpaqueId::parse(text) {
            Ok(id) => Ok(EventId(id)),
            Err(e) => Err(e),
        }
    }

    /// Whether two identifiers have the same bytes.
    pub fn same(&self, other: &Self) -> (r: bool)
        ensures
            r == (self@ == other@),
            r == (*self == *other),
    {
        proof {
            OpaqueId::lemma_view(self.0, other.0);
        }
        self.0.same(&other.0)
    }
}

impl SortKey for EventId {
    open spec fn sort_bytes(&self) -> Seq<u8> {
        self@
    }

    fn compare_key(&self, other: &Self) -> (r: KeyOrder) {
        self.0.compare_key(&other.0)
    }
}

/// An optional infrastructure node.
#[derive(Clone, Copy, PartialEq, Eq, PartialOrd, Ord, Hash, Debug)]
pub struct NodeId(pub OpaqueId);

impl View for NodeId {
    type V = Seq<u8>;

    open spec fn view(&self) -> Seq<u8> {
        self.0@
    }
}

impl NodeId {
    pub fn from_bytes(bytes: [u8; 32]) -> (r: Self)
        ensures
            r@ == bytes@,
    {
        NodeId(OpaqueId::from_bytes(bytes))
    }

    pub fn as_bytes(&self) -> (r: &[u8; 32])
        ensures
            r@ == self@,
    {
        self.0.as_bytes()
    }

    /// Lowercase hexadecimal of the first six bytes.
    pub fn short(&self) -> (r: String)
        ensures
            r@ == hex_lower(self@.take(6)),
    {
        self.0.short()
    }

    /// Lowercase hexadecimal of all 32 bytes.
    pub fn to_hex(&self) -> (r: String)
        ensures
            r@ == hex_lower(self@),
    {
        self.0.to_hex()
    }

    /// Reads the identifier from hexadecimal text of either case.
    pub fn parse(text: &str) -> (r: Result<Self, ParseIdError>)
        ensures
            r matches Ok(id) ==> parsed_id_bytes(text) == Some(id@),
            r is Ok <==> parsed_id_bytes(text) is Some,
            r matches Err(ParseIdError::Hex(_)) <==> hex_decoded(text.spec_bytes()) is None,
            r matches Err(ParseIdError::Length) <==> (hex_decoded(text.spec_bytes()) is Some
                && parsed_id_bytes(text) is None),
    {
        match OpaqueId::parse(text) {
            Ok(id) => Ok(NodeId(id)),
            Err(e) => Err(e),
        }
    }

    /// Whether two identifiers have the same bytes.
    pub fn same(&self, other: &Self) -> (r: bool)
        ensures
            r == (self@ == other@),
            r == (*self == *other),
    {
        proof {
            OpaqueId::lemma_view(self.0, other.0);
        }
        self.0.same(&other.0)
    }
}

impl SortKey for NodeId {
    open spec fn sort_bytes(&self) -> Seq<u8> {
        self@
    }

    fn compare_key(&self, other: &Self) -> (r: KeyOrder) {
        self.0.compare_key(&other.0)
    }
}

/// One call.
#[derive(Clone, Copy, PartialEq, Eq, PartialOrd, Ord, Hash, Debug)]
pub struct CallId(pub OpaqueId);

impl View for CallId {
    type V = Seq<u8>;

    open spec fn view(&self) -> Seq<u8> {
        self.0@
    }
}

impl CallId {
    pub fn from_bytes(bytes: [u8; 32]) -> (r: Self)
        ensures
            r@ == bytes@,
    {
        CallId(OpaqueId::from_bytes(bytes))
    }

    pub fn as_bytes(&self) -> (r: &[u8; 32])
        ensures
            r@ == self@,
    {
        self.0.as_bytes()
    }

    /// Lowercase hexadecimal of the first six bytes.
    pub fn short(&self) -> (r: String)
        ensures
            r@ == hex_lower(self@.take(6)),
    {
        self.0.short()
    }

    /// Lowercase hexadecimal of all 32 bytes.
    pub fn to_hex(&self) -> (r: String)
        ensures
            r@ == hex_lower(self@),
    {
        self.0.to_hex()
    }

    /// Reads the identifier from hexadecimal text of either case.
    pub fn parse(text: &str) -> (r: Result<Self, ParseIdError>)
        ensures
            r matches Ok(id) ==> parsed_id_bytes(text) == Some(id@),
            r is Ok <==> parsed_id_bytes(text) is Some,
            r matches Err(ParseIdError::Hex(_)) <==> hex_decoded(text.spec_bytes()) is None,
            r matches Err(ParseIdError::Length) <==> (hex_decoded(text.spec_bytes()) is Some
                && parsed_id_bytes(text) is None),
    {
        match OpaqueId::parse(text) {
            Ok(id) => Ok(CallId(id)),
            Err(e) => Err(e),
        }
    }

    /// Whether two identifiers have the same bytes.
    pub fn same(&self, other: &Self) -> (r: bool)
        ensures
            r == (self@ == other@),
            r == (*self == *other),
    {
        proof {
            OpaqueId::lemma_view(self.0, other.0);
        }
        self.0.same(&other.0)
    }
}

impl SortKey for CallId {
    open spec fn sort_bytes(&self) -> Seq<u8> {
        self@
    }

    fn compare_key(&self, other: &Self) -> (r: KeyOrder) {
        self.0.compare_key(&other.0)
    }
}

} // verus!
