//! What the peer transport hands the application, and the rule that keeps
//! one media connection per peer when both sides dial at once.
use vstd::prelude::*;
use vstd::string::*;
use vstd::utf8::encode_utf8;
use crate::ordered::{compare_bytes, KeyOrder, SortKey, SortedMap};

verus! {

/// An envelope that arrived from a peer endpoint.
#[derive(Debug, Clone, PartialEq, Eq)]
pub struct IncomingEnvelope {
    pub remote_endpoint_id: String,
    pub bytes: Vec<u8>,
}

/// A media datagram that arrived from a peer endpoint.
#[derive(Debug, Clone, PartialEq, Eq)]
pub struct IncomingMediaDatagram {
    pub remote_endpoint_id: String,
    pub bytes: Vec<u8>,
}

/// Why a transport operation failed.
#[derive(Debug, Clone, PartialEq, Eq)]
pub enum NetworkError {
    InvalidAddress(String),
    Transport(String),
    Protocol(String),
    IncomingClosed,
}

/// Strict lexicographic order of texts by their characters, a proper
/// prefix first; for Unicode text it is the order of their UTF-8 bytes.
pub open spec fn text_lt(a: Seq<char>, b: Seq<char>) -> bool
    decreases a.len(),
{
    if a.len() == 0 {
        b.len() > 0
    } else if b.len() == 0 {
        false
    } else if a[0] != b[0] {
        a[0] < b[0]
    } else {
        text_lt(a.drop_first(), b.drop_first())
    }
}

/// Whether `a` sorts before `b`.
pub fn text_less(a: &str, b: &str) -> (r: bool)
    ensures
        r == text_lt(a@, b@),
{
    let n = a.unicode_len();
    let m = b.unicode_len();
    let mut i: usize = 0;
    assert(a@.skip(0) =~= a@);
    assert(b@.skip(0) =~= b@);
    while i < n && i < m
        invariant
            n == a@.len(),
            m == b@.len(),
            i <= n,
            i <= m,
            text_lt(a@, b@) == text_lt(a@.skip(i as int), b@.skip(i as int)),
        decreases n - i,
    {
        let x = a.get_char(i);
        let y = b.get_char(i);
        assert(a@.skip(i as int)[0] == x);
        assert(b@.skip(i as int)[0] == y);
        if x != y {
            return x < y;
        }
        assert(a@.skip(i as int).drop_first() =~= a@.skip(i + 1));
        assert(b@.skip(i as int).drop_first() =~= b@.skip(i + 1));
        i = i + 1;
    }
    proof {
        if i == n {
            assert(a@.skip(i as int).len() == 0);
        } else {
            assert(b@.skip(i as int).len() == 0);
        }
    }
    i == n && i < m
}

/// Whether the local endpoint is the dialing side of the canonical media
/// connection with a peer: the side whose identifier sorts first dials.
pub fn canonical_is_client(local_endpoint_id: &str, remote_endpoint_id: &str) -> (r: bool)
    ensures
        r == text_lt(local_endpoint_id@, remote_endpoint_id@),
{
    text_less(local_endpoint_id, remote_endpoint_id)
}

/// Whether a new media connection yields to the one already registered for
/// the peer: it does when the registered one is the canonical connection,
/// that is, when the local side's role in it is the canonical role.
pub fn keeps_existing_session(local_endpoint_id: &str, remote_endpoint_id: &str, existing_is_client: bool) -> (r:
    bool)
    ensures
        r == (existing_is_client == text_lt(local_endpoint_id@, remote_endpoint_id@)),
{
    existing_is_client == canonical_is_client(local_endpoint_id, remote_endpoint_id)
}

/// Whether the registered session of a peer is the one a finished reader
/// belongs to, and may be removed.
pub fn is_current_session(registered_generation: u64, reader_generation: u64) -> (r: bool)
    ensures
        r == (registered_generation == reader_generation),
{
    registered_generation == reader_generation
}

/// No text sorts before itself.
proof fn lemma_text_irreflexive(a: Seq<char>)
    ensures
        !text_lt(a, a),
    decreases a.len(),
{
    if a.len() > 0 {
        lemma_text_irreflexive(a.drop_first());
    }
}

/// Of two different texts exactly one sorts first.
proof fn lemma_text_trichotomy(a: Seq<char>, b: Seq<char>)
    requires
        a != b,
    ensures
        text_lt(a, b) != text_lt(b, a),
    decreases a.len(),
{
    if a.len() > 0 && b.len() > 0 && a[0] == b[0] {
        if a.drop_first() == b.drop_first() {
            assert(a =~= seq![a[0]] + a.drop_first());
            assert(b =~= seq![b[0]] + b.drop_first());
        }
        lemma_text_trichotomy(a.drop_first(), b.drop_first());
    } else if a.len() == 0 && b.len() == 0 {
        assert(a =~= b);
    }
}

/// Two peers that dial each other at once agree on the canonical media
/// connection: exactly one of them is its dialing side.
pub proof fn law_one_side_dials(local: Seq<char>, remote: Seq<char>)
    requires
        local != remote,
    ensures
        text_lt(local, remote) != text_lt(remote, local),
{
    lemma_text_trichotomy(local, remote);
}

/// A peer endpoint's identifier as a key, ordered by its UTF-8 bytes.
#[derive(Debug, Clone)]
pub struct EndpointKey(pub String);

impl SortKey for EndpointKey {
    open spec fn sort_bytes(&self) -> Seq<u8> {
        encode_utf8(self.0@)
    }

    fn compare_key(&self, other: &Self) -> (r: KeyOrder) {
        compare_bytes(self.0.as_str().as_bytes(), other.0.as_str().as_bytes())
    }
}

/// The key a peer endpoint's sessions are kept under: its identifier's
/// UTF-8 bytes.
pub open spec fn endpoint_key(endpoint_id: Seq<char>) -> Seq<u8> {
    encode_utf8(endpoint_id)
}

/// The registered media session of a peer: which registration it came
/// from, and whether the local side dialed it.
#[derive(Debug, Clone, Copy, PartialEq, Eq)]
pub struct SessionState {
    pub generation: u64,
    pub local_dialed: bool,
}

/// What registering a new media connection did.
#[derive(Debug, Clone, Copy, PartialEq, Eq)]
pub enum Registration {
    /// The peer's registered session is the canonical one: the new
    /// connection is closed as a duplicate and that session is kept.
    Duplicate { kept: u64 },
    /// The new connection is the peer's session now, under `generation`;
    /// the session it replaced, if any, is closed.
    Registered { generation: u64, replaced: Option<u64> },
}

/// The sessions, and the outcome, after registering a connection from
/// `remote` under generation `g`.
pub open spec fn registered(
    sessions: Map<Seq<u8>, SessionState>,
    local: Seq<char>,
    remote: Seq<char>,
    local_dialed: bool,
    g: u64,
) -> (Map<Seq<u8>, SessionState>, Registration) {
    let k = endpoint_key(remote);
    if sessions.contains_key(k) && sessions[k].local_dialed == text_lt(local, remote) {
        (sessions, Registration::Duplicate { kept: sessions[k].generation })
    } else {
        (
            sessions.insert(k, SessionState { generation: g, local_dialed }),
            Registration::Registered {
                generation: g,
                replaced: if sessions.contains_key(k) {
                    Some(sessions[k].generation)
                } else {
                    None
                },
            },
        )
    }
}

/// The sessions after the reader of generation `g` of `remote` ends: the
/// peer's session goes only if it is still that generation.
pub open spec fn reader_ended(sessions: Map<Seq<u8>, SessionState>, remote: Seq<char>, g: u64) -> Map<
    Seq<u8>,
    SessionState,
> {
    let k = endpoint_key(remote);
    if sessions.contains_key(k) && sessions[k].generation == g {
        sessions.remove(k)
    } else {
        sessions
    }
}

/// The media sessions of a node, one per peer endpoint, each tagged with
/// the registration that made it.
#[derive(Debug)]
pub struct MediaSessionTable {
    local_endpoint_id: String,
    sessions: SortedMap<EndpointKey, SessionState>,
    next_generation: u64,
}

impl MediaSessionTable {
    /// The local endpoint's identifier.
    pub closed spec fn local(&self) -> Seq<char> {
        self.local_endpoint_id@
    }

    /// The registered sessions, by endpoint key.
    pub closed spec fn sessions(&self) -> Map<Seq<u8>, SessionState> {
        self.sessions@
    }

    /// The generation the next registration gets.
    pub closed spec fn next_generation(&self) -> u64 {
        self.next_generation
    }

    /// Every registered session is of an earlier generation.
    pub closed spec fn wf(&self) -> bool {
        &&& self.sessions.wf()
        &&& forall|k: Seq<u8>| #[trigger]
            self.sessions@.contains_key(k) ==> self.sessions@[k].generation < self.next_generation
    }

    /// An empty table of the local endpoint.
    pub fn new(local_endpoint_id: String) -> (r: Self)
        ensures
            r.wf(),
            r.local() == local_endpoint_id@,
            r.sessions() == Map::<Seq<u8>, SessionState>::empty(),
            r.next_generation() == 0,
    {
        MediaSessionTable { local_endpoint_id, sessions: SortedMap::new(), next_generation: 0 }
    }

    /// Registers a new media connection with `remote`, dialed by the local
    /// side or not. Each registration takes the next generation, whatever
    /// comes of it.
    pub fn register(&mut self, remote: &str, local_dialed: bool) -> (r: Registration)
        requires
            old(self).wf(),
            old(self).next_generation() < u64::MAX,
        ensures
            final(self).wf(),
            final(self).local() == old(self).local(),
            final(self).next_generation() == old(self).next_generation() + 1,
            (final(self).sessions(), r) == registered(
                old(self).sessions(),
                old(self).local(),
                remote@,
                local_dialed,
                old(self).next_generation(),
            ),
    {
        let generation = self.next_generation;
        self.next_generation = generation + 1;
        let canonical = canonical_is_client(self.local_endpoint_id.as_str(), remote);
        let key = EndpointKey(String::from_str(remote));
        let existing = match self.sessions.get(&key) {
            Some(state) => Some(*state),
            None => None,
        };
        match existing {
            Some(state) => {
                if state.local_dialed == canonical {
                    return Registration::Duplicate { kept: state.generation };
                }
            },
            None => {},
        }
        self.sessions.insert(key, SessionState { generation, local_dialed });
        let replaced = match existing {
            Some(state) => Some(state.generation),
            None => None,
        };
        Registration::Registered { generation, replaced }
    }

    /// Forgets `remote`'s session when the reader of generation
    /// `generation` ends, if that is still the registered one; answers
    /// whether it was.
    pub fn remove_if_current(&mut self, remote: &str, generation: u64) -> (r: bool)
        requires
            old(self).wf(),
        ensures
            final(self).wf(),
            final(self).local() == old(self).local(),
            final(self).next_generation() == old(self).next_generation(),
            final(self).sessions() == reader_ended(old(self).sessions(), remote@, generation),
            r == (old(self).sessions().contains_key(endpoint_key(remote@)) && old(self).sessions()[endpoint_key(
                remote@,
            )].generation == generation),
    {
        let key = EndpointKey(String::from_str(remote));
        let current = match self.sessions.get(&key) {
            Some(state) => is_current_session(state.generation, generation),
            None => false,
        };
        if current {
            self.sessions.remove(&key);
        }
        current
    }

    /// The registered session of `remote`, if any.
    pub fn session(&self, remote: &str) -> (r: Option<SessionState>)
        requires
            self.wf(),
        ensures
            r == (if self.sessions().contains_key(endpoint_key(remote@)) {
                Some(self.sessions()[endpoint_key(remote@)])
            } else {
                None
            }),
    {
        let key = EndpointKey(String::from_str(remote));
        match self.sessions.get(&key) {
            Some(state) => Some(*state),
            None => None,
        }
    }
}

/// The reader of a replaced session, when it ends, leaves the session that
/// replaced it: whatever generation an earlier registration got, removing
/// it after a later registration of the same peer changes nothing.
pub proof fn law_replaced_reader_keeps_successor(
    sessions: Map<Seq<u8>, SessionState>,
    local: Seq<char>,
    remote: Seq<char>,
    local_dialed: bool,
    next: u64,
    earlier: u64,
)
    requires
        forall|k: Seq<u8>| #[trigger] sessions.contains_key(k) ==> sessions[k].generation < next,
        earlier < next,
    ensures
        registered(sessions, local, remote, local_dialed, next).1 is Registered ==> reader_ended(
            registered(sessions, local, remote, local_dialed, next).0,
            remote,
            earlier,
        ) == registered(sessions, local, remote, local_dialed, next).0,
{
}

/// A duplicate connection never displaces the canonical session.
pub proof fn law_duplicate_leaves_sessions(
    sessions: Map<Seq<u8>, SessionState>,
    local: Seq<char>,
    remote: Seq<char>,
    local_dialed: bool,
    g: u64,
)
    ensures
        registered(sessions, local, remote, local_dialed, g).1 is Duplicate ==> registered(
            sessions,
            local,
            remote,
            local_dialed,
            g,
        ).0 == sessions,
{
}

} // verus!
