//! The client registry: the table of connected clients, in the order in
//! which they joined. No two entries share a username or a connection
//! identity.
//!
//! The registry is a plain owned value. Every change goes through `&mut self`,
//! so a server that shares it behind one lock gets check-then-insert as a
//! single step; snapshots and lookups hand out independent copies that stay
//! valid after the lock is released.

use crate::error::RegistryError;
use crate::session::CryptoSession;
use vstd::prelude::*;

verus! {

/// One connected peer. The writable half of its connection stays with
/// whoever owns the socket, filed under the client's identity.
pub struct Client {
    /// The connection this client arrived on; unique and stable while it lives.
    pub identity: u64,
    /// The name the client announced in its handshake.
    pub username: String,
    /// The client's own cipher session.
    pub session: CryptoSession,
}

/// A client as contracts see it.
pub struct ClientView {
    pub identity: u64,
    pub username: Seq<char>,
    pub key: Seq<u8>,
    pub iv: Seq<u8>,
}

impl View for Client {
    type V = ClientView;

    open spec fn view(&self) -> ClientView {
        ClientView {
            identity: self.identity,
            username: self.username@,
            key: self.session.key(),
            iv: self.session.iv(),
        }
    }
}

impl Client {
    /// Puts the three parts of a client together.
    pub fn new(identity: u64, username: String, session: CryptoSession) -> (c: Client)
        ensures
            c.identity == identity,
            c.username == username,
            c.session == session,
    {
        Client { identity, username, session }
    }

    /// An independent copy: same identity and name, a session over the same
    /// key material.
    pub fn handle(&self) -> (c: Client)
        ensures
            c@ == self@,
    {
        Client {
            identity: self.identity,
            username: self.username.clone(),
            session: self.session.duplicate(),
        }
    }
}

/// The views of a sequence of clients.
pub open spec fn views(clients: Seq<Client>) -> Seq<ClientView> {
    clients.map_values(|c: Client| c@)
}

/// No two entries share a username, and no two share an identity.
pub open spec fn distinct(m: Seq<ClientView>) -> bool {
    forall|i: int, j: int|
        0 <= i < j < m.len() ==> (#[trigger] m[i]).username != (#[trigger] m[j]).username
            && m[i].identity != m[j].identity
}

/// Some entry carries this username.
pub open spec fn has_username(m: Seq<ClientView>, name: Seq<char>) -> bool {
    exists|i: int| 0 <= i < m.len() && (#[trigger] m[i]).username == name
}

/// Some entry carries this identity.
pub open spec fn has_identity(m: Seq<ClientView>, identity: u64) -> bool {
    exists|i: int| 0 <= i < m.len() && (#[trigger] m[i]).identity == identity
}

/// Where the entry with this username stands.
pub open spec fn position_of_username(m: Seq<ClientView>, name: Seq<char>) -> int {
    choose|i: int| 0 <= i < m.len() && (#[trigger] m[i]).username == name
}

/// Where the entry with this identity stands.
pub open spec fn position_of_identity(m: Seq<ClientView>, identity: u64) -> int {
    choose|i: int| 0 <= i < m.len() && (#[trigger] m[i]).identity == identity
}

/// The entry with this username, if there is one.
pub open spec fn lookup(m: Seq<ClientView>, name: Seq<char>) -> Option<ClientView> {
    if has_username(m, name) {
        Some(m[position_of_username(m, name)])
    } else {
        None
    }
}

/// The table after an attempt to add `c`: refused where the username is
/// taken, then where the identity is taken; otherwise `c` joins at the end.
pub open spec fn inserted(m: Seq<ClientView>, c: ClientView) -> Result<
    Seq<ClientView>,
    RegistryError,
> {
    if has_username(m, c.username) {
        Err(RegistryError::UsernameTaken)
    } else if has_identity(m, c.identity) {
        Err(RegistryError::IdentityTaken)
    } else {
        Ok(m.push(c))
    }
}

/// The table without the entry of this identity; unchanged if there is none.
pub open spec fn removed(m: Seq<ClientView>, identity: u64) -> Seq<ClientView> {
    if has_identity(m, identity) {
        m.remove(position_of_identity(m, identity))
    } else {
        m
    }
}

/// The table of connected clients.
pub struct ClientRegistry {
    clients: Vec<Client>,
}

impl View for ClientRegistry {
    type V = Seq<ClientView>;

    closed spec fn view(&self) -> Seq<ClientView> {
        views(self.clients@)
    }
}

impl ClientRegistry {
    /// The registry's invariant: usernames and identities are unique.
    pub open spec fn wf(&self) -> bool {
        distinct(self@)
    }

    #[verifier::type_invariant]
    spec fn inv(&self) -> bool {
        self.wf()
    }

    /// An empty registry.
    pub fn new() -> (r: ClientRegistry)
        ensures
            r@ == Seq::<ClientView>::empty(),
            r.wf(),
    {
        let r = ClientRegistry { clients: Vec::new() };
        assert(r@ =~= Seq::<ClientView>::empty());
        r
    }

    /// How many clients are connected.
    pub fn len(&self) -> (n: usize)
        ensures
            n == self@.len(),
    {
        self.clients.len()
    }

    /// Where the entry with this username stands, if there is one.
    fn index_of_username(&self, name: &String) -> (r: Option<usize>)
        ensures
            match r {
                Some(i) => i < self@.len() && self@[i as int].username == name@,
                None => !has_username(self@, name@),
            },
    {
        let mut i: usize = 0;
        while i < self.clients.len()
            invariant
                i <= self.clients@.len(),
                forall|j: int| 0 <= j < i ==> (#[trigger] self@[j]).username != name@,
            decreases self.clients@.len() - i,
        {
            if self.clients[i].username == *name {
                return Some(i);
            }
            i += 1;
        }
        None
    }

    /// Where the entry with this identity stands, if there is one.
    fn index_of_identity(&self, identity: u64) -> (r: Option<usize>)
        ensures
            match r {
                Some(i) => i < self@.len() && self@[i as int].identity == identity,
                None => !has_identity(self@, identity),
            },
    {
        let mut i: usize = 0;
        while i < self.clients.len()
            invariant
                i <= self.clients@.len(),
                forall|j: int| 0 <= j < i ==> (#[trigger] self@[j]).identity != identity,
            decreases self.clients@.len() - i,
        {
            if self.clients[i].identity == identity {
                return Some(i);
            }
            i += 1;
        }
        None
    }

    /// Adds a client at the end of the table. Refused with `UsernameTaken`
    /// exactly when the username is in use, and otherwise with
    /// `IdentityTaken` when the connection identity is; a refused insert
    /// leaves the registry unchanged.
    pub fn insert(&mut self, client: Client) -> (r: Result<(), RegistryError>)
        ensures
            final(self).wf(),
            match inserted(old(self)@, client@) {
                Ok(m) => r is Ok && final(self)@ == m,
                Err(e) => r == Err::<(), RegistryError>(e) && final(self)@ == old(self)@,
            },
    {
        proof {
            use_type_invariant(&*self);
        }
        if self.index_of_username(&client.username).is_some() {
            return Err(RegistryError::UsernameTaken);
        }
        if self.index_of_identity(client.identity).is_some() {
            return Err(RegistryError::IdentityTaken);
        }
        // The table is taken out while it changes, so that the registry
        // never holds one in between two states.
        let mut clients: Vec<Client> = Vec::new();
        proof {
            lemma_insert_keeps_distinct(self@, client@);
            assert(views(self.clients@.push(client)) =~= self@.push(client@));
            assert(views(clients@) =~= Seq::<ClientView>::empty());
        }
        std::mem::swap(&mut self.clients, &mut clients);
        clients.push(client);
        std::mem::swap(&mut self.clients, &mut clients);
        Ok(())
    }

    /// Takes out the client of this identity. Does nothing if there is none.
    pub fn remove(&mut self, identity: u64)
        ensures
            final(self).wf(),
            final(self)@ == removed(old(self)@, identity),
    {
        proof {
            use_type_invariant(&*self);
        }
        match self.index_of_identity(identity) {
            None => {},
            Some(i) => {
                let mut clients: Vec<Client> = Vec::new();
                proof {
                    lemma_position_of_identity(self@, i as int);
                    lemma_remove_keeps_distinct(self@, identity);
                    assert(views(self.clients@.remove(i as int)) =~= self@.remove(i as int));
                    assert(views(clients@) =~= Seq::<ClientView>::empty());
                }
                std::mem::swap(&mut self.clients, &mut clients);
                clients.remove(i);
                std::mem::swap(&mut self.clients, &mut clients);
            },
        }
    }

    /// A copy of the client with this username, if it is connected.
    pub fn find_by_username(&self, name: &str) -> (r: Option<Client>)
        ensures
            match lookup(self@, name@) {
                Some(v) => r matches Some(c) && c@ == v,
                None => r is None,
            },
    {
        proof {
            use_type_invariant(self);
        }
        let wanted = name.to_owned();
        match self.index_of_username(&wanted) {
            None => None,
            Some(i) => {
                proof {
                    lemma_position_of_username(self@, i as int);
                }
                Some(self.clients[i].handle())
            },
        }
    }

    /// A point-in-time copy of all clients, in joining order.
    pub fn snapshot(&self) -> (r: Vec<Client>)
        ensures
            views(r@) == self@,
    {
        let mut out: Vec<Client> = Vec::new();
        let mut i: usize = 0;
        while i < self.clients.len()
            invariant
                i <= self.clients@.len(),
                out@.len() == i,
                views(out@) == self@.take(i as int),
            decreases self.clients@.len() - i,
        {
            let c = self.clients[i].handle();
            proof {
                let before = views(out@);
                let after = views(out@.push(c));
                assert(self@[i as int] == self.clients@[i as int]@);
                assert forall|j: int| 0 <= j < after.len() implies after[j] == self@.take(
                    i + 1,
                )[j] by {
                    if j < i {
                        assert(after[j] == before[j]);
                        assert(before[j] == self@.take(i as int)[j]);
                    }
                }
                assert(after =~= self@.take(i + 1));
            }
            out.push(c);
            i += 1;
        }
        assert(self@.take(i as int) =~= self@);
        out
    }
}

/// In a table without duplicates, the entry with a given username is the
/// only one: its position is where any entry with that name stands.
pub proof fn lemma_position_of_username(m: Seq<ClientView>, i: int)
    requires
        distinct(m),
        0 <= i < m.len(),
    ensures
        position_of_username(m, m[i].username) == i,
        lookup(m, m[i].username) == Some(m[i]),
{
    let p = position_of_username(m, m[i].username);
    assert(0 <= p < m.len() && m[p].username == m[i].username);
    if p < i {
        assert(m[p].username != m[i].username);
    } else if i < p {
        assert(m[i].username != m[p].username);
    }
}

/// In a table without duplicates, the entry with a given identity is the
/// only one.
pub proof fn lemma_position_of_identity(m: Seq<ClientView>, i: int)
    requires
        distinct(m),
        0 <= i < m.len(),
    ensures
        position_of_identity(m, m[i].identity) == i,
{
    let p = position_of_identity(m, m[i].identity);
    assert(0 <= p < m.len() && m[p].identity == m[i].identity);
    if p < i {
        assert(m[p].identity != m[i].identity);
    } else if i < p {
        assert(m[i].identity != m[p].identity);
    }
}

/// An accepted insert keeps usernames and identities unique.
pub proof fn lemma_insert_keeps_distinct(m: Seq<ClientView>, c: ClientView)
    requires
        distinct(m),
    ensures
        inserted(m, c) matches Ok(after) ==> distinct(after),
{
    if let Ok(after) = inserted(m, c) {
        assert forall|i: int, j: int| 0 <= i < j < after.len() implies (#[trigger] after[i]).username
            != (#[trigger] after[j]).username && after[i].identity != after[j].identity by {
            if j < m.len() {
                assert(after[i] == m[i] && after[j] == m[j]);
            } else {
                assert(after[i] == m[i]);
                assert(after[j] == c);
            }
        }
    }
}

/// A removal keeps usernames and identities unique, and afterwards nobody
/// carries the removed identity.
pub proof fn lemma_remove_keeps_distinct(m: Seq<ClientView>, identity: u64)
    requires
        distinct(m),
    ensures
        distinct(removed(m, identity)),
        !has_identity(removed(m, identity), identity),
{
    if has_identity(m, identity) {
        let p = position_of_identity(m, identity);
        let after = m.remove(p);
        assert forall|i: int| 0 <= i < after.len() implies #[trigger] after[i] == m[if i < p {
            i
        } else {
            i + 1
        }] by {}
        assert forall|i: int, j: int| 0 <= i < j < after.len() implies (#[trigger] after[i]).username
            != (#[trigger] after[j]).username && after[i].identity != after[j].identity by {
            let a = if i < p { i } else { i + 1 };
            let b = if j < p { j } else { j + 1 };
            assert(after[i] == m[a] && after[j] == m[b]);
        }
        assert forall|i: int| 0 <= i < after.len() implies (#[trigger] after[i]).identity
            != identity by {
            let a = if i < p { i } else { i + 1 };
            assert(after[i] == m[a]);
            if a < p {
                assert(m[a].identity != m[p].identity);
            } else {
                assert(m[p].identity != m[a].identity);
            }
        }
    }
}

/// Of two clients with one username the second is refused, and the first
/// stays registered.
pub proof fn lemma_second_username_refused(m: Seq<ClientView>, first: ClientView, second: ClientView)
    requires
        distinct(m),
        inserted(m, first) is Ok,
        second.username == first.username,
    ensures
        inserted(inserted(m, first)->Ok_0, second) == Err::<Seq<ClientView>, RegistryError>(
            RegistryError::UsernameTaken,
        ),
        lookup(inserted(m, first)->Ok_0, first.username) == Some(first),
{
    let after = m.push(first);
    assert(after[m.len() as int] == first);
    lemma_insert_keeps_distinct(m, first);
    lemma_position_of_username(after, m.len() as int);
}

/// Removing an identity that was never inserted changes nothing.
pub proof fn lemma_remove_absent(m: Seq<ClientView>, identity: u64)
    requires
        !has_identity(m, identity),
    ensures
        removed(m, identity) == m,
{
}

/// A snapshot taken before an insert does not hold the client inserted
/// afterwards, and the insert leaves the snapshot's entries where they were.
pub proof fn lemma_snapshot_before_insert(m: Seq<ClientView>, c: ClientView)
    requires
        distinct(m),
        inserted(m, c) is Ok,
    ensures
        !m.contains(c),
        !has_username(m, c.username),
        inserted(m, c)->Ok_0.take(m.len() as int) == m,
{
    if m.contains(c) {
        let i = choose|i: int| 0 <= i < m.len() && m[i] == c;
        assert(m[i].username == c.username);
    }
    assert(m.push(c).take(m.len() as int) =~= m);
}

} // verus!
