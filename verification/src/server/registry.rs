//! A store for what a terminal knows of its clients and of one screen: who
//! is registered, with which secret, and which secrets were used already.
//! It answers what the library asks of an application about clients and
//! screens.

use vstd::prelude::*;
use vstd::string::StringSliceAdditionalSpecFns;
use vstd::utf8::encode_utf8;
use crate::common::foundation::identifiers::bytes_equal;
use crate::common::foundation::identifiers::ClientID;
use crate::server::auth::ClientCredentials;
use crate::server::auth::ClientIdentity;
use crate::server::auth::ScreenCredentials;
use crate::server::auth::ScreenIdentity;
use crate::server::selector::ClientSelector;

verus! {

/// A client in the store.
#[derive(Debug)]
pub struct ClientEntry {
    identity: ClientIdentity,
    credentials: ClientCredentials,
    is_authorized: bool,
}

/// What the store holds of a client: its client ID, its secret, and whether
/// the secret was used.
pub ghost struct EntryView {
    pub id: Seq<u8>,
    pub secret: Seq<u8>,
    pub authorized: bool,
}

impl ClientEntry {
    /// What the store holds of the client.
    pub closed spec fn view(&self) -> EntryView {
        EntryView {
            id: self.identity.id_bytes(),
            secret: encode_utf8(self.credentials.secret_text()),
            authorized: self.is_authorized,
        }
    }

    /// The identity of the client.
    pub closed spec fn identity_view(&self) -> ClientIdentity {
        self.identity
    }
}

/// The place of the first client with the given secret, or the number of
/// clients if there is none.
pub open spec fn first_with_secret(entries: Seq<EntryView>, secret: Seq<u8>) -> int
    decreases entries.len(),
{
    if entries.len() == 0 {
        0
    } else if entries[0].secret == secret {
        0
    } else {
        1 + first_with_secret(entries.drop_first(), secret)
    }
}

/// The place of the first client with the given client ID, or the number of
/// clients if there is none.
pub open spec fn first_with_id(entries: Seq<EntryView>, id: Seq<u8>) -> int
    decreases entries.len(),
{
    if entries.len() == 0 {
        0
    } else if entries[0].id == id {
        0
    } else {
        1 + first_with_id(entries.drop_first(), id)
    }
}

/// The entry with its secret marked as used.
pub open spec fn used(entry: EntryView) -> EntryView {
    EntryView { id: entry.id, secret: entry.secret, authorized: true }
}

/// What an attempt to authorize with the secret makes of the store: if the
/// first client with the secret has not used it, its secret is used now;
/// else nothing changes.
pub open spec fn after_authorize(entries: Seq<EntryView>, secret: Seq<u8>) -> Seq<EntryView> {
    let k = first_with_secret(entries, secret);
    if k < entries.len() && !entries[k].authorized {
        entries.update(k, used(entries[k]))
    } else {
        entries
    }
}

/// Whether an attempt to authorize with the secret succeeds.
pub open spec fn authorizes(entries: Seq<EntryView>, secret: Seq<u8>) -> bool {
    first_with_secret(entries, secret) < entries.len() && !entries[first_with_secret(
        entries,
        secret,
    )].authorized
}

/// The first client with the secret stands inside the store or at its end,
/// has the secret, and no client before it has.
pub proof fn lemma_first_with_secret(entries: Seq<EntryView>, secret: Seq<u8>)
    ensures
        0 <= first_with_secret(entries, secret) <= entries.len(),
        first_with_secret(entries, secret) < entries.len() ==> entries[first_with_secret(
            entries,
            secret,
        )].secret == secret,
        forall|i: int|
            0 <= i < first_with_secret(entries, secret) ==> (#[trigger] entries[i]).secret
                != secret,
    decreases entries.len(),
{
    if entries.len() > 0 && entries[0].secret != secret {
        let rest = entries.drop_first();
        lemma_first_with_secret(rest, secret);
        assert forall|i: int| 0 <= i < first_with_secret(entries, secret) implies (
        #[trigger] entries[i]).secret != secret by {
            if i > 0 {
                assert(entries[i] == rest[i - 1]);
            }
        }
        if first_with_secret(entries, secret) < entries.len() {
            assert(entries[first_with_secret(entries, secret)] == rest[first_with_secret(
                rest,
                secret,
            )]);
        }
    }
}

/// A place that holds the secret, with no place before it that does, is the
/// first with the secret.
pub proof fn lemma_first_with_secret_is(entries: Seq<EntryView>, secret: Seq<u8>, k: int)
    requires
        0 <= k <= entries.len(),
        k < entries.len() ==> entries[k].secret == secret,
        forall|i: int| 0 <= i < k ==> (#[trigger] entries[i]).secret != secret,
    ensures
        first_with_secret(entries, secret) == k,
    decreases entries.len(),
{
    if entries.len() > 0 && k > 0 {
        let rest = entries.drop_first();
        assert(entries[0].secret != secret);
        assert forall|i: int| 0 <= i < k - 1 implies (#[trigger] rest[i]).secret != secret by {
            assert(rest[i] == entries[i + 1]);
        }
        if k < entries.len() {
            assert(rest[k - 1] == entries[k]);
        }
        lemma_first_with_secret_is(rest, secret, k - 1);
    }
}

/// A secret authorizes once: after an attempt with a secret, be it
/// successful or not, no further attempt with that secret succeeds, however
/// many attempts with any secrets are in between.
pub proof fn lemma_secret_authorizes_once(entries: Seq<EntryView>, secret: Seq<u8>, other: Seq<u8>)
    ensures
        !authorizes(after_authorize(entries, secret), secret),
        !authorizes(entries, secret) ==> !authorizes(after_authorize(entries, other), secret),
{
    lemma_first_with_secret(entries, secret);
    lemma_first_with_secret(entries, other);
    let k = first_with_secret(entries, secret);
    let after = after_authorize(entries, secret);
    assert forall|i: int| 0 <= i < after.len() implies (#[trigger] after[i]).secret
        == entries[i].secret by {}
    lemma_first_with_secret_is(after, secret, k);
    let later = after_authorize(entries, other);
    assert forall|i: int| 0 <= i < later.len() implies (#[trigger] later[i]).secret
        == entries[i].secret by {}
    lemma_first_with_secret_is(later, secret, k);
}

/// A store of the clients of a terminal and of its one screen.
#[derive(Debug)]
pub struct Registry {
    clients: Vec<ClientEntry>,
    screen_identity: ScreenIdentity,
    screen_credentials: ScreenCredentials,
    stdin_authorized: bool,
    stdout_authorized: bool,
}

impl Registry {
    /// What the store holds of its clients, in the order in which they were
    /// registered.
    pub closed spec fn clients(&self) -> Seq<EntryView> {
        Seq::new(self.clients@.len(), |i: int| self.clients@[i].view())
    }

    /// The identities of the clients.
    pub closed spec fn identities(&self) -> Seq<ClientIdentity> {
        Seq::new(self.clients@.len(), |i: int| self.clients@[i].identity_view())
    }

    /// The screen.
    pub closed spec fn screen(&self) -> ScreenIdentity {
        self.screen_identity
    }

    /// The credentials of the screen.
    pub closed spec fn screen_secrets(&self) -> ScreenCredentials {
        self.screen_credentials
    }

    /// Whether the secret for the standard input of the screen was used.
    pub closed spec fn stdin_used(&self) -> bool {
        self.stdin_authorized
    }

    /// Whether the secret for the standard output of the screen was used.
    pub closed spec fn stdout_used(&self) -> bool {
        self.stdout_authorized
    }

    /// A store with the given screen and without clients.
    pub fn new(screen_identity: ScreenIdentity, screen_credentials: ScreenCredentials) -> (r: Self)
        ensures
            r.clients() == Seq::<EntryView>::empty(),
            r.screen() == screen_identity,
            r.screen_secrets() == screen_credentials,
            !r.stdin_used(),
            !r.stdout_used(),
    {
        let r = Registry {
            clients: Vec::new(),
            screen_identity,
            screen_credentials,
            stdin_authorized: false,
            stdout_authorized: false,
        };
        assert(r.clients() =~= Seq::<EntryView>::empty());
        r
    }

    /// Registers a client with its credentials, which were not used yet.
    pub fn register_client(&mut self, identity: ClientIdentity, credentials: ClientCredentials)
        ensures
            final(self).clients() == old(self).clients().push(
                EntryView {
                    id: identity.id_bytes(),
                    secret: encode_utf8(credentials.secret_text()),
                    authorized: false,
                },
            ),
            final(self).identities() == old(self).identities().push(identity),
            final(self).screen() == old(self).screen(),
            final(self).screen_secrets() == old(self).screen_secrets(),
            final(self).stdin_used() == old(self).stdin_used(),
            final(self).stdout_used() == old(self).stdout_used(),
    {
        self.clients.push(ClientEntry { identity, credentials, is_authorized: false });
        assert(self.clients() =~= old(self).clients().push(
            EntryView {
                id: identity.id_bytes(),
                secret: encode_utf8(credentials.secret_text()),
                authorized: false,
            },
        ));
        assert(self.identities() =~= old(self).identities().push(identity));
    }

    /// Drops the clients that the selector holds.
    pub fn unregister_clients(&mut self, selector: ClientSelector<'_>)
        ensures
            final(self).clients() == old(self).clients().filter(
                |e: EntryView| !selector.selects(e.id),
            ),
            final(self).screen() == old(self).screen(),
            final(self).screen_secrets() == old(self).screen_secrets(),
            final(self).stdin_used() == old(self).stdin_used(),
            final(self).stdout_used() == old(self).stdout_used(),
    {
        let ghost all = self.clients();
        let ghost keep = |e: EntryView| !selector.selects(e.id);
        let mut i: usize = 0;
        let ghost mut j: int = 0;
        proof {
            reveal(Seq::filter);
            assert(self.clients().subrange(0, 0) =~= all.subrange(0, 0).filter(keep));
            assert(self.clients().subrange(0, self.clients().len() as int) =~= self.clients());
        }
        while i < self.clients.len()
            invariant
                i <= self.clients@.len(),
                0 <= j <= all.len(),
                self.clients@.len() - i == all.len() - j,
                keep == |e: EntryView| !selector.selects(e.id),
                self.clients().subrange(0, i as int) == all.subrange(0, j).filter(keep),
                self.clients().subrange(i as int, self.clients().len() as int) == all.subrange(
                    j,
                    all.len() as int,
                ),
                self.screen_identity == old(self).screen_identity,
                self.screen_credentials == old(self).screen_credentials,
                self.stdin_authorized == old(self).stdin_authorized,
                self.stdout_authorized == old(self).stdout_authorized,
            decreases self.clients@.len() - i,
        {
            let ghost before = self.clients();
            proof {
                reveal(Seq::filter);
                assert(before.subrange(i as int, before.len() as int)[0] == before[i as int]);
                assert(before[i as int] == all[j]);
                assert(all.subrange(0, j + 1).drop_last() =~= all.subrange(0, j));
                assert(all.subrange(0, j + 1).last() == all[j]);
            }
            if selector.contains(self.clients[i].identity.client_id()) {
                let _ = self.clients.remove(i);
                proof {
                    assert(self.clients() =~= before.remove(i as int));
                    assert(self.clients().subrange(0, i as int) =~= before.subrange(0, i as int));
                    let left = self.clients().subrange(i as int, self.clients().len() as int);
                    let right = all.subrange(j + 1, all.len() as int);
                    assert(left =~= right) by {
                        assert forall|k: int| 0 <= k < left.len() implies #[trigger] left[k]
                            == right[k] by {
                            assert(left[k] == before[i + k + 1]);
                            assert(before.subrange(i as int, before.len() as int)[k + 1]
                                == before[i + k + 1]);
                        }
                    }
                    j = j + 1;
                }
            } else {
                proof {
                    assert(self.clients().subrange(0, i + 1) =~= self.clients().subrange(
                        0,
                        i as int,
                    ).push(before[i as int]));
                    let left = self.clients().subrange(i + 1, self.clients().len() as int);
                    let right = all.subrange(j + 1, all.len() as int);
                    assert(left =~= right) by {
                        assert forall|k: int| 0 <= k < left.len() implies #[trigger] left[k]
                            == right[k] by {
                            assert(before.subrange(i as int, before.len() as int)[k + 1]
                                == before[i + k + 1]);
                        }
                    }
                    j = j + 1;
                }
                i = i + 1;
            }
        }
        proof {
            assert(self.clients().subrange(0, self.clients().len() as int) =~= self.clients());
            assert(all.subrange(0, all.len() as int) =~= all);
        }
    }

    /// Whether the store holds a client that the selector holds.
    pub fn has_clients(&self, selector: ClientSelector<'_>) -> (r: bool)
        ensures
            r == exists|i: int|
                0 <= i < self.clients().len() && selector.selects(
                    (#[trigger] self.clients()[i]).id,
                ),
    {
        let n = self.clients.len();
        let mut i: usize = 0;
        while i < n
            invariant
                n == self.clients@.len(),
                i <= n,
                forall|k: int| 0 <= k < i ==> !selector.selects((#[trigger] self.clients()[k]).id),
            decreases n - i,
        {
            if selector.contains(self.clients[i].identity.client_id()) {
                assert(selector.selects(self.clients()[i as int].id));
                return true;
            }
            i = i + 1;
        }
        false
    }

    /// Authorizes a handshake for a socket that carries messages: the first
    /// client with the secret is authorized, if its secret was not used
    /// before, and the secret is used from then on.
    pub fn authorize_client(&mut self, secret: &str) -> (r: Option<ClientIdentity>)
        ensures
            r is Some <==> authorizes(old(self).clients(), secret.spec_bytes()),
            r is Some ==> r->0 == old(self).identities()[first_with_secret(
                old(self).clients(),
                secret.spec_bytes(),
            )],
            final(self).clients() == after_authorize(old(self).clients(), secret.spec_bytes()),
            final(self).identities() == old(self).identities(),
            final(self).screen() == old(self).screen(),
            final(self).screen_secrets() == old(self).screen_secrets(),
            final(self).stdin_used() == old(self).stdin_used(),
            final(self).stdout_used() == old(self).stdout_used(),
    {
        let n = self.clients.len();
        let mut i: usize = 0;
        while i < n
            invariant
                n == self.clients@.len(),
                i <= n,
                *self == *old(self),
                forall|k: int| 0 <= k < i ==> (#[trigger] self.clients()[k]).secret
                    != secret.spec_bytes(),
            decreases n - i,
        {
            if bytes_equal(self.clients[i].credentials.secret().as_bytes(), secret.as_bytes()) {
                proof {
                    lemma_first_with_secret_is(self.clients(), secret.spec_bytes(), i as int);
                }
                if self.clients[i].is_authorized {
                    return None;
                }
                let identity = self.clients[i].identity.clone();
                self.clients[i].is_authorized = true;
                proof {
                    assert(self.clients() =~= old(self).clients().update(
                        i as int,
                        used(old(self).clients()[i as int]),
                    ));
                    assert(self.identities() =~= old(self).identities());
                }
                return Some(identity);
            }
            i = i + 1;
        }
        proof {
            lemma_first_with_secret_is(self.clients(), secret.spec_bytes(), n as int);
        }
        None
    }

    /// Returns what is known of the client with the given ID, if it is
    /// registered.
    pub fn find_client(&self, id: ClientID<'_>) -> (r: Option<ClientIdentity>)
        ensures
            r is Some <==> exists|i: int|
                0 <= i < self.clients().len() && (#[trigger] self.clients()[i]).id == id.bytes(),
            r is Some ==> r->0.id_bytes() == id.bytes() && exists|i: int|
                0 <= i < self.identities().len() && #[trigger] self.identities()[i] == r->0,
    {
        let n = self.clients.len();
        let mut i: usize = 0;
        while i < n
            invariant
                n == self.clients@.len(),
                i <= n,
                forall|k: int| 0 <= k < i ==> (#[trigger] self.clients()[k]).id != id.bytes(),
            decreases n - i,
        {
            if self.clients[i].identity.client_id().same_as(&id) {
                assert(self.clients()[i as int].id == id.bytes());
                assert(self.identities()[i as int] == self.clients@[i as int].identity_view());
                return Some(self.clients[i].identity.clone());
            }
            i = i + 1;
        }
        None
    }

    /// Authorizes a handshake for the standard input of the screen: with the
    /// secret for it, and once.
    pub fn authorize_stdin(&mut self, secret: &str) -> (r: Option<ScreenIdentity>)
        ensures
            r is Some <==> !old(self).stdin_used() && encode_utf8(
                old(self).screen_secrets().stdin_text(),
            ) == secret.spec_bytes(),
            r is Some ==> r->0 == old(self).screen(),
            final(self).stdin_used() == (old(self).stdin_used() || r is Some),
            final(self).stdout_used() == old(self).stdout_used(),
            final(self).clients() == old(self).clients(),
            final(self).identities() == old(self).identities(),
            final(self).screen() == old(self).screen(),
            final(self).screen_secrets() == old(self).screen_secrets(),
    {
        if !self.stdin_authorized && bytes_equal(
            self.screen_credentials.stdin_secret().as_bytes(),
            secret.as_bytes(),
        ) {
            self.stdin_authorized = true;
            Some(self.screen_identity.clone())
        } else {
            None
        }
    }

    /// Authorizes a handshake for the standard output of the screen: with
    /// the secret for it, and once.
    pub fn authorize_stdout(&mut self, secret: &str) -> (r: Option<ScreenIdentity>)
        ensures
            r is Some <==> !old(self).stdout_used() && encode_utf8(
                old(self).screen_secrets().stdout_text(),
            ) == secret.spec_bytes(),
            r is Some ==> r->0 == old(self).screen(),
            final(self).stdout_used() == (old(self).stdout_used() || r is Some),
            final(self).stdin_used() == old(self).stdin_used(),
            final(self).clients() == old(self).clients(),
            final(self).identities() == old(self).identities(),
            final(self).screen() == old(self).screen(),
            final(self).screen_secrets() == old(self).screen_secrets(),
    {
        if !self.stdout_authorized && bytes_equal(
            self.screen_credentials.stdout_secret().as_bytes(),
            secret.as_bytes(),
        ) {
            self.stdout_authorized = true;
            Some(self.screen_identity.clone())
        } else {
            None
        }
    }
}

} // verus!
