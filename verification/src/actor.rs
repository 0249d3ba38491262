use vstd::prelude::*;

verus! {

/// The identity of one record in the store.
///
/// An actor is a bare number: it never encodes where its components live.
#[derive(Clone, Copy, Debug, PartialEq, Eq, Hash, Structural)]
pub struct Actor(pub(crate) usize);

impl Actor {
    /// The number that identifies this actor.
    pub closed spec fn id(self) -> nat {
        self.0 as nat
    }

    /// The actor that `id` identifies.
    pub closed spec fn with_id(id: nat) -> Actor {
        Actor(id as usize)
    }

    /// An actor is the one that its number identifies, so two actors with
    /// the same number are one.
    pub proof fn lemma_identity(self)
        ensures
            self.id() <= usize::MAX,
            Actor::with_id(self.id()) == self,
    {
    }

    /// The actor that a number identifies has that number.
    pub proof fn lemma_with_id(id: nat)
        requires
            id <= usize::MAX,
        ensures
            Actor::with_id(id).id() == id,
    {
    }

    /// The number that identifies this actor.
    pub fn index(&self) -> (n: usize)
        ensures
            n == self.id(),
    {
        self.0
    }
}

/// Hands out actor identities, each one larger than every one before it.
pub struct ActorFactory {
    created: usize,
}

impl ActorFactory {
    /// How many identities have been issued so far.
    pub closed spec fn count(&self) -> nat {
        self.created as nat
    }

    /// Whether `actor` is one of the identities issued so far.
    pub open spec fn issued(&self, actor: Actor) -> bool {
        1 <= actor.id() <= self.count()
    }

    /// A factory that has issued nothing yet.
    pub fn new() -> (factory: ActorFactory)
        ensures
            factory.count() == 0,
    {
        ActorFactory { created: 0 }
    }

    /// How many identities have been issued so far.
    pub fn created(&self) -> (n: usize)
        ensures
            n == self.count(),
    {
        self.created
    }

    /// The identity that will be issued next.
    pub open spec fn upcoming(&self) -> Actor {
        Actor::with_id(self.count() + 1)
    }

    /// The identity that will be issued next.
    #[must_use]
    pub fn next(&self) -> (actor: Actor)
        requires
            self.count() < usize::MAX,
        ensures
            actor == self.upcoming(),
            actor.id() == self.count() + 1,
    {
        Actor(self.created + 1)
    }

    /// Issues the next identity: one more than the last, and so one that
    /// was never issued before.
    #[must_use]
    pub fn create(&mut self) -> (actor: Actor)
        requires
            old(self).count() < usize::MAX,
        ensures
            final(self).count() == old(self).count() + 1,
            actor == old(self).upcoming(),
            actor.id() == final(self).count(),
            !old(self).issued(actor),
            final(self).issued(actor),
            forall|other: Actor| old(self).issued(other) ==> final(self).issued(other),
    {
        self.created += 1;
        Actor(self.created)
    }
}

impl Default for ActorFactory {
    fn default() -> (factory: ActorFactory)
        ensures
            factory.count() == 0,
    {
        ActorFactory::new()
    }
}

} // verus!
