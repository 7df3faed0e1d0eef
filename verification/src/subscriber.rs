//! Subscribers: identity resolution with idempotent account creation, the
//! friend graph with cached display names, and profiles.
//!
//! Every operation is keyed by the subscriber's resolved internal id; an
//! absent id is a precondition failure (`NoIdentity`), not a store error.

use crate::errors::ErrorKind;
use crate::errors::SubscriberError;
use crate::store::Store;
use vstd::prelude::*;
use vstd::string::*;

verus! {

/// Key of the identity-mapping entry for `(provider, externalSubject)`.
pub open spec fn token_key(proto: Seq<char>, social_id: Seq<char>) -> Seq<char> {
    proto + ":"@ + social_id
}

/// Key of a subscriber's friend hash.
pub open spec fn friends_key(id: Seq<char>) -> Seq<char> {
    id + ":friends"@
}

/// Key of a subscriber's profile hash.
pub open spec fn profile_key(id: Seq<char>) -> Seq<char> {
    id + ":profile"@
}

/// A subscriber account: the stable internal id, and the external identity
/// (provider and subject) it was resolved from.
#[derive(Clone, Debug)]
pub struct Subscriber {
    pub id: Option<String>,
    pub social_id: Option<String>,
    pub proto: Option<String>,
}

/// A friend edge: the friend's internal id and the cached display name.
#[derive(Clone, Debug)]
pub struct Friend {
    pub id: String,
    pub name: String,
}

/// A subscriber's single profile record.
#[derive(Clone, Debug)]
pub struct Profile {
    pub name: String,
}

/// The effect of an add on a friend hash: an existing edge wins, so a
/// repeated add never renames.
pub open spec fn spec_add_edge(
    edges: Map<Seq<char>, Seq<char>>,
    fid: Seq<char>,
    name: Seq<char>,
) -> Map<Seq<char>, Seq<char>> {
    if edges.contains_key(fid) {
        edges
    } else {
        edges.insert(fid, name)
    }
}

/// The display name an update caches: the friend's own profile name when it
/// is non-empty, else the supplied fallback, else the friend's id.
pub open spec fn spec_refresh_name(
    profile: Map<Seq<char>, Seq<char>>,
    fallback: Seq<char>,
    fid: Seq<char>,
) -> Seq<char> {
    if profile.contains_key("name"@) && profile["name"@].len() > 0 {
        profile["name"@]
    } else if fallback.len() > 0 {
        fallback
    } else {
        fid
    }
}

/// Adding a friend is not a rename: a second add for the same id, with any
/// name, leaves the hash exactly as the first add left it, and the cached
/// name is the one the first add stored.
pub proof fn lemma_add_friend_not_rename(
    edges: Map<Seq<char>, Seq<char>>,
    fid: Seq<char>,
    first_name: Seq<char>,
    second_name: Seq<char>,
)
    ensures
        spec_add_edge(spec_add_edge(edges, fid, first_name), fid, second_name) == spec_add_edge(
            edges,
            fid,
            first_name,
        ),
        !edges.contains_key(fid) ==> spec_add_edge(edges, fid, first_name)[fid] == first_name,
{
}

/// Deleting a friend edge is idempotent: deleting an absent edge changes
/// nothing, and deleting twice equals deleting once.
pub proof fn lemma_delete_friend_idempotent(edges: Map<Seq<char>, Seq<char>>, fid: Seq<char>)
    ensures
        edges.remove(fid).remove(fid) == edges.remove(fid),
        !edges.contains_key(fid) ==> edges.remove(fid) == edges,
{
    assert(edges.remove(fid).remove(fid) =~= edges.remove(fid));
    if !edges.contains_key(fid) {
        assert(edges.remove(fid) =~= edges);
    }
}

/// The outcome of one creation attempt on the identity mapping and the
/// membership set: an existing mapping wins; otherwise the fresh id is
/// stored and registered. The result is the mapping after the attempt, the
/// membership set after it, and the id the caller obtains.
pub open spec fn spec_create(
    tokens: Map<Seq<char>, Seq<char>>,
    members: Set<Seq<char>>,
    key: Seq<char>,
    fresh: Seq<char>,
) -> (Map<Seq<char>, Seq<char>>, Set<Seq<char>>, Seq<char>) {
    if tokens.contains_key(key) {
        (tokens, members, tokens[key])
    } else {
        (tokens.insert(key, fresh), members.insert(fresh), fresh)
    }
}

/// Idempotent creation: however many creation attempts run for the same
/// `(provider, subject)` key, and whatever fresh ids they draw, every
/// attempt after the first returns the id the first one stored and changes
/// neither the mapping nor the membership set; when the first attempt
/// creates the account, exactly the one mapping entry for that key is
/// added.
pub proof fn lemma_create_idempotent(
    tokens: Map<Seq<char>, Seq<char>>,
    members: Set<Seq<char>>,
    key: Seq<char>,
    f1: Seq<char>,
    f2: Seq<char>,
)
    ensures
        spec_create(
            spec_create(tokens, members, key, f1).0,
            spec_create(tokens, members, key, f1).1,
            key,
            f2,
        ) == spec_create(tokens, members, key, f1),
        !tokens.contains_key(key) ==> spec_create(tokens, members, key, f1).0.dom()
            =~= tokens.dom().insert(key),
{
}

/// Relies on `nanoid::format` with the URL-safe alphabet and the default
/// random source: the result is a random identifier of exactly `len`
/// characters.
#[verifier::external_body]
fn random_id(len: usize) -> (r: String)
    ensures
        r@.len() == len as int,
{
    nanoid::format(nanoid::rngs::default, &nanoid::alphabet::SAFE, len)
}

/// Builds the identity-mapping key `"<proto>:<social_id>"`.
fn token_key_exec(proto: &String, social_id: &String) -> (k: String)
    ensures
        k@ == token_key(proto@, social_id@),
{
    proto.clone().concat(":").concat(social_id.as_str())
}

/// Builds the friend-hash key `"<id>:friends"`.
fn friends_key_exec(id: &String) -> (k: String)
    ensures
        k@ == friends_key(id@),
{
    id.clone().concat(":friends")
}

/// Builds the profile-hash key `"<id>:profile"`.
fn profile_key_exec(id: &String) -> (k: String)
    ensures
        k@ == profile_key(id@),
{
    id.clone().concat(":profile")
}

impl Subscriber {
    /// The resolved internal id, viewed as characters.
    pub open spec fn own_id(&self) -> Seq<char>
        recommends
            self.id is Some,
    {
        self.id->Some_0@
    }

    /// The identity-mapping key of this subscriber's external identity.
    pub open spec fn resolve_key(&self) -> Seq<char>
        recommends
            self.social_id is Some && self.proto is Some,
    {
        token_key(self.proto->Some_0@, self.social_id->Some_0@)
    }

    /// Resolves `(proto, social_id)` through the identity mapping: returns
    /// the subscriber carrying the stored internal id, or `None` when the
    /// external subject has no mapping.
    pub fn get_instance_from_social_id(
        store: &Store,
        proto: &String,
        social_id: &String,
    ) -> (r: Option<Subscriber>)
        requires
            store.wf(),
        ensures
            r is Some <==> store.token_view().contains_key(token_key(proto@, social_id@)),
            r is Some ==> r->Some_0.id is Some && r->Some_0.own_id() == store.token_view()[
                token_key(proto@, social_id@)
            ],
            r is Some ==> r->Some_0.social_id is Some && r->Some_0.social_id->Some_0@
                == social_id@,
            r is Some ==> r->Some_0.proto is Some && r->Some_0.proto->Some_0@ == proto@,
    {
        let key = token_key_exec(proto, social_id);
        match store.token_map.get(&key) {
            Some(value) => Some(
                Subscriber {
                    id: Some(value),
                    social_id: Some(social_id.clone()),
                    proto: Some(proto.clone()),
                },
            ),
            None => None,
        }
    }

    /// Whether `id` is in the membership set of known subscribers.
    pub fn check_subscriber(&mut self, store: &Store, id: &String) -> (r: bool)
        ensures
            *final(self) == *old(self),
            r == store.member_set().contains(id@),
    {
        store.member_check(id)
    }

    /// Looks `id` up in this subscriber's friend list and returns the
    /// cached display name; fails with `FriendNotFound` when no edge
    /// exists, and with `NoIdentity` when this subscriber is unresolved.
    pub fn check_friend(&mut self, store: &Store, id: &String) -> (r: Result<
        String,
        SubscriberError,
    >)
        requires
            store.wf(),
        ensures
            *final(self) == *old(self),
            old(self).id is None ==> r is Err && r->Err_0.kind == ErrorKind::NoIdentity,
            old(self).id is Some ==> (r is Ok <==> store.hash_at(
                friends_key(old(self).own_id()),
            ).contains_key(id@)),
            old(self).id is Some && r is Ok ==> r->Ok_0@ == store.hash_at(
                friends_key(old(self).own_id()),
            )[id@],
            old(self).id is Some && r is Err ==> r->Err_0.kind == ErrorKind::FriendNotFound,
    {
        let own = match &self.id {
            Some(o) => o.clone(),
            None => {
                return Err(SubscriberError::new(ErrorKind::NoIdentity));
            },
        };
        let fk = friends_key_exec(&own);
        match store.hashes.hget(&fk, id) {
            Some(name) => Ok(name),
            None => Err(SubscriberError::new(ErrorKind::FriendNotFound)),
        }
    }

    /// Resolves this subscriber's internal id from its external identity;
    /// fails with `NoIdentity` when the external identity is incomplete and
    /// with `SubscriberNotFound` when no mapping exists.
    pub fn set_id(&mut self, store: &Store) -> (r: Result<(), SubscriberError>)
        requires
            store.wf(),
        ensures
            old(self).social_id is None || old(self).proto is None ==> r is Err
                && r->Err_0.kind == ErrorKind::NoIdentity && *final(self) == *old(self),
            old(self).social_id is Some && old(self).proto is Some ==> (r is Ok
                <==> store.token_view().contains_key(old(self).resolve_key())),
            old(self).social_id is Some && old(self).proto is Some && r is Ok
                ==> final(self).id is Some && final(self).own_id() == store.token_view()[
                    old(self).resolve_key()
                ],
            old(self).social_id is Some && old(self).proto is Some && r is Err
                ==> r->Err_0.kind == ErrorKind::SubscriberNotFound && *final(self) == *old(self),
            final(self).social_id == old(self).social_id,
            final(self).proto == old(self).proto,
    {
        let (social, proto) = match (&self.social_id, &self.proto) {
            (Some(s), Some(p)) => (s.clone(), p.clone()),
            _ => {
                return Err(SubscriberError::new(ErrorKind::NoIdentity));
            },
        };
        match Subscriber::get_instance_from_social_id(store, &proto, &social) {
            Some(found) => {
                self.id = found.id;
                Ok(())
            },
            None => Err(SubscriberError::new(ErrorKind::SubscriberNotFound)),
        }
    }

    /// Adds `friend` to this subscriber's friend list. The friend must be a
    /// known subscriber (`UnknownFriend` otherwise), and an existing edge is
    /// never overwritten: repeating the call with a different name leaves
    /// the cached name as it was.
    pub fn set_friend(&mut self, store: &mut Store, friend: Friend) -> (r: Result<
        (),
        SubscriberError,
    >)
        requires
            old(store).wf(),
        ensures
            *final(self) == *old(self),
            final(store).wf(),
            old(self).id is None ==> r is Err && r->Err_0.kind == ErrorKind::NoIdentity
                && *final(store) == *old(store),
            old(self).id is Some && !old(store).member_set().contains(friend.id@) ==> r is Err
                && r->Err_0.kind == ErrorKind::UnknownFriend && *final(store) == *old(store),
            old(self).id is Some && old(store).member_set().contains(friend.id@) ==> r is Ok
                && final(store).hash_at(friends_key(old(self).own_id())) == spec_add_edge(
                    old(store).hash_at(friends_key(old(self).own_id())),
                    friend.id@,
                    friend.name@,
                ) && (forall|k: Seq<char>|
                    k != friends_key(old(self).own_id()) ==> #[trigger] final(store).hash_at(k)
                        == old(store).hash_at(k)) && final(store).token_map
                    == old(store).token_map && final(store).members == old(store).members,
    {
        let own = match &self.id {
            Some(o) => o.clone(),
            None => {
                return Err(SubscriberError::new(ErrorKind::NoIdentity));
            },
        };
        let fk = friends_key_exec(&own);
        if store.member_check(&friend.id) {
            store.hashes.hset_nx(&fk, friend.id, friend.name);
            Ok(())
        } else {
            Err(SubscriberError::new(ErrorKind::UnknownFriend))
        }
    }

    /// Removes the edge to `id` from this subscriber's friend list; a
    /// missing edge is not an error, so deleting is idempotent.
    pub fn delete_friend(&mut self, store: &mut Store, id: String) -> (r: Result<
        (),
        SubscriberError,
    >)
        requires
            old(store).wf(),
        ensures
            *final(self) == *old(self),
            final(store).wf(),
            old(self).id is None ==> r is Err && r->Err_0.kind == ErrorKind::NoIdentity
                && *final(store) == *old(store),
            old(self).id is Some ==> r is Ok && final(store).hash_at(
                friends_key(old(self).own_id()),
            ) == old(store).hash_at(friends_key(old(self).own_id())).remove(id@) && (forall|
                k: Seq<char>,
            |
                k != friends_key(old(self).own_id()) ==> #[trigger] final(store).hash_at(k)
                    == old(store).hash_at(k)) && final(store).token_map == old(store).token_map
                && final(store).members == old(store).members,
    {
        let own = match &self.id {
            Some(o) => o.clone(),
            None => {
                return Err(SubscriberError::new(ErrorKind::NoIdentity));
            },
        };
        let fk = friends_key_exec(&own);
        store.hashes.hdel(&fk, &id);
        Ok(())
    }

    /// Refreshes the cached display name of the edge to `friend.id` from
    /// the friend's own profile: a non-empty profile name overwrites the
    /// cache; otherwise the supplied name, or the id itself when none is
    /// supplied, is cached. Fails with `FriendNotFound` unless the edge
    /// already exists.
    pub fn update_friend(&mut self, store: &mut Store, friend: Friend) -> (r: Result<
        (),
        SubscriberError,
    >)
        requires
            old(store).wf(),
        ensures
            *final(self) == *old(self),
            final(store).wf(),
            old(self).id is None ==> r is Err && r->Err_0.kind == ErrorKind::NoIdentity
                && *final(store) == *old(store),
            old(self).id is Some && !old(store).hash_at(
                friends_key(old(self).own_id()),
            ).contains_key(friend.id@) ==> r is Err && r->Err_0.kind == ErrorKind::FriendNotFound
                && *final(store) == *old(store),
            old(self).id is Some && old(store).hash_at(
                friends_key(old(self).own_id()),
            ).contains_key(friend.id@) ==> r is Ok && final(store).hash_at(
                friends_key(old(self).own_id()),
            ) == old(store).hash_at(friends_key(old(self).own_id())).insert(
                friend.id@,
                spec_refresh_name(
                    old(store).hash_at(profile_key(friend.id@)),
                    friend.name@,
                    friend.id@,
                ),
            ) && (forall|k: Seq<char>|
                k != friends_key(old(self).own_id()) ==> #[trigger] final(store).hash_at(k)
                    == old(store).hash_at(k)) && final(store).token_map == old(store).token_map
                && final(store).members == old(store).members,
    {
        let own = match &self.id {
            Some(o) => o.clone(),
            None => {
                return Err(SubscriberError::new(ErrorKind::NoIdentity));
            },
        };
        let fk = friends_key_exec(&own);
        match store.hashes.hget(&fk, &friend.id) {
            Some(_) => {},
            None => {
                return Err(SubscriberError::new(ErrorKind::FriendNotFound));
            },
        }
        let pk = profile_key_exec(&friend.id);
        let name_field = String::from_str("name");
        let new_name = match store.hashes.hget(&pk, &name_field) {
            Some(v) => {
                if v.as_str().unicode_len() > 0 {
                    v
                } else {
                    fallback_name(&friend)
                }
            },
            None => fallback_name(&friend),
        };
        store.hashes.hset(&fk, friend.id, new_name);
        Ok(())
    }

    /// All friend edges of this subscriber, each with its cached display
    /// name; an empty list is a valid result, and the order is unspecified.
    pub fn get_friends(&mut self, store: &Store) -> (r: Result<Vec<Friend>, SubscriberError>)
        requires
            store.wf(),
        ensures
            *final(self) == *old(self),
            old(self).id is None ==> r is Err && r->Err_0.kind == ErrorKind::NoIdentity,
            old(self).id is Some ==> r is Ok,
            old(self).id is Some ==> forall|i: int|
                0 <= i < r->Ok_0@.len() ==> store.hash_at(
                    friends_key(old(self).own_id()),
                ).contains_key((#[trigger] r->Ok_0@[i]).id@) && store.hash_at(
                    friends_key(old(self).own_id()),
                )[r->Ok_0@[i].id@] == r->Ok_0@[i].name@,
            old(self).id is Some ==> forall|i: int, j: int|
                0 <= i < r->Ok_0@.len() && 0 <= j < r->Ok_0@.len() && i != j
                    ==> (#[trigger] r->Ok_0@[i]).id@ != (#[trigger] r->Ok_0@[j]).id@,
            old(self).id is Some ==> forall|k: Seq<char>|
                store.hash_at(friends_key(old(self).own_id())).contains_key(k)
                    ==> exists|i: int|
                    0 <= i < r->Ok_0@.len() && (#[trigger] r->Ok_0@[i]).id@ == k,
    {
        let own = match &self.id {
            Some(o) => o.clone(),
            None => {
                return Err(SubscriberError::new(ErrorKind::NoIdentity));
            },
        };
        let fk = friends_key_exec(&own);
        let pairs = store.hashes.hgetall(&fk);
        let mut friends: Vec<Friend> = Vec::new();
        let mut i: usize = 0;
        while i < pairs.len()
            invariant
                i <= pairs@.len(),
                friends@.len() == i,
                forall|j: int|
                    0 <= j < i ==> (#[trigger] friends@[j]).id == pairs@[j].0
                        && friends@[j].name == pairs@[j].1,
            decreases pairs@.len() - i,
        {
            friends.push(Friend { id: pairs[i].0.clone(), name: pairs[i].1.clone() });
            i = i + 1;
        }
        let r: Result<Vec<Friend>, SubscriberError> = Ok(friends);
        proof {
            assert forall|k: Seq<char>|
                store.hash_at(friends_key(old(self).own_id())).contains_key(k) implies exists|
                a: int,
            |
                0 <= a < r->Ok_0@.len() && (#[trigger] r->Ok_0@[a]).id@ == k by {
                let a = choose|a: int| 0 <= a < pairs@.len() && #[trigger] pairs@[a].0@ == k;
                assert((r->Ok_0@[a]).id@ == k);
            }
        }
        r
    }

    /// Overwrites this subscriber's single profile record.
    pub fn set_profile(&mut self, store: &mut Store, profile: Profile) -> (r: Result<
        (),
        SubscriberError,
    >)
        requires
            old(store).wf(),
        ensures
            *final(self) == *old(self),
            final(store).wf(),
            old(self).id is None ==> r is Err && r->Err_0.kind == ErrorKind::NoIdentity
                && *final(store) == *old(store),
            old(self).id is Some ==> r is Ok && final(store).hash_at(
                profile_key(old(self).own_id()),
            ) == old(store).hash_at(profile_key(old(self).own_id())).insert(
                "name"@,
                profile.name@,
            ) && (forall|k: Seq<char>|
                k != profile_key(old(self).own_id()) ==> #[trigger] final(store).hash_at(k)
                    == old(store).hash_at(k)) && final(store).token_map == old(store).token_map
                && final(store).members == old(store).members,
    {
        let own = match &self.id {
            Some(o) => o.clone(),
            None => {
                return Err(SubscriberError::new(ErrorKind::NoIdentity));
            },
        };
        let pk = profile_key_exec(&own);
        store.hashes.hset(&pk, String::from_str("name"), profile.name);
        Ok(())
    }

    /// Reads this subscriber's profile; a missing record is
    /// `ProfileNotFound`, never a zero-value profile.
    pub fn get_profile(&mut self, store: &Store) -> (r: Result<Profile, SubscriberError>)
        requires
            store.wf(),
        ensures
            *final(self) == *old(self),
            old(self).id is None ==> r is Err && r->Err_0.kind == ErrorKind::NoIdentity,
            old(self).id is Some ==> (r is Ok <==> store.hash_at(
                profile_key(old(self).own_id()),
            ).contains_key("name"@)),
            old(self).id is Some && r is Ok ==> r->Ok_0.name@ == store.hash_at(
                profile_key(old(self).own_id()),
            )["name"@],
            old(self).id is Some && r is Err ==> r->Err_0.kind == ErrorKind::ProfileNotFound,
    {
        let own = match &self.id {
            Some(o) => o.clone(),
            None => {
                return Err(SubscriberError::new(ErrorKind::NoIdentity));
            },
        };
        let pk = profile_key_exec(&own);
        let name_field = String::from_str("name");
        match store.hashes.hget(&pk, &name_field) {
            Some(name) => Ok(Profile { name }),
            None => Err(SubscriberError::new(ErrorKind::ProfileNotFound)),
        }
    }

    /// Reads the profile of an arbitrary subscriber `id`. The viewer must
    /// be resolved, but no friend relationship is required: visibility is
    /// gated on account existence only.
    pub fn get_other_profile(&mut self, store: &Store, id: &String) -> (r: Result<
        Profile,
        SubscriberError,
    >)
        requires
            store.wf(),
        ensures
            *final(self) == *old(self),
            old(self).id is None ==> r is Err && r->Err_0.kind == ErrorKind::NoIdentity,
            old(self).id is Some ==> (r is Ok <==> store.hash_at(
                profile_key(id@),
            ).contains_key("name"@)),
            old(self).id is Some && r is Ok ==> r->Ok_0.name@ == store.hash_at(
                profile_key(id@),
            )["name"@],
            old(self).id is Some && r is Err ==> r->Err_0.kind == ErrorKind::ProfileNotFound,
    {
        if self.id.is_none() {
            return Err(SubscriberError::new(ErrorKind::NoIdentity));
        }
        let pk = profile_key_exec(id);
        let name_field = String::from_str("name");
        match store.hashes.hget(&pk, &name_field) {
            Some(name) => Ok(Profile { name }),
            None => Err(SubscriberError::new(ErrorKind::ProfileNotFound)),
        }
    }

    /// One creation attempt with a caller-supplied fresh id: an existing
    /// mapping for the external identity wins and is returned; otherwise
    /// the fresh id is stored in the mapping and registered in the
    /// membership set, each by an idempotent set-if-absent primitive, so
    /// concurrent duplicate attempts converge to the stored mapping.
    ///
    /// In this in-memory store the two writes cannot be torn apart: the
    /// contract guarantees the mapping and the membership set change
    /// together. A store whose operations can fail independently would
    /// need a transaction around this pair, or the two structures can
    /// disagree.
    pub fn create_with_id(&mut self, store: &mut Store, fresh_id: String) -> (r: Result<
        (),
        SubscriberError,
    >)
        requires
            old(store).wf(),
        ensures
            final(store).wf(),
            final(self).social_id == old(self).social_id,
            final(self).proto == old(self).proto,
            old(self).social_id is None || old(self).proto is None ==> r is Err
                && r->Err_0.kind == ErrorKind::NoIdentity && *final(self) == *old(self)
                && *final(store) == *old(store),
            old(self).social_id is Some && old(self).proto is Some ==> r is Ok
                && final(self).id is Some && final(store).token_view() == spec_create(
                old(store).token_view(),
                old(store).member_set(),
                old(self).resolve_key(),
                fresh_id@,
            ).0 && final(store).member_set() == spec_create(
                old(store).token_view(),
                old(store).member_set(),
                old(self).resolve_key(),
                fresh_id@,
            ).1 && final(self).own_id() == spec_create(
                old(store).token_view(),
                old(store).member_set(),
                old(self).resolve_key(),
                fresh_id@,
            ).2 && final(store).hashes == old(store).hashes,
            old(self).social_id is Some && old(self).proto is Some
                && old(store).token_view().contains_key(old(self).resolve_key())
                ==> *final(store) == *old(store),
    {
        let (social, proto) = match (&self.social_id, &self.proto) {
            (Some(s), Some(p)) => (s.clone(), p.clone()),
            _ => {
                return Err(SubscriberError::new(ErrorKind::NoIdentity));
            },
        };
        let key = token_key_exec(&proto, &social);
        match store.token_map.get(&key) {
            Some(existing) => {
                self.id = Some(existing);
                Ok(())
            },
            None => {
                store.token_map.set_nx(key, fresh_id.clone());
                store.member_add(&fresh_id);
                self.id = Some(fresh_id);
                Ok(())
            },
        }
    }

    /// Creates this subscriber's account idempotently: an existing mapping
    /// for the external identity is returned unchanged; otherwise a fresh
    /// random 12-character id is generated, mapped and registered.
    pub fn create(&mut self, store: &mut Store) -> (r: Result<(), SubscriberError>)
        requires
            old(store).wf(),
        ensures
            final(store).wf(),
            final(self).social_id == old(self).social_id,
            final(self).proto == old(self).proto,
            old(self).social_id is None || old(self).proto is None ==> r is Err
                && r->Err_0.kind == ErrorKind::NoIdentity && *final(self) == *old(self)
                && *final(store) == *old(store),
            old(self).social_id is Some && old(self).proto is Some ==> r is Ok
                && final(self).id is Some && final(store).hashes == old(store).hashes,
            old(self).social_id is Some && old(self).proto is Some
                && old(store).token_view().contains_key(old(self).resolve_key())
                ==> final(self).own_id() == old(store).token_view()[old(self).resolve_key()]
                && *final(store) == *old(store),
            old(self).social_id is Some && old(self).proto is Some
                && !old(store).token_view().contains_key(old(self).resolve_key())
                ==> final(self).own_id().len() == 12 && final(store).token_view()
                == old(store).token_view().insert(old(self).resolve_key(), final(self).own_id())
                && final(store).member_set() == old(store).member_set().insert(
                final(self).own_id(),
            ),
    {
        let fresh = random_id(12);
        self.create_with_id(store, fresh)
    }
}

/// The name an update falls back to when the friend's profile has no
/// usable name: the supplied name when non-empty, else the friend's id.
fn fallback_name(friend: &Friend) -> (n: String)
    ensures
        n@ == if friend.name@.len() > 0 {
            friend.name@
        } else {
            friend.id@
        },
{
    if friend.name.as_str().unicode_len() > 0 {
        friend.name.clone()
    } else {
        friend.id.clone()
    }
}

} // verus!
