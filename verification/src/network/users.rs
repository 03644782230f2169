//! A simpler user thread that also learns its own user id
//! from the server's `[2]` message, registers every user of a player list
//! once with a zero transform, and acknowledges lists and ids with `[2]`.

use vstd::prelude::*;
use std::collections::HashSet;

use crate::network::avatar_updates::AvatarUpdate;
use crate::network::user_authenticate::FREE_ID;
use crate::network::user_handler::{be_word_at, read_be_word, record_count, record_id, READY, PLAYER_LIST};
use crate::transform::{Transform, Vec3Bits};

verus! {

broadcast use vstd::std_specs::hash::group_hash_axioms;

/// The transform whose components are all `0.0`.
pub open spec fn zero_transform() -> Transform {
    Transform { position: Vec3Bits::spec_zero(), rotation: Vec3Bits::spec_zero(), scale: Vec3Bits::spec_zero() }
}

/// The known users and the registrations after the first `n` records of a
/// player list: each unknown user is registered once.
pub open spec fn spec_register(loaded: Set<u32>, data: Seq<u8>, n: nat) -> (Set<u32>, Seq<AvatarUpdate>)
    decreases n,
{
    if n == 0 {
        (loaded, seq![])
    } else {
        let (s, us) = spec_register(loaded, data, (n - 1) as nat);
        let id = record_id(data, n - 1);
        if s.contains(id) {
            (s, us)
        } else {
            (s.insert(id), us.push(AvatarUpdate::RegisterUser(zero_transform(), id)))
        }
    }
}

/// What a message from the server calls for.
#[derive(Debug)]
pub enum UsersOutcome {
    /// The server gave the client its user id; reply with `reply`.
    FreeId { user_id: u32, reply: Vec<u8> },
    /// A player list: the registrations for the game, and the reply.
    Players { updates: Vec<AvatarUpdate>, reply: Vec<u8> },
    /// An empty message, or one that asks for nothing.
    Idle,
    /// A message with an unknown code.
    Unknown(u8),
}

/// The state of the thread: its own user id and the users it has registered.
pub struct Users {
    user_id: u32,
    users_loaded: HashSet<u32>,
}

impl View for Users {
    type V = Set<u32>;

    closed spec fn view(&self) -> Set<u32> {
        self.users_loaded@
    }
}

/// The acknowledgement message.
fn ready_message() -> (r: Vec<u8>)
    ensures
        r@ == seq![READY],
{
    let mut m: Vec<u8> = Vec::new();
    m.push(READY);
    proof {
        assert(m@ =~= seq![READY]);
    }
    m
}

impl Users {
    /// The thread's own user id (`0` until the server gives one).
    pub closed spec fn own_id(self) -> u32 {
        self.user_id
    }

    /// The thread's own user id (`0` until the server gives one).
    pub fn user_id(&self) -> (r: u32)
        ensures
            r == self.own_id(),
    {
        self.user_id
    }

    /// A thread with user id `0` that has registered nobody.
    pub fn new() -> (r: Users)
        ensures
            r.own_id() == 0,
            r@ == Set::<u32>::empty(),
    {
        Users { user_id: 0, users_loaded: HashSet::new() }
    }

    /// Handles a message from the server. A message with the code `FREE_ID`
    /// must carry the four bytes of the user id.
    pub fn handle_message(&mut self, data: &[u8]) -> (r: UsersOutcome)
        requires
            data@.len() > 0 && data@[0] == FREE_ID ==> data@.len() >= 5,
        ensures
            data@.len() == 0 || data@[0] == 0 ==> r is Idle && final(self)@ == old(self)@
                && final(self).own_id() == old(self).own_id(),
            data@.len() > 0 && data@[0] == FREE_ID ==> {
                &&& final(self).own_id() == be_word_at(data@, 1)
                &&& final(self)@ == old(self)@
                &&& r matches UsersOutcome::FreeId { user_id, reply } && user_id == be_word_at(data@, 1)
                    && reply@ == seq![READY]
            },
            data@.len() > 0 && data@[0] == PLAYER_LIST ==> {
                let (s, us) = spec_register(old(self)@, data@, record_count(data@));
                &&& final(self)@ == s
                &&& final(self).own_id() == old(self).own_id()
                &&& r matches UsersOutcome::Players { updates, reply } && updates@ == us && reply@
                    == seq![READY]
            },
            data@.len() > 0 && data@[0] == PLAYER_LIST ==> forall|k: int|
                0 <= k < record_count(data@) ==> final(self)@.contains(#[trigger] be_word_at(data@, 1 + 28 * k)),
            data@.len() > 0 && data@[0] != 0 && data@[0] != FREE_ID && data@[0] != PLAYER_LIST ==> r
                == UsersOutcome::Unknown(data@[0]) && final(self)@ == old(self)@ && final(self).own_id()
                == old(self).own_id(),
    {
        if data.len() == 0 || data[0] == 0 {
            return UsersOutcome::Idle;
        }
        if data[0] == FREE_ID {
            let user_id = read_be_word(data, 1);
            self.user_id = user_id;
            return UsersOutcome::FreeId { user_id, reply: ready_message() };
        }
        if data[0] != PLAYER_LIST {
            return UsersOutcome::Unknown(data[0]);
        }
        let count = (data.len() - 1) / 28;
        let ghost start = self@;
        proof {
            lemma_register_all(start, data@, record_count(data@));
            assert forall|k: int| 0 <= k < record_count(data@) implies spec_register(start, data@, record_count(data@)).0.contains(
                #[trigger] be_word_at(data@, 1 + 28 * k),
            ) by {
                assert(record_id(data@, k) == be_word_at(data@, 1 + 28 * k));
            }
        }
        let mut updates: Vec<AvatarUpdate> = Vec::new();
        let mut i: usize = 0;
        while i < count
            invariant
                data@.len() >= 1,
                count == record_count(data@),
                i <= count,
                (self@, updates@) == spec_register(start, data@, i as nat),
                self.own_id() == old(self).own_id(),
            decreases count - i,
        {
            proof {
                let len = data.len() as int;
                assert(28 * (i + 1) <= 28 * count) by (nonlinear_arith)
                    requires
                        i + 1 <= count,
                ;
                assert(28 * count <= len - 1) by (nonlinear_arith)
                    requires
                        count == (len - 1) / 28,
                        len >= 1,
                ;
            }
            let id = read_be_word(data, 1 + 28 * i);
            if !self.users_loaded.contains(&id) {
                self.users_loaded.insert(id);
                updates.push(AvatarUpdate::RegisterUser(Transform::zero(), id));
            }
            i = i + 1;
        }
        UsersOutcome::Players { updates, reply: ready_message() }
    }
}

/// After the first `n` records of a player list, every user of those
/// records is registered, and nobody else is newly registered; each user
/// unknown before the list gets exactly one registration with the zero
/// transform, and users known before get none.
pub proof fn lemma_register_all(loaded: Set<u32>, data: Seq<u8>, n: nat)
    ensures
        ({
            let (s, us) = spec_register(loaded, data, n);
            &&& forall|k: int| 0 <= k < n ==> s.contains(#[trigger] record_id(data, k))
            &&& forall|id: u32| #[trigger] loaded.contains(id) ==> s.contains(id)
            &&& forall|id: u32| #[trigger] s.contains(id) ==> loaded.contains(id) || exists|k: int|
                0 <= k < n && #[trigger] record_id(data, k) == id
            &&& forall|j: int|
                0 <= j < us.len() ==> exists|id: u32| #[trigger] us[j] == AvatarUpdate::RegisterUser(zero_transform(), id)
                    && !loaded.contains(id) && s.contains(id)
            &&& forall|k: int|
                0 <= k < n && !loaded.contains(#[trigger] record_id(data, k)) ==> us.contains(
                    AvatarUpdate::RegisterUser(zero_transform(), record_id(data, k)),
                )
            &&& forall|j1: int, j2: int|
                0 <= j1 < j2 < us.len() ==> #[trigger] us[j1] != #[trigger] us[j2]
        }),
    decreases n,
{
    if n > 0 {
        lemma_register_all(loaded, data, (n - 1) as nat);
        let (s0, us0) = spec_register(loaded, data, (n - 1) as nat);
        let (s, us) = spec_register(loaded, data, n);
        let id = record_id(data, n - 1);
        let r = AvatarUpdate::RegisterUser(zero_transform(), id);
        if s0.contains(id) {
            assert(s == s0 && us == us0);
        } else {
            assert(s == s0.insert(id) && us == us0.push(r));
        }
        assert forall|k: int| 0 <= k < n implies s.contains(#[trigger] record_id(data, k)) by {
            if k < n - 1 {
                assert(s0.contains(record_id(data, k)));
            }
        }
        assert forall|i: u32| #[trigger] s.contains(i) implies loaded.contains(i) || exists|k: int|
            0 <= k < n && #[trigger] record_id(data, k) == i by {
            if i == id {
                assert(record_id(data, n - 1) == i);
            } else {
                assert(s0.contains(i));
                if !loaded.contains(i) {
                    let k = choose|k: int| 0 <= k < n - 1 && #[trigger] record_id(data, k) == i;
                    assert(record_id(data, k) == i);
                }
            }
        }
        assert forall|j: int| 0 <= j < us.len() implies exists|i: u32| #[trigger] us[j] == AvatarUpdate::RegisterUser(
            zero_transform(),
            i,
        ) && !loaded.contains(i) && s.contains(i) by {
            if j < us0.len() {
                assert(us[j] == us0[j]);
                let i = choose|i: u32| #[trigger] us0[j] == AvatarUpdate::RegisterUser(zero_transform(), i)
                    && !loaded.contains(i) && s0.contains(i);
                assert(us[j] == AvatarUpdate::RegisterUser(zero_transform(), i));
            } else {
                assert(us[j] == r);
                assert(!loaded.contains(id)) by {
                    if loaded.contains(id) {
                        assert(s0.contains(id));
                    }
                }
            }
        }
        assert forall|k: int|
            0 <= k < n && !loaded.contains(#[trigger] record_id(data, k)) implies us.contains(
                AvatarUpdate::RegisterUser(zero_transform(), record_id(data, k)),
            ) by {
            if k < n - 1 {
                let j = choose|j: int| 0 <= j < us0.len() && us0[j] == AvatarUpdate::RegisterUser(zero_transform(), record_id(data, k));
                assert(us[j] == us0[j]);
            } else if !s0.contains(id) {
                assert(us[us.len() - 1] == r);
            } else {
                let j = choose|j: int| 0 <= j < us0.len() && us0[j] == r;
                assert(us[j] == us0[j]);
            }
        }
        assert forall|j1: int, j2: int| 0 <= j1 < j2 < us.len() implies #[trigger] us[j1] != #[trigger] us[j2] by {
            assert(us[j1] == us0[j1]);
            if j2 < us0.len() {
                assert(us[j2] == us0[j2]);
            } else {
                let i = choose|i: u32| #[trigger] us0[j1] == AvatarUpdate::RegisterUser(zero_transform(), i)
                    && !loaded.contains(i) && s0.contains(i);
            }
        }
    }
}

} // verus!
