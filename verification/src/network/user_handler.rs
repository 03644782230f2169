//! The decisions of the user-position thread.
//!
//! The thread forwards the local player's position to the server and turns
//! the server's player lists into avatar updates for the game. It remembers,
//! for every user id it has seen, the world object that shows the user's
//! avatar (`0` while the game has not created one yet).
//!
//! Messages to the server: `[2]` (ready / acknowledged) and `[8]` followed by
//! six big-endian floats (position x, y, z, rotation x, y, z).
//! Messages from the server: `[3]` followed by 28-byte player records (a
//! big-endian user id, then six big-endian floats as above), and `[0]`.

use vstd::prelude::*;
use std::collections::HashMap;

use crate::network::avatar_updates::AvatarUpdate;
use crate::network::user_updates::UserUpdate;
use crate::transform::{Transform, Vec3Bits, ONE_BITS};
use crate::wire::{be_bytes, be_word, push_be, u32_from_be};

verus! {

broadcast use vstd::std_specs::hash::group_hash_axioms;

/// Code of a message that acknowledges a player list or says the world is loaded.
pub const READY: u8 = 2u8;

/// Code of a message that carries the local player's position.
pub const POSITION: u8 = 8u8;

/// Code of a message from the server that carries a player list.
pub const PLAYER_LIST: u8 = 3u8;

/// The size of one player record in a player list.
pub const RECORD_SIZE: usize = 28usize;

/// The message that sends a transform's position and rotation to the server.
pub open spec fn spec_position_message(t: Transform) -> Seq<u8> {
    seq![POSITION] + be_bytes(t.position.x) + be_bytes(t.position.y) + be_bytes(t.position.z)
        + be_bytes(t.rotation.x) + be_bytes(t.rotation.y) + be_bytes(t.rotation.z)
}

/// The big-endian word at `pos`.
pub open spec fn be_word_at(data: Seq<u8>, pos: int) -> u32 {
    be_word(data[pos], data[pos + 1], data[pos + 2], data[pos + 3]) as u32
}

/// The number of whole player records in a player list.
pub open spec fn record_count(data: Seq<u8>) -> nat {
    ((data.len() - 1) / 28) as nat
}

/// The user id of the `i`-th record of a player list.
pub open spec fn record_id(data: Seq<u8>, i: int) -> u32 {
    be_word_at(data, 1 + 28 * i)
}

/// The transform of the `i`-th record of a player list; its scale is `1.0`.
pub open spec fn record_transform(data: Seq<u8>, i: int) -> Transform {
    let b = 1 + 28 * i;
    Transform {
        position: Vec3Bits { x: be_word_at(data, b + 4), y: be_word_at(data, b + 8), z: be_word_at(data, b + 12) },
        rotation: Vec3Bits { x: be_word_at(data, b + 16), y: be_word_at(data, b + 20), z: be_word_at(data, b + 24) },
        scale: Vec3Bits { x: ONE_BITS, y: ONE_BITS, z: ONE_BITS },
    }
}

/// The known users and the avatar updates after the first `n` records of a
/// player list: an unknown user is registered and remembered with object `0`;
/// a known user whose avatar exists (object not `0`) is moved; a known user
/// without an avatar yet is skipped.
pub open spec fn spec_players(loaded: Map<u32, usize>, data: Seq<u8>, n: nat) -> (Map<u32, usize>, Seq<AvatarUpdate>)
    decreases n,
{
    if n == 0 {
        (loaded, seq![])
    } else {
        let (m, us) = spec_players(loaded, data, (n - 1) as nat);
        let id = record_id(data, n - 1);
        let t = record_transform(data, n - 1);
        if !m.contains_key(id) {
            (m.insert(id, 0), us.push(AvatarUpdate::RegisterUser(t, id)))
        } else if m[id] == 0 {
            (m, us)
        } else {
            (m, us.push(AvatarUpdate::SetUserPosition(t, m[id])))
        }
    }
}

/// What a message from the server calls for.
#[derive(Debug)]
pub enum ServerOutcome {
    /// A player list: the avatar updates for the game, and the reply to send.
    Players { updates: Vec<AvatarUpdate>, reply: Vec<u8> },
    /// An empty message, or one that asks for nothing.
    Idle,
    /// A message with an unknown code.
    Unknown(u8),
}

/// The state of the user-position thread.
pub struct UserHandler {
    users_loaded: HashMap<u32, usize>,
}

impl View for UserHandler {
    type V = Map<u32, usize>;

    closed spec fn view(&self) -> Map<u32, usize> {
        self.users_loaded@
    }
}

/// Whether a job is a position update, after which the queue is drained.
pub open spec fn is_position(job: UserUpdate) -> bool {
    job is SendUserPosition
}

/// The job that is done when `job` was received and `newer` were queued behind
/// it: after a position update the newest queued job replaces it, whatever its kind.
pub open spec fn spec_coalesce(job: UserUpdate, newer: Seq<UserUpdate>) -> UserUpdate {
    if is_position(job) && newer.len() > 0 {
        newer.last()
    } else {
        job
    }
}

/// Whether the queue is drained after receiving `job`.
pub fn drains_queue(job: &UserUpdate) -> (r: bool)
    ensures
        r == is_position(*job),
{
    match job {
        UserUpdate::SendUserPosition(_) => true,
        _ => false,
    }
}

/// The job that is done when `job` was received and `newer` were taken from
/// the queue behind it.
pub fn coalesce_jobs(job: UserUpdate, newer: Vec<UserUpdate>) -> (r: UserUpdate)
    ensures
        r == spec_coalesce(job, newer@),
{
    if drains_queue(&job) && newer.len() > 0 {
        newer[newer.len() - 1]
    } else {
        job
    }
}

/// The message that sends a transform's position and rotation to the server.
pub fn position_message(t: &Transform) -> (r: Vec<u8>)
    ensures
        r@ == spec_position_message(*t),
{
    let mut out: Vec<u8> = Vec::new();
    out.push(POSITION);
    push_be(&mut out, t.position.x);
    push_be(&mut out, t.position.y);
    push_be(&mut out, t.position.z);
    push_be(&mut out, t.rotation.x);
    push_be(&mut out, t.rotation.y);
    push_be(&mut out, t.rotation.z);
    proof {
        assert(out@ =~= spec_position_message(*t));
    }
    out
}

/// Reads the big-endian word at `pos`.
pub fn read_be_word(data: &[u8], pos: usize) -> (r: u32)
    requires
        pos + 4 <= data@.len(),
    ensures
        r == be_word_at(data@, pos as int),
{
    u32_from_be(data[pos], data[pos + 1], data[pos + 2], data[pos + 3])
}

/// Reads the `i`-th record of a player list.
pub fn read_record(data: &[u8], i: usize) -> (r: (u32, Transform))
    requires
        1 + 28 * i + 28 <= data.len(),
    ensures
        r.0 == record_id(data@, i as int),
        r.1 == record_transform(data@, i as int),
        r.0 == be_word_at(data@, 1 + 28 * i),
        r.1.position == (Vec3Bits {
            x: be_word_at(data@, 1 + 28 * i + 4),
            y: be_word_at(data@, 1 + 28 * i + 8),
            z: be_word_at(data@, 1 + 28 * i + 12),
        }),
        r.1.rotation == (Vec3Bits {
            x: be_word_at(data@, 1 + 28 * i + 16),
            y: be_word_at(data@, 1 + 28 * i + 20),
            z: be_word_at(data@, 1 + 28 * i + 24),
        }),
        r.1.scale == (Vec3Bits { x: ONE_BITS, y: ONE_BITS, z: ONE_BITS }),
{
    let b = 1 + 28 * i;
    let id = read_be_word(data, b);
    let position = Vec3Bits { x: read_be_word(data, b + 4), y: read_be_word(data, b + 8), z: read_be_word(data, b + 12) };
    let rotation = Vec3Bits { x: read_be_word(data, b + 16), y: read_be_word(data, b + 20), z: read_be_word(data, b + 24) };
    (id, Transform { position, rotation, scale: Vec3Bits::one() })
}

impl UserHandler {
    /// A thread that knows no user yet.
    pub fn new() -> (r: UserHandler)
        ensures
            r@ == Map::<u32, usize>::empty(),
    {
        UserHandler { users_loaded: HashMap::new() }
    }

    /// The world object of a known user (`0` while its avatar is not created).
    pub fn object_of(&self, user_id: u32) -> (r: Option<usize>)
        ensures
            match r {
                Some(o) => self@.contains_key(user_id) && self@[user_id] == o,
                None => !self@.contains_key(user_id),
            },
    {
        match self.users_loaded.get(&user_id) {
            Some(o) => Some(*o),
            None => None,
        }
    }

    /// Does a job from the game: returns the message to send to the server, if any.
    pub fn handle_job(&mut self, job: UserUpdate) -> (msg: Option<Vec<u8>>)
        ensures
            match job {
                UserUpdate::SendUserPosition(t) => final(self)@ == old(self)@ && msg is Some
                    && msg.unwrap()@ == spec_position_message(t),
                UserUpdate::SendReadySignal => final(self)@ == old(self)@ && msg is Some
                    && msg.unwrap()@ == seq![READY],
                UserUpdate::UpdateAvatarId(user, object) => final(self)@ == old(self)@.insert(user, object)
                    && msg is None,
            },
            final(self)@ == spec_job(old(self)@, job).0,
            spec_job(old(self)@, job).1 == (match msg {
                Some(v) => Some(v@),
                None => None::<Seq<u8>>,
            }),
    {
        match job {
            UserUpdate::SendUserPosition(t) => Some(position_message(&t)),
            UserUpdate::UpdateAvatarId(user, object) => {
                self.users_loaded.insert(user, object);
                None
            },
            UserUpdate::SendReadySignal => {
                let mut m: Vec<u8> = Vec::new();
                m.push(READY);
                proof {
                    assert(m@ =~= seq![READY]);
                }
                Some(m)
            },
        }
    }

    /// Handles a message from the server.
    pub fn handle_message(&mut self, data: &[u8]) -> (r: ServerOutcome)
        ensures
            data@.len() == 0 || data@[0] == 0 ==> r is Idle && final(self)@ == old(self)@,
            data@.len() > 0 && data@[0] == PLAYER_LIST ==> {
                let (m, us) = spec_players(old(self)@, data@, record_count(data@));
                &&& final(self)@ == m
                &&& r matches ServerOutcome::Players { updates, reply } && updates@ == us && reply@
                    == seq![READY]
            },
            data@.len() > 0 && data@[0] != 0 && data@[0] != PLAYER_LIST ==> r == ServerOutcome::Unknown(
                data@[0],
            ) && final(self)@ == old(self)@,
            final(self)@ == spec_message(old(self)@, data@).0,
            match r {
                ServerOutcome::Players { updates, reply } => updates@ == spec_message(old(self)@, data@).1
                    && spec_message(old(self)@, data@).3 == Some(reply@),
                _ => spec_message(old(self)@, data@).1.len() == 0 && spec_message(old(self)@, data@).3 is None,
            },
    {
        if data.len() == 0 || data[0] == 0 {
            return ServerOutcome::Idle;
        }
        if data[0] != PLAYER_LIST {
            return ServerOutcome::Unknown(data[0]);
        }
        let count = (data.len() - 1) / RECORD_SIZE;
        let ghost start = self@;
        let mut updates: Vec<AvatarUpdate> = Vec::new();
        let mut i: usize = 0;
        while i < count
            invariant
                data@.len() >= 1,
                count == record_count(data@),
                i <= count,
                (self@, updates@) == spec_players(start, data@, i as nat),
            decreases count - i,
        {
            proof {
                let len = data@.len() as int;
                assert(28 * (i + 1) <= 28 * count) by (nonlinear_arith)
                    requires
                        i + 1 <= count,
                ;
                assert(28 * count <= len - 1) by (nonlinear_arith)
                    requires
                        count == (len - 1) / 28,
                        len >= 1,
                ;
            }
            let (id, t) = read_record(data, i);
            match self.users_loaded.get(&id) {
                None => {
                    self.users_loaded.insert(id, 0);
                    updates.push(AvatarUpdate::RegisterUser(t, id));
                },
                Some(o) => {
                    let o = *o;
                    if o != 0 {
                        updates.push(AvatarUpdate::SetUserPosition(t, o));
                    }
                },
            }
            i = i + 1;
        }
        let mut reply: Vec<u8> = Vec::new();
        reply.push(READY);
        proof {
            assert(reply@ =~= seq![READY]);
        }
        ServerOutcome::Players { updates, reply }
    }
}

/// Registering is once per user: after any prefix of a player list, every
/// user that was known stays known with the same object; every user of the
/// list is known; a user is registered only if it was unknown before the
/// list, and no user is registered twice; a user is moved only to an avatar
/// that exists (object not `0`).
pub proof fn lemma_register_once(loaded: Map<u32, usize>, data: Seq<u8>, n: nat)
    ensures
        ({
            let (m, us) = spec_players(loaded, data, n);
            &&& forall|id: u32| #[trigger] loaded.contains_key(id) ==> m.contains_key(id) && m[id] == loaded[id]
            &&& forall|k: int| 0 <= k < n ==> m.contains_key(#[trigger] record_id(data, k))
            &&& forall|j: int|
                0 <= j < us.len() ==> (#[trigger] us[j] matches AvatarUpdate::RegisterUser(_, id)
                    ==> !loaded.contains_key(id) && m.contains_key(id))
            &&& forall|j1: int, j2: int|
                0 <= j1 < j2 < us.len() ==> (#[trigger] us[j1] matches AvatarUpdate::RegisterUser(_, a) ==> (
                #[trigger] us[j2] matches AvatarUpdate::RegisterUser(_, b) ==> a != b))
            &&& forall|j: int|
                0 <= j < us.len() ==> (#[trigger] us[j] matches AvatarUpdate::SetUserPosition(_, o) ==> o != 0)
        }),
    decreases n,
{
    if n > 0 {
        lemma_register_once(loaded, data, (n - 1) as nat);
        let (m0, us0) = spec_players(loaded, data, (n - 1) as nat);
        let (m, us) = spec_players(loaded, data, n);
        let id = record_id(data, n - 1);
        if !m0.contains_key(id) {
            assert forall|j1: int, j2: int|
                0 <= j1 < j2 < us.len() implies (#[trigger] us[j1] matches AvatarUpdate::RegisterUser(_, a) ==> (
            #[trigger] us[j2] matches AvatarUpdate::RegisterUser(_, b) ==> a != b)) by {
                if j2 == us.len() - 1 {
                    assert(us[j1] == us0[j1]);
                    if let AvatarUpdate::RegisterUser(_, a) = us0[j1] {
                        assert(m0.contains_key(a));
                    }
                } else {
                    assert(us[j1] == us0[j1]);
                    assert(us[j2] == us0[j2]);
                }
            }
            assert forall|j: int|
                0 <= j < us.len() implies (#[trigger] us[j] matches AvatarUpdate::RegisterUser(_, rid)
                ==> !loaded.contains_key(rid) && m.contains_key(rid)) by {
                if j < us0.len() {
                    assert(us[j] == us0[j]);
                }
            }
            assert forall|j: int|
                0 <= j < us.len() implies (#[trigger] us[j] matches AvatarUpdate::SetUserPosition(_, o) ==> o != 0) by {
                if j < us0.len() {
                    assert(us[j] == us0[j]);
                }
            }
        } else if m0[id] != 0 {
            assert forall|j1: int, j2: int|
                0 <= j1 < j2 < us.len() implies (#[trigger] us[j1] matches AvatarUpdate::RegisterUser(_, a) ==> (
            #[trigger] us[j2] matches AvatarUpdate::RegisterUser(_, b) ==> a != b)) by {
                assert(us[j1] == us0[j1]);
                if j2 < us0.len() {
                    assert(us[j2] == us0[j2]);
                }
            }
            assert forall|j: int|
                0 <= j < us.len() implies (#[trigger] us[j] matches AvatarUpdate::RegisterUser(_, rid)
                ==> !loaded.contains_key(rid) && m.contains_key(rid)) by {
                if j < us0.len() {
                    assert(us[j] == us0[j]);
                }
            }
            assert forall|j: int|
                0 <= j < us.len() implies (#[trigger] us[j] matches AvatarUpdate::SetUserPosition(_, o) ==> o != 0) by {
                if j < us0.len() {
                    assert(us[j] == us0[j]);
                }
            }
        }
    }
}

/// Once the game has told the thread which world object shows a user's
/// avatar (an `UpdateAvatarId` job with an object other than `0`), every
/// record of that user in later player lists moves that object, and the user
/// is never registered again.
pub proof fn lemma_avatar_id_routes_moves(loaded: Map<u32, usize>, user: u32, object: usize, data: Seq<u8>, n: nat)
    requires
        object != 0,
    ensures
        ({
            let (m, us) = spec_players(loaded.insert(user, object), data, n);
            &&& m.contains_key(user) && m[user] == object
            &&& forall|k: int|
                0 <= k < n && #[trigger] record_id(data, k) == user ==> us.contains(
                    AvatarUpdate::SetUserPosition(record_transform(data, k), object),
                )
            &&& forall|j: int|
                0 <= j < us.len() ==> !(#[trigger] us[j] matches AvatarUpdate::RegisterUser(_, id) && id == user)
        }),
    decreases n,
{
    if n > 0 {
        lemma_avatar_id_routes_moves(loaded, user, object, data, (n - 1) as nat);
        let (m0, us0) = spec_players(loaded.insert(user, object), data, (n - 1) as nat);
        let (m, us) = spec_players(loaded.insert(user, object), data, n);
        let id = record_id(data, n - 1);
        let t = record_transform(data, n - 1);
        assert forall|k: int|
            0 <= k < n && #[trigger] record_id(data, k) == user implies us.contains(
                AvatarUpdate::SetUserPosition(record_transform(data, k), object),
            ) by {
            if k < n - 1 {
                let j = choose|j: int| 0 <= j < us0.len() && us0[j] == AvatarUpdate::SetUserPosition(record_transform(data, k), object);
                assert(us[j] == us0[j]);
            } else {
                assert(us[us.len() - 1] == AvatarUpdate::SetUserPosition(t, object));
            }
        }
        assert forall|j: int| 0 <= j < us.len() implies !(#[trigger] us[j] matches AvatarUpdate::RegisterUser(_, rid) && rid == user) by {
            if j < us0.len() {
                assert(us[j] == us0[j]);
            }
        }
    }
}

/// The transform that an avatar update carries.
pub open spec fn update_transform(u: AvatarUpdate) -> Transform {
    match u {
        AvatarUpdate::RegisterUser(t, _) => t,
        AvatarUpdate::SetUserPosition(t, _) => t,
    }
}

/// The record behind each avatar update of `spec_players`, in order.
pub open spec fn spec_player_records(loaded: Map<u32, usize>, data: Seq<u8>, n: nat) -> Seq<int>
    decreases n,
{
    if n == 0 {
        seq![]
    } else {
        let (m, us) = spec_players(loaded, data, (n - 1) as nat);
        let rs = spec_player_records(loaded, data, (n - 1) as nat);
        let id = record_id(data, n - 1);
        if !m.contains_key(id) || m[id] != 0 {
            rs.push(n - 1)
        } else {
            rs
        }
    }
}

/// A player list is read record by record from its bytes: avatar update `j`
/// comes from record `rs[j]`, in record order; its user is the record's first
/// big-endian word (the registered id, for a registration), its position and
/// rotation are the record's next six big-endian words in order, and its
/// scale is `1.0`.
pub proof fn lemma_player_list_decodes(loaded: Map<u32, usize>, data: Seq<u8>, n: nat)
    ensures
        ({
            let (m, us) = spec_players(loaded, data, n);
            let ids = spec_player_ids(loaded, data, n);
            let rs = spec_player_records(loaded, data, n);
            &&& ids.len() == us.len() && rs.len() == us.len()
            &&& forall|j1: int, j2: int| 0 <= j1 < j2 < rs.len() ==> #[trigger] rs[j1] < #[trigger] rs[j2]
            &&& forall|j: int| 0 <= j < rs.len() ==> 0 <= #[trigger] rs[j] < n
            &&& forall|j: int| 0 <= j < ids.len() ==> #[trigger] ids[j] == be_word_at(data, 1 + 28 * rs[j])
            &&& forall|j: int|
                0 <= j < us.len() ==> update_transform(#[trigger] us[j]) == (Transform {
                    position: Vec3Bits {
                        x: be_word_at(data, 1 + 28 * rs[j] + 4),
                        y: be_word_at(data, 1 + 28 * rs[j] + 8),
                        z: be_word_at(data, 1 + 28 * rs[j] + 12),
                    },
                    rotation: Vec3Bits {
                        x: be_word_at(data, 1 + 28 * rs[j] + 16),
                        y: be_word_at(data, 1 + 28 * rs[j] + 20),
                        z: be_word_at(data, 1 + 28 * rs[j] + 24),
                    },
                    scale: Vec3Bits { x: ONE_BITS, y: ONE_BITS, z: ONE_BITS },
                })
            &&& forall|j: int|
                0 <= j < us.len() ==> (#[trigger] us[j] matches AvatarUpdate::RegisterUser(_, id) ==> id == ids[j])
        }),
    decreases n,
{
    lemma_players_ids(loaded, data, n);
    if n > 0 {
        lemma_player_list_decodes(loaded, data, (n - 1) as nat);
        let (m0, us0) = spec_players(loaded, data, (n - 1) as nat);
        let (m, us) = spec_players(loaded, data, n);
        let ids0 = spec_player_ids(loaded, data, (n - 1) as nat);
        let ids = spec_player_ids(loaded, data, n);
        let rs0 = spec_player_records(loaded, data, (n - 1) as nat);
        let rs = spec_player_records(loaded, data, n);
        let id = record_id(data, n - 1);
        let t = record_transform(data, n - 1);
        if !m0.contains_key(id) {
            assert(us == us0.push(AvatarUpdate::RegisterUser(t, id)));
            assert(rs == rs0.push(n - 1));
            assert(ids == ids0.push(id));
        } else if m0[id] != 0 {
            assert(us == us0.push(AvatarUpdate::SetUserPosition(t, m0[id])));
            assert(rs == rs0.push(n - 1));
            assert(ids == ids0.push(id));
        } else {
            assert(us == us0);
            assert(rs == rs0);
            assert(ids == ids0);
        }
        assert forall|j: int| 0 <= j < us.len() implies update_transform(#[trigger] us[j]) == (Transform {
                    position: Vec3Bits {
                        x: be_word_at(data, 1 + 28 * rs[j] + 4),
                        y: be_word_at(data, 1 + 28 * rs[j] + 8),
                        z: be_word_at(data, 1 + 28 * rs[j] + 12),
                    },
                    rotation: Vec3Bits {
                        x: be_word_at(data, 1 + 28 * rs[j] + 16),
                        y: be_word_at(data, 1 + 28 * rs[j] + 20),
                        z: be_word_at(data, 1 + 28 * rs[j] + 24),
                    },
                    scale: Vec3Bits { x: ONE_BITS, y: ONE_BITS, z: ONE_BITS },
                }) by {
            if j < us0.len() {
                assert(us[j] == us0[j]);
                assert(rs[j] == rs0[j]);
            }
        }
        assert forall|j: int| 0 <= j < ids.len() implies #[trigger] ids[j] == be_word_at(data, 1 + 28 * rs[j]) by {
            if j < ids0.len() {
                assert(ids[j] == ids0[j]);
                assert(rs[j] == rs0[j]);
            }
        }
        assert forall|j: int|
            0 <= j < us.len() implies (#[trigger] us[j] matches AvatarUpdate::RegisterUser(_, i) ==> i == ids[j]) by {
            if j < us0.len() {
                assert(us[j] == us0[j]);
                assert(ids[j] == ids0[j]);
            }
        }
        assert forall|j: int| 0 <= j < rs.len() implies 0 <= #[trigger] rs[j] < n by {
            if j < rs0.len() {
                assert(rs[j] == rs0[j]);
            }
        }
        assert forall|j1: int, j2: int| 0 <= j1 < j2 < rs.len() implies #[trigger] rs[j1] < #[trigger] rs[j2] by {
            assert(rs[j1] == rs0[j1]);
            if j2 < rs0.len() {
                assert(rs[j2] == rs0[j2]);
            }
        }
    }
}

/// A position message carries the transform: its first byte is the position
/// code, and its six big-endian words are the position's and the rotation's
/// components, in order.
pub proof fn lemma_position_message_decodes(t: Transform)
    ensures
        spec_position_message(t).len() == 25,
        spec_position_message(t)[0] == POSITION,
        be_word_at(spec_position_message(t), 1) == t.position.x,
        be_word_at(spec_position_message(t), 5) == t.position.y,
        be_word_at(spec_position_message(t), 9) == t.position.z,
        be_word_at(spec_position_message(t), 13) == t.rotation.x,
        be_word_at(spec_position_message(t), 17) == t.rotation.y,
        be_word_at(spec_position_message(t), 21) == t.rotation.z,
{
    let m = spec_position_message(t);
    crate::wire::lemma_be_round_trip(t.position.x);
    crate::wire::lemma_be_round_trip(t.position.y);
    crate::wire::lemma_be_round_trip(t.position.z);
    crate::wire::lemma_be_round_trip(t.rotation.x);
    crate::wire::lemma_be_round_trip(t.rotation.y);
    crate::wire::lemma_be_round_trip(t.rotation.z);
    assert(m.subrange(1, 5) =~= be_bytes(t.position.x));
    assert(m.subrange(5, 9) =~= be_bytes(t.position.y));
    assert(m.subrange(9, 13) =~= be_bytes(t.position.z));
    assert(m.subrange(13, 17) =~= be_bytes(t.rotation.x));
    assert(m.subrange(17, 21) =~= be_bytes(t.rotation.y));
    assert(m.subrange(21, 25) =~= be_bytes(t.rotation.z));
}

// ---------------------------------------------------------------------------
// The thread's whole run.
// ---------------------------------------------------------------------------

/// The user id behind each avatar update of `spec_players`, in order.
pub open spec fn spec_player_ids(loaded: Map<u32, usize>, data: Seq<u8>, n: nat) -> Seq<u32>
    decreases n,
{
    if n == 0 {
        seq![]
    } else {
        let (m, us) = spec_players(loaded, data, (n - 1) as nat);
        let ids = spec_player_ids(loaded, data, (n - 1) as nat);
        let id = record_id(data, n - 1);
        if !m.contains_key(id) || m[id] != 0 {
            ids.push(id)
        } else {
            ids
        }
    }
}

/// Within one player list: a registration is of a user unknown before the
/// list, a move goes to the object known for its user before the list, and
/// every user the list adds is filed with object `0`.
proof fn lemma_players_ids(loaded: Map<u32, usize>, data: Seq<u8>, n: nat)
    ensures
        ({
            let (m, us) = spec_players(loaded, data, n);
            let ids = spec_player_ids(loaded, data, n);
            &&& ids.len() == us.len()
            &&& forall|k: int|
                0 <= k < us.len() ==> (#[trigger] us[k] matches AvatarUpdate::RegisterUser(_, a) ==> a == ids[k]
                    && !loaded.contains_key(a) && m.contains_key(a))
            &&& forall|k: int|
                0 <= k < us.len() ==> (#[trigger] us[k] matches AvatarUpdate::SetUserPosition(_, o) ==> loaded.contains_key(
                    ids[k],
                ) && loaded[ids[k]] == o && o != 0)
            &&& forall|id: u32| #[trigger] m.contains_key(id) ==> (loaded.contains_key(id) && m[id] == loaded[id]) || m[id] == 0
            &&& forall|id: u32| #[trigger] loaded.contains_key(id) ==> m.contains_key(id)
        }),
    decreases n,
{
    if n > 0 {
        lemma_players_ids(loaded, data, (n - 1) as nat);
        let (m0, us0) = spec_players(loaded, data, (n - 1) as nat);
        let (m, us) = spec_players(loaded, data, n);
        let ids = spec_player_ids(loaded, data, n);
        let ids0 = spec_player_ids(loaded, data, (n - 1) as nat);
        let id = record_id(data, n - 1);
        assert forall|k: int|
            0 <= k < us.len() implies (#[trigger] us[k] matches AvatarUpdate::RegisterUser(_, a) ==> a == ids[k]
                && !loaded.contains_key(a) && m.contains_key(a)) by {
            if k < us0.len() {
                assert(us[k] == us0[k]);
                assert(ids[k] == ids0[k]);
            }
        }
        assert forall|k: int|
            0 <= k < us.len() implies (#[trigger] us[k] matches AvatarUpdate::SetUserPosition(_, o) ==> loaded.contains_key(
                ids[k],
            ) && loaded[ids[k]] == o && o != 0) by {
            if k < us0.len() {
                assert(us[k] == us0[k]);
                assert(ids[k] == ids0[k]);
            }
        }
        assert forall|i: u32| #[trigger] m.contains_key(i) implies (loaded.contains_key(i) && m[i] == loaded[i]) || m[i] == 0 by {
            if i != id {
                assert(m0.contains_key(i));
            }
        }
    }
}

/// An event of the user thread: a job from the game, or a message from the server.
pub enum ThreadEvent {
    Job(UserUpdate),
    Message(Seq<u8>),
}

/// What a job does: the new map of known users, and the message to send.
pub open spec fn spec_job(m: Map<u32, usize>, job: UserUpdate) -> (Map<u32, usize>, Option<Seq<u8>>) {
    match job {
        UserUpdate::SendUserPosition(t) => (m, Some(spec_position_message(t))),
        UserUpdate::SendReadySignal => (m, Some(seq![READY])),
        UserUpdate::UpdateAvatarId(u, o) => (m.insert(u, o), None),
    }
}

/// What a message from the server does: the new map of known users, the
/// avatar updates with the user id behind each, and the reply to send.
pub open spec fn spec_message(m: Map<u32, usize>, data: Seq<u8>) -> (Map<u32, usize>, Seq<AvatarUpdate>, Seq<u32>, Option<Seq<u8>>) {
    if data.len() > 0 && data[0] == PLAYER_LIST {
        let (m2, us) = spec_players(m, data, record_count(data));
        (m2, us, spec_player_ids(m, data, record_count(data)), Some(seq![READY]))
    } else {
        (m, seq![], seq![], None)
    }
}

/// The thread's run over `events`, from the known users `start`: the known
/// users at the end, every avatar update sent to the game tagged with the
/// event that caused it and the user behind it, and every message sent to
/// the server tagged with the event that caused it.
pub open spec fn spec_run(start: Map<u32, usize>, events: Seq<ThreadEvent>) -> (
    Map<u32, usize>,
    Seq<(int, u32, AvatarUpdate)>,
    Seq<(int, Seq<u8>)>,
)
    decreases events.len(),
{
    if events.len() == 0 {
        (start, seq![], seq![])
    } else {
        let e = events.len() - 1;
        let (m, us, ss) = spec_run(start, events.drop_last());
        match events.last() {
            ThreadEvent::Job(job) => {
                let (m2, msg) = spec_job(m, job);
                (
                    m2,
                    us,
                    match msg {
                        Some(b) => ss.push((e, b)),
                        None => ss,
                    },
                )
            },
            ThreadEvent::Message(data) => {
                let (m2, ups, ids, reply) = spec_message(m, data);
                (
                    m2,
                    us + Seq::new(ups.len(), |k: int| (e, ids[k], ups[k])),
                    match reply {
                        Some(b) => ss.push((e, b)),
                        None => ss,
                    },
                )
            },
        }
    }
}

/// Whether event `ev` tells the thread the avatar object of user `id`.
pub open spec fn names_avatar_of(ev: ThreadEvent, id: u32) -> bool {
    ev matches ThreadEvent::Job(UserUpdate::UpdateAvatarId(u, _)) && u == id
}

/// Event `e`, before event `before`, told the thread that user `id`'s avatar
/// is object `o`, and no event between them named another object for `id`.
pub open spec fn latest_avatar_id(events: Seq<ThreadEvent>, id: u32, o: usize, e: int, before: int) -> bool {
    &&& 0 <= e < before
    &&& events[e] == ThreadEvent::Job(UserUpdate::UpdateAvatarId(id, o))
    &&& forall|e2: int| e < e2 < before ==> !names_avatar_of(#[trigger] events[e2], id)
}

/// The promises of the thread's run, for the known users `m`, the avatar
/// updates `us` and the messages `ss` that `events` led to:
/// - every avatar update comes from a message of the server;
/// - a registered user is known from then on, and is the user behind the update;
/// - no user is registered twice;
/// - a move goes to an object other than `0`, the one that the latest
///   avatar-id job for its user before the message named;
/// - every known user with an object other than `0` got it from the latest
///   avatar-id job for that user;
/// - every message to the server comes from an event; a ready job sends
///   `[READY]`, a position job sends its position message, and an avatar-id
///   job sends nothing.
#[verifier::opaque]
pub open spec fn run_keeps_promises(events: Seq<ThreadEvent>, m: Map<u32, usize>, us: Seq<(int, u32, AvatarUpdate)>, ss: Seq<(int, Seq<u8>)>) -> bool {
    &&& forall|j: int| 0 <= j < us.len() ==> 0 <= (#[trigger] us[j]).0 < events.len() && events[us[j].0] is Message
    &&& forall|j: int|
        0 <= j < us.len() ==> ((#[trigger] us[j]).2 matches AvatarUpdate::RegisterUser(_, a) ==> a == us[j].1
            && m.contains_key(a))
    &&& forall|j1: int, j2: int|
        0 <= j1 < j2 < us.len() ==> ((#[trigger] us[j1]).2 matches AvatarUpdate::RegisterUser(_, a) ==> (
        (#[trigger] us[j2]).2 matches AvatarUpdate::RegisterUser(_, b) ==> a != b))
    &&& forall|j: int|
        0 <= j < us.len() ==> ((#[trigger] us[j]).2 matches AvatarUpdate::SetUserPosition(_, o) ==> o != 0
            && exists|e: int| #[trigger] latest_avatar_id(events, us[j].1, o, e, us[j].0))
    &&& forall|id: u32|
        #[trigger] m.contains_key(id) && m[id] != 0 ==> exists|e: int|
            #[trigger] latest_avatar_id(events, id, m[id], e, events.len() as int)
    &&& forall|k: int| 0 <= k < ss.len() ==> 0 <= (#[trigger] ss[k]).0 < events.len()
    &&& forall|e: int|
        0 <= e < events.len() ==> (#[trigger] events[e] == ThreadEvent::Job(UserUpdate::SendReadySignal) ==> ss.contains(
            (e, seq![READY]),
        ))
    &&& forall|e: int|
        0 <= e < events.len() ==> (#[trigger] events[e] matches ThreadEvent::Job(UserUpdate::SendUserPosition(t))
            ==> ss.contains((e, spec_position_message(t))))
    &&& forall|e: int|
        0 <= e < events.len() ==> (#[trigger] events[e] matches ThreadEvent::Job(UserUpdate::UpdateAvatarId(_, _))
            ==> forall|k: int| 0 <= k < ss.len() ==> (#[trigger] ss[k]).0 != e)
}

/// An avatar name that is latest before `before` in a run stays so in any
/// longer run; and one that is latest at the end of the run stays latest when
/// the next event names no avatar of that user.
proof fn lemma_latest_transfer(p: Seq<ThreadEvent>, events: Seq<ThreadEvent>)
    requires
        events.len() == p.len() + 1,
        events.drop_last() == p,
    ensures
        forall|id: u32, o: usize, x: int, before: int|
            before <= p.len() && #[trigger] latest_avatar_id(p, id, o, x, before) ==> latest_avatar_id(
                events,
                id,
                o,
                x,
                before,
            ),
        forall|id: u32, o: usize, x: int|
            #[trigger] latest_avatar_id(p, id, o, x, p.len() as int) && !names_avatar_of(events[p.len() as int], id)
                ==> latest_avatar_id(events, id, o, x, events.len() as int),
{
    let e = p.len() as int;
    assert forall|i: int| 0 <= i < p.len() implies p[i] == events[i] by {}
    assert forall|id: u32, o: usize, x: int, before: int|
        before <= p.len() && #[trigger] latest_avatar_id(p, id, o, x, before) implies latest_avatar_id(
        events,
        id,
        o,
        x,
        before,
    ) by {
        assert forall|e2: int| x < e2 < before implies !names_avatar_of(#[trigger] events[e2], id) by {
            assert(p[e2] == events[e2]);
        }
    }
    assert forall|id: u32, o: usize, x: int|
        #[trigger] latest_avatar_id(p, id, o, x, p.len() as int) && !names_avatar_of(events[e], id)
        implies latest_avatar_id(events, id, o, x, events.len() as int) by {
        assert forall|e2: int| x < e2 < events.len() implies !names_avatar_of(#[trigger] events[e2], id) by {
            if e2 < e {
                assert(p[e2] == events[e2]);
            }
        }
    }
}

/// A job keeps the promises of the run.
proof fn lemma_run_job(p: Seq<ThreadEvent>, job: UserUpdate)
    requires
        ({
            let (m0, us0, ss0) = spec_run(Map::empty(), p);
            run_keeps_promises(p, m0, us0, ss0)
        }),
    ensures
        ({
            let events = p.push(ThreadEvent::Job(job));
            let (m, us, ss) = spec_run(Map::empty(), events);
            run_keeps_promises(events, m, us, ss)
        }),
{
    reveal(run_keeps_promises);
    let events = p.push(ThreadEvent::Job(job));
    let e = p.len() as int;
    let (m0, us0, ss0) = spec_run(Map::empty(), p);
    let (m, us, ss) = spec_run(Map::empty(), events);
    assert(events.drop_last() =~= p);
    assert(events.len() - 1 == e);
    assert forall|i: int| 0 <= i < p.len() implies p[i] == events[i] by {}
    lemma_latest_transfer(p, events);
        assert(us == us0);
        assert(forall|k: int| 0 <= k < ss0.len() ==> ss0[k] == ss[k]);
        assert forall|j: int|
            0 <= j < us.len() implies ((#[trigger] us[j]).2 matches AvatarUpdate::SetUserPosition(_, o) ==> o
            != 0 && exists|x: int| #[trigger] latest_avatar_id(events, us[j].1, o, x, us[j].0)) by {
            if let AvatarUpdate::SetUserPosition(_, o) = us[j].2 {
                let x = choose|x: int| #[trigger] latest_avatar_id(p, us0[j].1, o, x, us0[j].0);
                assert(latest_avatar_id(events, us[j].1, o, x, us[j].0));
            }
        }
        assert forall|id: u32| #[trigger] m.contains_key(id) && m[id] != 0 implies exists|x: int|
            #[trigger] latest_avatar_id(events, id, m[id], x, events.len() as int) by {
            match job {
                UserUpdate::UpdateAvatarId(u, o) => {
                    if id == u {
                        assert(latest_avatar_id(events, id, m[id], e, events.len() as int));
                    } else {
                        let x = choose|x: int| #[trigger] latest_avatar_id(p, id, m0[id], x, p.len() as int);
                        assert(latest_avatar_id(events, id, m[id], x, events.len() as int));
                    }
                },
                _ => {
                    let x = choose|x: int| #[trigger] latest_avatar_id(p, id, m0[id], x, p.len() as int);
                    assert(latest_avatar_id(events, id, m[id], x, events.len() as int));
                },
            }
        }
        assert forall|x: int|
            0 <= x < events.len() && #[trigger] events[x] == ThreadEvent::Job(UserUpdate::SendReadySignal)
            implies ss.contains((x, seq![READY])) by {
            if x < e {
                assert(p[x] == events[x]);
                let k = choose|k: int| 0 <= k < ss0.len() && ss0[k] == (x, seq![READY]);
                assert(ss[k] == ss0[k]);
            } else {
                assert(ss[ss.len() - 1] == (x, seq![READY]));
            }
        }
        assert forall|x: int|
            0 <= x < events.len() && (#[trigger] events[x] matches ThreadEvent::Job(
                UserUpdate::SendUserPosition(t),
            )) implies ss.contains((x, spec_position_message(events[x]->Job_0->SendUserPosition_0))) by {
            if x < e {
                assert(p[x] == events[x]);
                let t = events[x]->Job_0->SendUserPosition_0;
                let k = choose|k: int| 0 <= k < ss0.len() && ss0[k] == (x, spec_position_message(t));
                assert(ss[k] == ss0[k]);
            } else {
                assert(ss[ss.len() - 1] == (x, spec_position_message(events[x]->Job_0->SendUserPosition_0)));
            }
        }
        assert forall|x: int|
            0 <= x < events.len() && (#[trigger] events[x] matches ThreadEvent::Job(
                UserUpdate::UpdateAvatarId(_, _),
            )) implies forall|k: int| 0 <= k < ss.len() ==> (#[trigger] ss[k]).0 != x by {
            if x < e {
                assert(p[x] == events[x]);
            }
            assert forall|k: int| 0 <= k < ss.len() implies (#[trigger] ss[k]).0 != x by {
                if k < ss0.len() {
                    assert(ss[k] == ss0[k]);
                }
            }
        }
}

/// A message from the server keeps the promises of the run.
proof fn lemma_run_message(p: Seq<ThreadEvent>, data: Seq<u8>)
    requires
        ({
            let (m0, us0, ss0) = spec_run(Map::empty(), p);
            run_keeps_promises(p, m0, us0, ss0)
        }),
    ensures
        ({
            let events = p.push(ThreadEvent::Message(data));
            let (m, us, ss) = spec_run(Map::empty(), events);
            run_keeps_promises(events, m, us, ss)
        }),
{
    reveal(run_keeps_promises);
    let events = p.push(ThreadEvent::Message(data));
    let e = p.len() as int;
    let (m0, us0, ss0) = spec_run(Map::empty(), p);
    let (m, us, ss) = spec_run(Map::empty(), events);
    assert(events.drop_last() =~= p);
    assert(events.len() - 1 == e);
    assert forall|i: int| 0 <= i < p.len() implies p[i] == events[i] by {}
    lemma_latest_transfer(p, events);
        let (m2, ups, ids, reply) = spec_message(m0, data);
        let added = Seq::new(ups.len(), |k: int| (e, ids[k], ups[k]));
        assert(us == us0 + added);
        assert(forall|k: int| 0 <= k < ss0.len() ==> ss0[k] == ss[k]);
        assert(m == m2);
        if data.len() > 0 && data[0] == PLAYER_LIST {
            lemma_players_ids(m0, data, record_count(data));
            lemma_register_once(m0, data, record_count(data));
        }
        assert forall|j: int| 0 <= j < us.len() implies 0 <= (#[trigger] us[j]).0 < events.len()
            && events[us[j].0] is Message by {
            if j < us0.len() {
                assert(us[j] == us0[j]);
                assert(p[us0[j].0] == events[us0[j].0]);
            }
        }
        assert forall|j: int|
            0 <= j < us.len() implies ((#[trigger] us[j]).2 matches AvatarUpdate::RegisterUser(_, a) ==> a
            == us[j].1 && m.contains_key(a)) by {
            if j < us0.len() {
                assert(us[j] == us0[j]);
            } else {
                assert(us[j] == added[j - us0.len()]);
            }
        }
        assert forall|j1: int, j2: int|
            0 <= j1 < j2 < us.len() implies ((#[trigger] us[j1]).2 matches AvatarUpdate::RegisterUser(_, a)
            ==> ((#[trigger] us[j2]).2 matches AvatarUpdate::RegisterUser(_, b) ==> a != b)) by {
            if j2 < us0.len() {
                assert(us[j1] == us0[j1]);
                assert(us[j2] == us0[j2]);
            } else if j1 < us0.len() {
                assert(us[j1] == us0[j1]);
                assert(us[j2] == added[j2 - us0.len()]);
                assert(ups[j2 - us0.len()] == us[j2].2);
            } else {
                assert(us[j1] == added[j1 - us0.len()]);
                assert(us[j2] == added[j2 - us0.len()]);
                assert(ups[j1 - us0.len()] == us[j1].2);
                assert(ups[j2 - us0.len()] == us[j2].2);
            }
        }
        assert forall|j: int|
            0 <= j < us.len() implies ((#[trigger] us[j]).2 matches AvatarUpdate::SetUserPosition(_, o) ==> o
            != 0 && exists|x: int| #[trigger] latest_avatar_id(events, us[j].1, o, x, us[j].0)) by {
            if let AvatarUpdate::SetUserPosition(_, o) = us[j].2 {
                if j < us0.len() {
                    assert(us[j] == us0[j]);
                    let x = choose|x: int| #[trigger] latest_avatar_id(p, us0[j].1, o, x, us0[j].0);
                    assert(latest_avatar_id(events, us[j].1, o, x, us[j].0));
                } else {
                    let k = j - us0.len();
                    assert(us[j] == added[k]);
                    assert(ups[k] == us[j].2);
                    let id = ids[k];
                    assert(m0.contains_key(id) && m0[id] == o && o != 0);
                    let x = choose|x: int| #[trigger] latest_avatar_id(p, id, m0[id], x, p.len() as int);
                    assert(latest_avatar_id(events, us[j].1, o, x, us[j].0));
                }
            }
        }
        assert forall|id: u32| #[trigger] m.contains_key(id) && m[id] != 0 implies exists|x: int|
            #[trigger] latest_avatar_id(events, id, m[id], x, events.len() as int) by {
            assert(m0.contains_key(id) && m[id] == m0[id]);
            let x = choose|x: int| #[trigger] latest_avatar_id(p, id, m0[id], x, p.len() as int);
            assert(latest_avatar_id(events, id, m[id], x, events.len() as int));
        }
        assert forall|x: int|
            0 <= x < events.len() && #[trigger] events[x] == ThreadEvent::Job(UserUpdate::SendReadySignal)
            implies ss.contains((x, seq![READY])) by {
            assert(x < e);
            assert(p[x] == events[x]);
            let k = choose|k: int| 0 <= k < ss0.len() && ss0[k] == (x, seq![READY]);
            assert(ss[k] == ss0[k]);
        }
        assert forall|x: int|
            0 <= x < events.len() && (#[trigger] events[x] matches ThreadEvent::Job(
                UserUpdate::SendUserPosition(t),
            )) implies ss.contains((x, spec_position_message(events[x]->Job_0->SendUserPosition_0))) by {
            assert(x < e);
            assert(p[x] == events[x]);
            let t = events[x]->Job_0->SendUserPosition_0;
            let k = choose|k: int| 0 <= k < ss0.len() && ss0[k] == (x, spec_position_message(t));
            assert(ss[k] == ss0[k]);
        }
        assert forall|x: int|
            0 <= x < events.len() && (#[trigger] events[x] matches ThreadEvent::Job(
                UserUpdate::UpdateAvatarId(_, _),
            )) implies forall|k: int| 0 <= k < ss.len() ==> (#[trigger] ss[k]).0 != x by {
            assert(x < e);
            assert(p[x] == events[x]);
            assert forall|k: int| 0 <= k < ss.len() implies (#[trigger] ss[k]).0 != x by {
                if k < ss0.len() {
                    assert(ss[k] == ss0[k]);
                }
            }
        }
}

/// Over any sequence of jobs and server messages, a thread that starts
/// knowing nobody registers each user at most once, moves only avatars whose
/// object the game has named (the latest name for that user), answers a
/// ready job with `[READY]` and a position job with its position message,
/// and sends nothing for an avatar-id job.
pub proof fn lemma_thread_run(events: Seq<ThreadEvent>)
    ensures
        ({
            let (m, us, ss) = spec_run(Map::empty(), events);
            run_keeps_promises(events, m, us, ss)
        }),
    decreases events.len(),
{
    if events.len() > 0 {
        let p = events.drop_last();
        lemma_thread_run(p);
        assert(events =~= p.push(events.last()));
        match events.last() {
            ThreadEvent::Job(job) => lemma_run_job(p, job),
            ThreadEvent::Message(data) => lemma_run_message(p, data),
        }
    } else {
        reveal(run_keeps_promises);
    }
}

} // verus!
