//! The game's fallback avatar: the model shown for other players, its
//! skeleton, and what the game does when the network reports a player.

use vstd::prelude::*;

use crate::material::Material;
use crate::network::avatar_updates::AvatarUpdate;
use crate::network::user_updates::UserUpdate;
use crate::skeleton::{create_skeleton, first_match, spec_skeleton, FallbackBone, Skeleton};
use crate::table::NamedTable;
use crate::transform::{Vec3Bits, ONE_BITS};

verus! {

/// The part of the fallback skeleton that turns with the player's view.
pub const HEAD_PART: &'static str = "head";

/// The name of the fallback model's head bone.
pub const HEAD_BONE: &'static str = "head.xModel";

/// The textures of the fallback avatar's body, hair and dress.
pub const BODY_TEXTURE: &'static str = "textures/CG_Body_Base_color.png";
pub const HAIRS_TEXTURE: &'static str = "textures/CG_Hairs_Base_color.png";
pub const DRESS_TEXTURE: &'static str = "textures/CG_Dress_Base_color.png";

/// The material names of the fallback avatar's body, hair and dress.
pub const BODY_MATERIAL: &'static str = "BodyMaterial";
pub const HAIRS_MATERIAL: &'static str = "HairsMaterial";
pub const DRESS_MATERIAL: &'static str = "DressMaterial";

/// The fallback skeleton of a bone list: the head part is the first bone
/// named `head.xModel`, if any.
pub open spec fn spec_fallback_skeleton(bones: Seq<FallbackBone>) -> Map<Seq<char>, usize> {
    match first_match(bones, HEAD_BONE@) {
        Some(k) => Map::<Seq<char>, usize>::empty().insert(HEAD_PART@, bones[k].index),
        None => Map::<Seq<char>, usize>::empty(),
    }
}

/// The game's state for showing other players.
pub struct Engine {
    fallback_bones: Vec<FallbackBone>,
    fallback_skeleton: Skeleton,
}

/// A new avatar to place in the world: where it stands, which way it faces
/// (the player's heading as sent, which the game turns by half a turn), and
/// its materials by name.
pub struct AvatarSpawn {
    pub position: Vec3Bits,
    pub heading: u32,
    pub materials: NamedTable<Material>,
}

impl Engine {
    /// The engine for a fallback model with the given bones (in the order
    /// its bone table is walked); the skeleton binds the head part.
    pub fn new(fallback_bones: Vec<FallbackBone>) -> (r: Engine)
        ensures
            r.bones() == fallback_bones@,
            r.skeleton()@ == spec_fallback_skeleton(fallback_bones@),
    {
        let mut bindings: Vec<(String, &str)> = Vec::new();
        bindings.push((HEAD_PART.to_owned(), HEAD_BONE));
        let fallback_skeleton = create_skeleton(bindings, fallback_bones.as_slice());
        proof {
            let b = bindings@;
            assert(b.len() == 1);
            assert(b[0].0@ == HEAD_PART@);
            assert(b[0].1@ == HEAD_BONE@);
            assert(spec_skeleton(b, fallback_bones@, 0) == Map::<Seq<char>, usize>::empty());
            assert(fallback_skeleton@ == spec_skeleton(b, fallback_bones@, 1));
            assert(fallback_skeleton@ =~= spec_fallback_skeleton(fallback_bones@));
        }
        Engine { fallback_bones, fallback_skeleton }
    }

    /// The fallback model's bones.
    pub closed spec fn bones(&self) -> Seq<FallbackBone> {
        self.fallback_bones@
    }

    /// The fallback model's bones.
    pub fn fallback_bones(&self) -> (r: &Vec<FallbackBone>)
        ensures
            r@ == self.bones(),
    {
        &self.fallback_bones
    }

    /// The fallback skeleton.
    pub closed spec fn skeleton(&self) -> Skeleton {
        self.fallback_skeleton
    }

    /// The fallback skeleton.
    pub fn fallback_skeleton(&self) -> (r: &Skeleton)
        ensures
            *r == self.skeleton(),
    {
        &self.fallback_skeleton
    }

    /// The bone that the fallback skeleton binds to the head part, if any.
    pub fn head_bone(&self) -> (r: Option<usize>)
        ensures
            match r {
                Some(b) => self.skeleton()@.contains_key(HEAD_PART@) && self.skeleton()@[HEAD_PART@] == b,
                None => !self.skeleton()@.contains_key(HEAD_PART@),
            },
    {
        match self.fallback_skeleton.get(HEAD_PART) {
            Some(b) => Some(*b),
            None => None,
        }
    }

    /// What a report from the network places in the world: a registered
    /// player gets a new avatar where the player stands, facing the player's
    /// heading, dressed in the fallback materials; a moved player places
    /// nothing here.
    pub fn avatar_spawn(&self, update: &AvatarUpdate) -> (r: Option<AvatarSpawn>)
        ensures
            match *update {
                AvatarUpdate::RegisterUser(t, _) => r is Some && r.unwrap().position == t.position
                    && r.unwrap().heading == t.rotation.y && avatar_materials_spec(r.unwrap().materials@),
                AvatarUpdate::SetUserPosition(_, _) => r is None,
            },
    {
        match update {
            AvatarUpdate::RegisterUser(t, _) => Some(
                AvatarSpawn { position: t.position, heading: t.rotation.y, materials: avatar_materials() },
            ),
            AvatarUpdate::SetUserPosition(_, _) => None,
        }
    }
}

/// The rotation of an avatar's head bone when its player is registered or
/// moved: the reported pitch and roll, with no turn of its own.
pub fn avatar_head_pose(update: &AvatarUpdate) -> (r: Vec3Bits)
    ensures
        match *update {
            AvatarUpdate::RegisterUser(t, _) => r == (Vec3Bits { x: t.rotation.x, y: 0, z: t.rotation.z }),
            AvatarUpdate::SetUserPosition(t, _) => r == (Vec3Bits { x: t.rotation.x, y: 0, z: t.rotation.z }),
        },
{
    match update {
        AvatarUpdate::RegisterUser(t, _) => Vec3Bits { x: t.rotation.x, y: 0, z: t.rotation.z },
        AvatarUpdate::SetUserPosition(t, _) => Vec3Bits { x: t.rotation.x, y: 0, z: t.rotation.z },
    }
}

/// The fallback avatar's materials: body, hair and dress, each a white
/// material with its texture.
pub open spec fn avatar_materials_spec(m: Map<Seq<char>, Material>) -> bool {
    &&& m.dom() == set![BODY_MATERIAL@, HAIRS_MATERIAL@, DRESS_MATERIAL@]
    &&& m[BODY_MATERIAL@].texture@ == BODY_TEXTURE@
    &&& m[HAIRS_MATERIAL@].texture@ == HAIRS_TEXTURE@
    &&& m[DRESS_MATERIAL@].texture@ == DRESS_TEXTURE@
    &&& forall|k: Seq<char>| #[trigger] m.contains_key(k) ==> m[k].displacement@.len() == 0 && m[k].image is None
        && m[k].color == (Vec3Bits { x: ONE_BITS, y: ONE_BITS, z: ONE_BITS })
}

/// The fallback avatar's materials by name.
pub fn avatar_materials() -> (r: NamedTable<Material>)
    ensures
        avatar_materials_spec(r@),
{
    proof {
        reveal_strlit("BodyMaterial");
        reveal_strlit("HairsMaterial");
        reveal_strlit("DressMaterial");
        assert(BODY_MATERIAL@.len() != HAIRS_MATERIAL@.len());
        assert(BODY_MATERIAL@.len() != DRESS_MATERIAL@.len());
        assert(HAIRS_MATERIAL@[0] != DRESS_MATERIAL@[0]);
    }
    let mut m: NamedTable<Material> = NamedTable::new();
    m.insert(BODY_MATERIAL.to_owned(), Material::from_texture(BODY_TEXTURE));
    m.insert(HAIRS_MATERIAL.to_owned(), Material::from_texture(HAIRS_TEXTURE));
    m.insert(DRESS_MATERIAL.to_owned(), Material::from_texture(DRESS_TEXTURE));
    proof {
        assert(m@.dom() =~= set![BODY_MATERIAL@, HAIRS_MATERIAL@, DRESS_MATERIAL@]);
    }
    m
}

/// What the renderer tells the network after handling a report: a newly
/// registered player's avatar is world object `world_len` (the next free
/// object); a move needs no answer.
pub fn avatar_reply(update: &AvatarUpdate, world_len: usize) -> (r: Option<UserUpdate>)
    ensures
        match *update {
            AvatarUpdate::RegisterUser(_, id) => r == Some(UserUpdate::UpdateAvatarId(id, world_len)),
            AvatarUpdate::SetUserPosition(_, _) => r is None,
        },
{
    match update {
        AvatarUpdate::RegisterUser(_, id) => Some(UserUpdate::UpdateAvatarId(*id, world_len)),
        AvatarUpdate::SetUserPosition(_, _) => None,
    }
}

} // verus!
