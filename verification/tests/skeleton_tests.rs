use caevern::engine::{avatar_head_pose, avatar_materials, avatar_reply, Engine};
use caevern::material::Material;
use caevern::network::avatar_updates::AvatarUpdate;
use caevern::network::user_updates::UserUpdate;
use caevern::skeleton::{create_skeleton, printable_chars, FallbackBone};
use caevern::table::NamedTable;
use caevern::transform::{Transform, Vec3Bits, ONE_BITS};

fn bone(index: usize, name: &str) -> FallbackBone {
    FallbackBone { index, transform: Transform::zero(), name: name.to_string(), parent: -1, attachment: 0 }
}

#[test]
fn skeleton_binds_the_first_matching_bone() {
    let bones = vec![bone(4, "neck\u{1f}"), bone(7, "head.xModel\0"), bone(9, "head.xModel")];
    let sk = create_skeleton(vec![("head".to_string(), "head.xModel"), ("neck".to_string(), "neck")], &bones);
    assert_eq!(sk.get("head"), Some(&7));
    assert_eq!(sk.get("neck"), Some(&4));
    assert_eq!(sk.get("arm"), None);
}

#[test]
fn unmatched_bindings_are_skipped_and_later_ones_win() {
    let bones = vec![bone(1, "a"), bone(2, "b")];
    let sk = create_skeleton(
        vec![("x".to_string(), "a"), ("y".to_string(), "zzz"), ("x".to_string(), "b")],
        &bones,
    );
    assert_eq!(sk.get("x"), Some(&2));
    assert_eq!(sk.get("y"), None);
}

#[test]
fn control_characters_are_dropped() {
    assert_eq!(printable_chars("a\u{0}b\u{1f} c\u{7f}"), vec!['a', 'b', ' ', 'c', '\u{7f}']);
    assert_eq!(printable_chars(""), Vec::<char>::new());
}

#[test]
fn table_keeps_the_last_value() {
    let mut t: NamedTable<u32> = NamedTable::new();
    t.insert("k".to_string(), 1);
    t.insert("j".to_string(), 2);
    t.insert("k".to_string(), 3);
    assert_eq!(t.get("k"), Some(&3));
    assert_eq!(t.get_by_chars(&vec!['j']), Some(&2));
    assert_eq!(t.get("q"), None);
    assert_eq!(t.entries().len(), 3);
}

#[test]
fn engine_binds_the_head() {
    let e = Engine::new(vec![bone(0, "root"), bone(5, "head.xModel")]);
    assert_eq!(e.fallback_skeleton().get("head"), Some(&5));
    assert_eq!(e.fallback_bones().len(), 2);
    assert_eq!(e.head_bone(), Some(5));
    let e = Engine::new(vec![bone(0, "root")]);
    assert_eq!(e.fallback_skeleton().get("head"), None);
    assert_eq!(e.head_bone(), None);
}

#[test]
fn head_pose_takes_pitch_and_roll() {
    let t = Transform::new(
        Vec3Bits { x: 1, y: 2, z: 3 },
        Vec3Bits { x: 4, y: 5, z: 6 },
        Vec3Bits::one(),
    );
    assert_eq!(avatar_head_pose(&AvatarUpdate::RegisterUser(t, 11)), Vec3Bits { x: 4, y: 0, z: 6 });
    assert_eq!(avatar_head_pose(&AvatarUpdate::SetUserPosition(t, 3)), Vec3Bits { x: 4, y: 0, z: 6 });
}

#[test]
fn registered_players_get_an_avatar() {
    let e = Engine::new(vec![]);
    let t = Transform::new(
        Vec3Bits { x: 1, y: 2, z: 3 },
        Vec3Bits { x: 4, y: 5, z: 6 },
        Vec3Bits::one(),
    );
    let spawn = e.avatar_spawn(&AvatarUpdate::RegisterUser(t, 11)).unwrap();
    assert_eq!(spawn.position, Vec3Bits { x: 1, y: 2, z: 3 });
    assert_eq!(spawn.heading, 5);
    assert_eq!(spawn.materials.get("BodyMaterial").unwrap().texture, "textures/CG_Body_Base_color.png");
    assert!(e.avatar_spawn(&AvatarUpdate::SetUserPosition(t, 3)).is_none());
    assert_eq!(avatar_reply(&AvatarUpdate::RegisterUser(t, 11), 42), Some(UserUpdate::UpdateAvatarId(11, 42)));
    assert_eq!(avatar_reply(&AvatarUpdate::SetUserPosition(t, 3), 42), None);
}

#[test]
fn avatar_materials_are_the_three_textures() {
    let m = avatar_materials();
    assert_eq!(m.get("HairsMaterial").unwrap().get_texture(), "textures/CG_Hairs_Base_color.png");
    assert_eq!(m.get("DressMaterial").unwrap().get_texture(), "textures/CG_Dress_Base_color.png");
    assert_eq!(m.get("BodyMaterial").unwrap().get_displacement(), None);
    let white = Vec3Bits { x: ONE_BITS, y: ONE_BITS, z: ONE_BITS };
    assert_eq!(m.get("BodyMaterial").unwrap().color, white);
    assert_eq!(m.get("HairsMaterial").unwrap().color, white);
    assert_eq!(m.get("DressMaterial").unwrap().color, white);
    assert_eq!(m.get("Other").map(|x| x.get_texture().to_string()), None);
}

#[test]
fn materials() {
    let mut m = Material::from_texture("textures/a.png");
    assert_eq!(m.get_texture(), "textures/a.png");
    assert_eq!(m.get_displacement(), None);
    assert_eq!(m.color, Vec3Bits { x: ONE_BITS, y: ONE_BITS, z: ONE_BITS });
    m.set_displacement("textures/d.png");
    assert_eq!(m.get_displacement(), Some("textures/d.png"));
    m.set_displacement("");
    assert_eq!(m.get_displacement(), None);
    let c = Material::from_color(Vec3Bits { x: 0, y: 1, z: 2 });
    assert_eq!(c.get_texture(), "");
    assert_eq!(c.color, Vec3Bits { x: 0, y: 1, z: 2 });
    assert!(c.image.is_none());
    let mut with_image = c.clone();
    with_image.set_image(Some(image::DynamicImage::new_rgba8(2, 2)));
    assert!(with_image.image.is_some());
    assert_eq!(with_image.get_texture(), "");
}
