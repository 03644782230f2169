use caevern::network::avatar_updates::AvatarUpdate;
use caevern::network::user_authenticate::{auth_step, hello_message, AuthStep};
use caevern::network::user_handler::{coalesce_jobs, drains_queue, position_message, ServerOutcome, UserHandler};
use caevern::network::user_updates::UserUpdate;
use caevern::network::users::{Users, UsersOutcome};
use caevern::network::voice::{drain_frames, VoiceSignal, FRAME_SAMPLES};
use caevern::transform::{Transform, Vec3Bits, ONE_BITS};

fn v(x: f32, y: f32, z: f32) -> Vec3Bits {
    Vec3Bits { x: x.to_bits(), y: y.to_bits(), z: z.to_bits() }
}

fn record(out: &mut Vec<u8>, id: u32, p: [f32; 3], r: [f32; 3]) {
    out.extend_from_slice(&id.to_be_bytes());
    for c in p.iter().chain(r.iter()) {
        out.extend_from_slice(&c.to_be_bytes());
    }
}

fn player_list(records: &[(u32, [f32; 3], [f32; 3])]) -> Vec<u8> {
    let mut d = vec![3u8];
    for (id, p, r) in records {
        record(&mut d, *id, *p, *r);
    }
    d
}

fn expected_transform(p: [f32; 3], r: [f32; 3]) -> Transform {
    Transform { position: v(p[0], p[1], p[2]), rotation: v(r[0], r[1], r[2]), scale: Vec3Bits::one() }
}

#[test]
fn position_message_layout() {
    let t = Transform { position: v(1.0, 2.0, 3.0), rotation: v(0.5, -1.0, 0.0), scale: Vec3Bits::one() };
    let m = position_message(&t);
    let mut expected = vec![8u8];
    for c in [1.0f32, 2.0, 3.0, 0.5, -1.0, 0.0] {
        expected.extend_from_slice(&c.to_be_bytes());
    }
    assert_eq!(m, expected);
    assert_eq!(m.len(), 25);
}

#[test]
fn position_message_decodes_back() {
    let t = Transform { position: v(-7.25, 100.0, 0.125), rotation: v(3.0, 1.5, -2.0), scale: Vec3Bits::zero() };
    let m = position_message(&t);
    let w = |k: usize| u32::from_be_bytes([m[k], m[k + 1], m[k + 2], m[k + 3]]);
    assert_eq!(m[0], 8);
    assert_eq!(w(1), t.position.x);
    assert_eq!(w(5), t.position.y);
    assert_eq!(w(9), t.position.z);
    assert_eq!(w(13), t.rotation.x);
    assert_eq!(w(17), t.rotation.y);
    assert_eq!(w(21), t.rotation.z);
}

#[test]
fn newest_job_replaces_a_position_update() {
    let p1 = UserUpdate::SendUserPosition(Transform::zero());
    let p2 = UserUpdate::SendUserPosition(Transform::new(v(1.0, 1.0, 1.0), Vec3Bits::zero(), Vec3Bits::one()));
    assert!(drains_queue(&p1));
    assert!(!drains_queue(&UserUpdate::SendReadySignal));
    assert_eq!(coalesce_jobs(p1, vec![UserUpdate::SendReadySignal, p2]), p2);
    // the newest queued job wins whatever its kind
    assert_eq!(coalesce_jobs(p1, vec![p2, UserUpdate::UpdateAvatarId(4, 2)]), UserUpdate::UpdateAvatarId(4, 2));
    assert_eq!(coalesce_jobs(p1, vec![]), p1);
    assert_eq!(coalesce_jobs(UserUpdate::SendReadySignal, vec![p2]), UserUpdate::SendReadySignal);
}

#[test]
fn jobs_make_messages() {
    let mut h = UserHandler::new();
    assert_eq!(h.handle_job(UserUpdate::SendReadySignal), Some(vec![2u8]));
    assert_eq!(h.handle_job(UserUpdate::UpdateAvatarId(9, 4)), None);
    assert_eq!(h.object_of(9), Some(4));
    assert_eq!(h.object_of(10), None);
    let t = Transform::zero();
    assert_eq!(h.handle_job(UserUpdate::SendUserPosition(t)), Some(position_message(&t)));
}

#[test]
fn players_are_registered_once_then_moved() {
    let mut h = UserHandler::new();
    let list = player_list(&[(5, [1.0, 2.0, 3.0], [0.0, 0.5, 0.0]), (5, [1.0, 2.0, 3.0], [0.0, 0.5, 0.0])]);
    match h.handle_message(&list) {
        ServerOutcome::Players { updates, reply } => {
            assert_eq!(updates, vec![AvatarUpdate::RegisterUser(expected_transform([1.0, 2.0, 3.0], [0.0, 0.5, 0.0]), 5)]);
            assert_eq!(reply, vec![2u8]);
        },
        other => panic!("unexpected {:?}", other),
    }
    assert_eq!(h.object_of(5), Some(0));
    // known, avatar not created yet: skipped
    match h.handle_message(&list) {
        ServerOutcome::Players { updates, .. } => assert!(updates.is_empty()),
        other => panic!("unexpected {:?}", other),
    }
    // the game created object 7 for user 5
    h.handle_job(UserUpdate::UpdateAvatarId(5, 7));
    let moved = player_list(&[(5, [4.0, 0.0, 0.0], [0.0, 1.0, 0.0])]);
    match h.handle_message(&moved) {
        ServerOutcome::Players { updates, .. } => {
            assert_eq!(updates, vec![AvatarUpdate::SetUserPosition(expected_transform([4.0, 0.0, 0.0], [0.0, 1.0, 0.0]), 7)]);
        },
        other => panic!("unexpected {:?}", other),
    }
}

#[test]
fn partial_records_are_ignored() {
    let mut h = UserHandler::new();
    let mut list = player_list(&[(1, [0.0; 3], [0.0; 3])]);
    list.extend_from_slice(&[0, 0, 0, 2, 9, 9]);
    match h.handle_message(&list) {
        ServerOutcome::Players { updates, .. } => assert_eq!(updates.len(), 1),
        other => panic!("unexpected {:?}", other),
    }
    assert_eq!(h.object_of(2), None);
}

#[test]
fn other_server_messages() {
    let mut h = UserHandler::new();
    assert!(matches!(h.handle_message(&[]), ServerOutcome::Idle));
    assert!(matches!(h.handle_message(&[0, 1, 2]), ServerOutcome::Idle));
    assert!(matches!(h.handle_message(&[9]), ServerOutcome::Unknown(9)));
    assert!(matches!(h.handle_message(&[3]), ServerOutcome::Players { .. }));
}

#[test]
fn login_exchange() {
    assert_eq!(hello_message(), vec![1u8]);
    assert_eq!(auth_step(&[2, 0, 0, 1, 2]), AuthStep::Authenticated(258));
    assert_eq!(auth_step(&[2, 0xff, 0xff, 0xff, 0xff, 7]), AuthStep::Authenticated(u32::MAX));
    assert_eq!(auth_step(&[]), AuthStep::Ignored);
    assert_eq!(auth_step(&[5, 1]), AuthStep::Unknown(5));
}

#[test]
fn simple_thread_learns_its_id_and_registers_once() {
    let mut u = Users::new();
    assert_eq!(u.user_id(), 0);
    match u.handle_message(&[2, 0, 0, 0, 42]) {
        UsersOutcome::FreeId { user_id, reply } => {
            assert_eq!(user_id, 42);
            assert_eq!(reply, vec![2u8]);
        },
        other => panic!("unexpected {:?}", other),
    }
    assert_eq!(u.user_id(), 42);
    let list = player_list(&[(8, [1.0; 3], [0.0; 3]), (9, [0.0; 3], [0.0; 3]), (8, [0.0; 3], [0.0; 3])]);
    match u.handle_message(&list) {
        UsersOutcome::Players { updates, reply } => {
            assert_eq!(
                updates,
                vec![AvatarUpdate::RegisterUser(Transform::zero(), 8), AvatarUpdate::RegisterUser(Transform::zero(), 9)]
            );
            assert_eq!(reply, vec![2u8]);
        },
        other => panic!("unexpected {:?}", other),
    }
    match u.handle_message(&list) {
        UsersOutcome::Players { updates, .. } => assert!(updates.is_empty()),
        other => panic!("unexpected {:?}", other),
    }
    assert!(matches!(u.handle_message(&[7]), UsersOutcome::Unknown(7)));
    assert!(matches!(u.handle_message(&[0]), UsersOutcome::Idle));
    assert_eq!(u.user_id(), 42);
}

#[test]
fn audio_is_cut_into_whole_frames() {
    let mut buffer: Vec<u32> = (0..2000).collect();
    let frames = drain_frames(&mut buffer);
    assert_eq!(frames.len(), 2);
    assert_eq!(frames[0], (0..960).collect::<Vec<u32>>());
    assert_eq!(frames[1], (960..1920).collect::<Vec<u32>>());
    assert_eq!(buffer, (1920..2000).collect::<Vec<u32>>());
    let mut short: Vec<u32> = vec![1, 2, 3];
    assert!(drain_frames(&mut short).is_empty());
    assert_eq!(short, vec![1, 2, 3]);
    assert_eq!(FRAME_SAMPLES, 960);
}

#[test]
fn voice_signals_hold_their_text() {
    let s = VoiceSignal::Offer { sdp: "v=0".to_string() };
    match s {
        VoiceSignal::Offer { sdp } => assert_eq!(sdp, "v=0"),
        _ => panic!("wrong variant"),
    }
    assert!(matches!(VoiceSignal::IceCandidate { candidate: String::new() }, VoiceSignal::IceCandidate { .. }));
    assert!(matches!(VoiceSignal::Answer { sdp: String::new() }, VoiceSignal::Answer { .. }));
    let _ = ONE_BITS;
}
