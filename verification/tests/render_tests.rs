use caevern::bones::{affected_bones, ancestors, is_affected};
use caevern::material::Material;
use caevern::render::{
    accepts_surface_size, bone_buffer_size, draw_plan, frame_tasks, select_textures, shader_for, DrawCommand,
    ShaderType, TabletPlacement, DEFAULT_DISPLACEMENT,
};
use caevern::table::NamedTable;

#[test]
fn shader_and_bone_buffer_follow_the_bones() {
    assert_eq!(shader_for(0), ShaderType::Displacement);
    assert_eq!(shader_for(3), ShaderType::DisplacementBones);
    assert_eq!(bone_buffer_size(0), 16);
    assert_eq!(bone_buffer_size(1), 64);
    assert_eq!(bone_buffer_size(3), 192);
    assert!(accepts_surface_size(1, 1));
    assert!(!accepts_surface_size(0, 600));
    assert!(!accepts_surface_size(800, 0));
}

#[test]
fn pipelines_switch_only_on_change() {
    let types = vec![
        ShaderType::DisplacementBones,
        ShaderType::Displacement,
        ShaderType::Displacement,
        ShaderType::DisplacementBones,
    ];
    let parts = vec![vec![3, 6], vec![9], vec![], vec![12]];
    let plan = draw_plan(&types, &parts);
    assert_eq!(
        plan,
        vec![
            DrawCommand::SetPipeline(ShaderType::Displacement),
            DrawCommand::SetPipeline(ShaderType::DisplacementBones),
            DrawCommand::Draw { mesh: 0, part: 0, vertices: 3 },
            DrawCommand::Draw { mesh: 0, part: 1, vertices: 6 },
            DrawCommand::SetPipeline(ShaderType::Displacement),
            DrawCommand::Draw { mesh: 1, part: 0, vertices: 9 },
            DrawCommand::SetPipeline(ShaderType::DisplacementBones),
            DrawCommand::Draw { mesh: 3, part: 0, vertices: 12 },
        ]
    );
    assert_eq!(draw_plan(&vec![], &vec![]), vec![DrawCommand::SetPipeline(ShaderType::Displacement)]);
}

#[test]
fn frame_tasks_by_frame_number() {
    let t = frame_tasks(0, 2);
    assert_eq!(t.tablet, TabletPlacement::InFront);
    assert!(t.hide_neck && t.grab_check && !t.refresh_bones && !t.refresh_labels);
    let t = frame_tasks(21, 3);
    assert_eq!(t.tablet, TabletPlacement::Away);
    assert!(t.refresh_bones && !t.grab_check && t.hide_neck);
    let t = frame_tasks(120, 1);
    assert_eq!(t.tablet, TabletPlacement::Unchanged);
    assert!(t.refresh_labels && !t.hide_neck && t.grab_check && !t.refresh_bones);
    assert!(!frame_tasks(120, 0).refresh_labels);
    assert!(!frame_tasks(61, 1).refresh_labels);
}

fn materials() -> NamedTable<Material> {
    let mut m = NamedTable::new();
    m.insert("default".to_string(), Material::from_texture("textures/missing.png"));
    let mut body = Material::from_texture("textures/body.png");
    body.set_displacement("textures/body_disp.png");
    m.insert("Body".to_string(), body);
    m.insert("Glass".to_string(), Material::from_texture("textures/glass.png"));
    m
}

fn pair(a: &str, b: &str) -> Option<(String, String)> {
    Some((a.to_string(), b.to_string()))
}

#[test]
fn textures_of_mesh_parts() {
    let m = materials();
    let all = vec![
        "textures/missing.png".to_string(),
        "textures/body.png".to_string(),
        "textures/body_disp.png".to_string(),
        "textures/glass.png".to_string(),
        DEFAULT_DISPLACEMENT.to_string(),
    ];
    // control characters in the part's material name are dropped
    assert_eq!(select_textures("Bo\u{1}dy\0", &m, &all), pair("textures/body.png", "textures/body_disp.png"));
    // no displacement map: the default one
    assert_eq!(select_textures("Glass", &m, &all), pair("textures/glass.png", DEFAULT_DISPLACEMENT));
    // unknown material: the default material
    assert_eq!(select_textures("Wood", &m, &all), pair("textures/missing.png", DEFAULT_DISPLACEMENT));
    // the material's displacement map is not loaded: the default one
    let some = vec!["textures/body.png".to_string(), DEFAULT_DISPLACEMENT.to_string()];
    assert_eq!(select_textures("Body", &m, &some), pair("textures/body.png", DEFAULT_DISPLACEMENT));
    // texture not loaded, or no displacement map at all: not drawn
    assert_eq!(select_textures("Glass", &m, &some), None);
    let no_disp = vec!["textures/glass.png".to_string()];
    assert_eq!(select_textures("Glass", &m, &no_disp), None);
}

#[test]
fn ancestors_walk_up_to_the_root() {
    // 0 is the root; 1 and 2 hang from 0; 3 from 2; 4 from 3
    let parents = vec![-1i64, 0, 0, 2, 3];
    assert_eq!(ancestors(&parents, 4), vec![3, 2, 0]);
    assert_eq!(ancestors(&parents, 0), Vec::<usize>::new());
    assert!(is_affected(&parents, 4, 2));
    assert!(is_affected(&parents, 2, 2));
    assert!(!is_affected(&parents, 1, 2));
    assert_eq!(affected_bones(&parents, 2), vec![2, 3, 4]);
    assert_eq!(affected_bones(&parents, 0), vec![0, 1, 2, 3, 4]);
    assert_eq!(affected_bones(&parents, 9), Vec::<usize>::new());
}

#[test]
fn a_cycle_of_parents_gives_a_bounded_chain() {
    let parents = vec![1i64, 0, 1];
    assert_eq!(ancestors(&parents, 2), vec![1, 0, 1]);
    assert_eq!(ancestors(&parents, 0), vec![1, 0, 1]);
}

#[test]
fn default_textures_in_load_order() {
    assert_eq!(
        caevern::render::default_textures(),
        vec![
            "textures/missing.png".to_string(),
            "textures/tablet.png".to_string(),
            "textures/displacement.png".to_string(),
            "fonts/NotoSansJP.ttf".to_string(),
        ]
    );
}
