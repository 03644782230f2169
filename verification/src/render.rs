//! The decisions of the renderer: which shader draws an object, how large
//! its bone buffer is, which textures a mesh part is drawn with, the order of
//! the commands that draw a frame, and which per-frame tasks run.

use vstd::prelude::*;

use crate::material::Material;
use crate::skeleton::{printable, printable_chars};
use crate::table::NamedTable;

verus! {

/// The two shaders of the renderer.
#[derive(Clone, Copy, Debug, PartialEq, Eq, Structural)]
pub enum ShaderType {
    Displacement,
    DisplacementBones,
}

/// The size in bytes of one bone matrix (sixteen single-precision numbers).
pub const MATRIX_BYTES: usize = 64usize;

/// The size in bytes of the bone buffer of an object without bones.
pub const EMPTY_BONE_BUFFER_BYTES: u64 = 16u64;

/// The size in bytes of an object's model uniform buffer (model and normal matrices).
pub const MODEL_UNIFORM_BYTES: u64 = 128u64;

/// The displacement map used when a material names none that is loaded.
pub const DEFAULT_DISPLACEMENT: &'static str = "textures/displacement.png";

/// The material used when a mesh part names none that the object has.
pub const DEFAULT_MATERIAL: &'static str = "default";

/// The texture shown where a texture is missing.
pub const MISSING_TEXTURE: &'static str = "textures/missing.png";

/// The texture of the menu tablet.
pub const TABLET_TEXTURE: &'static str = "textures/tablet.png";

/// The font whose glyph atlas is loaded as a texture.
pub const FONT_TEXTURE: &'static str = "fonts/NotoSansJP.ttf";

/// The textures that the renderer loads before any world: the missing-texture
/// image, the tablet, the default displacement map and the font atlas, in
/// that order.
pub fn default_textures() -> (r: Vec<String>)
    ensures
        r@.len() == 4,
        r@[0]@ == MISSING_TEXTURE@,
        r@[1]@ == TABLET_TEXTURE@,
        r@[2]@ == DEFAULT_DISPLACEMENT@,
        r@[3]@ == FONT_TEXTURE@,
{
    let mut r: Vec<String> = Vec::new();
    r.push(MISSING_TEXTURE.to_owned());
    r.push(TABLET_TEXTURE.to_owned());
    r.push(DEFAULT_DISPLACEMENT.to_owned());
    r.push(FONT_TEXTURE.to_owned());
    r
}

/// The surface is resized only to a size whose sides are both non-zero.
pub fn accepts_surface_size(width: u32, height: u32) -> (r: bool)
    ensures
        r == (width > 0 && height > 0),
{
    width > 0 && height > 0
}

/// An object with bones is drawn by the bone shader, others by the plain one.
pub fn shader_for(bone_count: usize) -> (r: ShaderType)
    ensures
        r == (if bone_count > 0 { ShaderType::DisplacementBones } else { ShaderType::Displacement }),
{
    if bone_count > 0 {
        ShaderType::DisplacementBones
    } else {
        ShaderType::Displacement
    }
}

/// The size in bytes of an object's bone buffer: one matrix per bone, or a
/// small placeholder for an object without bones.
pub fn bone_buffer_size(bone_count: usize) -> (r: u64)
    requires
        bone_count * 64 <= usize::MAX,
    ensures
        r == (if bone_count > 0 { bone_count * 64 } else { EMPTY_BONE_BUFFER_BYTES as int }),
{
    if bone_count > 0 {
        (bone_count * MATRIX_BYTES) as u64
    } else {
        EMPTY_BONE_BUFFER_BYTES
    }
}

// ---------------------------------------------------------------------------
// Drawing a frame.
// ---------------------------------------------------------------------------

/// A command of a frame's render pass.
#[derive(Clone, Copy, Debug, PartialEq, Eq, Structural)]
pub enum DrawCommand {
    /// Switch to the pipeline of a shader.
    SetPipeline(ShaderType),
    /// Draw part `part` of object `mesh`, which has `vertices` vertices.
    Draw { mesh: usize, part: usize, vertices: u32 },
}

/// The draw commands of the parts of object `m`.
pub open spec fn draws_of(m: int, parts: Seq<u32>) -> Seq<DrawCommand> {
    Seq::new(parts.len(), |i: int| DrawCommand::Draw { mesh: m as usize, part: i as usize, vertices: parts[i] })
}

/// The vertex counts of the parts of every object.
pub open spec fn parts_view(v: Seq<Vec<u32>>) -> Seq<Seq<u32>> {
    v.map_values(|p: Vec<u32>| p@)
}

/// The commands that draw the first `n` objects, and the pipeline in force
/// after them: the pass starts with the plain pipeline, switches pipeline
/// only when an object's shader differs from the one in force, and draws
/// each part of each object in order.
pub open spec fn spec_draw_plan(types: Seq<ShaderType>, parts: Seq<Seq<u32>>, n: nat) -> (Seq<DrawCommand>, ShaderType)
    decreases n,
{
    if n == 0 {
        (seq![DrawCommand::SetPipeline(ShaderType::Displacement)], ShaderType::Displacement)
    } else {
        let (c, cur) = spec_draw_plan(types, parts, (n - 1) as nat);
        let t = types[n - 1];
        let c2 = if t != cur {
            c.push(DrawCommand::SetPipeline(t))
        } else {
            c
        };
        (c2 + draws_of(n - 1, parts[n - 1]), t)
    }
}

/// The commands that draw a frame: `shader_types[m]` is the shader of object
/// `m`, and `num_vertices[m]` the vertex counts of its parts.
pub fn draw_plan(shader_types: &Vec<ShaderType>, num_vertices: &Vec<Vec<u32>>) -> (r: Vec<DrawCommand>)
    requires
        shader_types@.len() >= num_vertices@.len(),
    ensures
        r@ == spec_draw_plan(shader_types@, parts_view(num_vertices@), num_vertices@.len()).0,
{
    let ghost parts = parts_view(num_vertices@);
    let mut cmds: Vec<DrawCommand> = Vec::new();
    cmds.push(DrawCommand::SetPipeline(ShaderType::Displacement));
    let mut current = ShaderType::Displacement;
    let mut m: usize = 0;
    proof {
        assert(cmds@ =~= spec_draw_plan(shader_types@, parts, 0).0);
    }
    while m < num_vertices.len()
        invariant
            parts == parts_view(num_vertices@),
            shader_types@.len() >= num_vertices@.len(),
            m <= num_vertices@.len(),
            (cmds@, current) == spec_draw_plan(shader_types@, parts, m as nat),
        decreases num_vertices.len() - m,
    {
        let t = shader_types[m];
        if t != current {
            cmds.push(DrawCommand::SetPipeline(t));
            current = t;
        }
        let ghost base = cmds@;
        let part_counts = &num_vertices[m];
        let mut i: usize = 0;
        while i < part_counts.len()
            invariant
                parts == parts_view(num_vertices@),
                m < num_vertices@.len(),
                part_counts@ == parts[m as int],
                i <= part_counts@.len(),
                cmds@ =~= base + draws_of(m as int, part_counts@).take(i as int),
            decreases part_counts.len() - i,
        {
            cmds.push(DrawCommand::Draw { mesh: m, part: i, vertices: part_counts[i] });
            i = i + 1;
        }
        proof {
            assert(draws_of(m as int, part_counts@).take(i as int) =~= draws_of(m as int, part_counts@));
        }
        m = m + 1;
    }
    cmds
}

/// The pipeline in force before command `k`: the one that the last
/// `SetPipeline` before `k` chose.
pub open spec fn pipeline_before(cmds: Seq<DrawCommand>, k: int) -> ShaderType
    decreases k,
{
    if k <= 0 {
        ShaderType::Displacement
    } else {
        match cmds[k - 1] {
            DrawCommand::SetPipeline(t) => t,
            _ => pipeline_before(cmds, k - 1),
        }
    }
}

/// The pipeline in force before a command does not depend on later commands.
proof fn lemma_pipeline_prefix(c: Seq<DrawCommand>, d: Seq<DrawCommand>, k: int)
    requires
        0 <= k <= c.len(),
    ensures
        pipeline_before(c + d, k) == pipeline_before(c, k),
    decreases k,
{
    if k > 0 {
        assert((c + d)[k - 1] == c[k - 1]);
        lemma_pipeline_prefix(c, d, k - 1);
    }
}

/// Draw commands do not change the pipeline in force.
proof fn lemma_pipeline_over_draws(c: Seq<DrawCommand>, m: int, parts: Seq<u32>, k: int)
    requires
        c.len() <= k <= c.len() + parts.len(),
    ensures
        pipeline_before(c + draws_of(m, parts), k) == pipeline_before(c, c.len() as int),
    decreases k,
{
    if k > c.len() {
        let e = c + draws_of(m, parts);
        assert(e[k - 1] == draws_of(m, parts)[k - 1 - c.len()]);
        lemma_pipeline_over_draws(c, m, parts, k - 1);
    } else {
        lemma_pipeline_prefix(c, draws_of(m, parts), k);
    }
}

/// Every draw of object `m` runs under the pipeline of `types[m]`, for objects below `n`.
#[verifier::opaque]
pub open spec fn draws_ok(types: Seq<ShaderType>, c: Seq<DrawCommand>, n: nat) -> bool {
    forall|k: int|
        0 <= k < c.len() ==> (#[trigger] c[k] matches DrawCommand::Draw { mesh, .. } ==> mesh < n
            && pipeline_before(c, k) == types[mesh as int])
}

/// Every `SetPipeline` after the first chooses a pipeline other than the one in force.
#[verifier::opaque]
pub open spec fn switches_ok(c: Seq<DrawCommand>) -> bool {
    forall|k: int|
        1 <= k < c.len() ==> (#[trigger] c[k] matches DrawCommand::SetPipeline(t) ==> pipeline_before(c, k) != t)
}

/// Appending a switch to a pipeline other than the one in force keeps both properties.
proof fn lemma_append_switch(types: Seq<ShaderType>, c0: Seq<DrawCommand>, n: nat, t: ShaderType)
    requires
        c0.len() >= 1,
        draws_ok(types, c0, n),
        switches_ok(c0),
        pipeline_before(c0, c0.len() as int) != t,
    ensures
        draws_ok(types, c0.push(DrawCommand::SetPipeline(t)), n),
        switches_ok(c0.push(DrawCommand::SetPipeline(t))),
        pipeline_before(c0.push(DrawCommand::SetPipeline(t)), (c0.len() + 1) as int) == t,
{
    reveal(draws_ok);
    reveal(switches_ok);
    let c1 = c0.push(DrawCommand::SetPipeline(t));
    assert(c1 == c0 + seq![DrawCommand::SetPipeline(t)]);
    assert forall|k: int| 0 <= k <= c0.len() implies pipeline_before(c1, k) == pipeline_before(c0, k) by {
        lemma_pipeline_prefix(c0, seq![DrawCommand::SetPipeline(t)], k);
    }
    assert forall|k: int|
        0 <= k < c1.len() implies (#[trigger] c1[k] matches DrawCommand::Draw { mesh, .. } ==> mesh < n
        && pipeline_before(c1, k) == types[mesh as int]) by {
        if k < c0.len() {
            assert(c1[k] == c0[k]);
        }
    }
    assert forall|k: int|
        1 <= k < c1.len() implies (#[trigger] c1[k] matches DrawCommand::SetPipeline(s) ==> pipeline_before(
        c1,
        k,
    ) != s) by {
        if k < c0.len() {
            assert(c1[k] == c0[k]);
        }
    }
}

/// Appending the draws of object `m` under its own pipeline keeps both properties.
proof fn lemma_append_draws(types: Seq<ShaderType>, c1: Seq<DrawCommand>, n: nat, parts: Seq<u32>)
    requires
        1 <= n <= usize::MAX + 1,
        types.len() >= n,
        draws_ok(types, c1, (n - 1) as nat),
        switches_ok(c1),
        pipeline_before(c1, c1.len() as int) == types[n - 1],
    ensures
        draws_ok(types, c1 + draws_of(n - 1, parts), n),
        switches_ok(c1 + draws_of(n - 1, parts)),
        pipeline_before(c1 + draws_of(n - 1, parts), (c1.len() + parts.len()) as int) == types[n - 1],
{
    reveal(draws_ok);
    reveal(switches_ok);
    let d = draws_of(n - 1, parts);
    let c = c1 + d;
    lemma_pipeline_over_draws(c1, n - 1, parts, (c1.len() + parts.len()) as int);
    assert forall|k: int|
        0 <= k < c.len() implies (#[trigger] c[k] matches DrawCommand::Draw { mesh, .. } ==> mesh < n
        && pipeline_before(c, k) == types[mesh as int]) by {
        if k < c1.len() {
            assert(c[k] == c1[k]);
            lemma_pipeline_prefix(c1, d, k);
        } else {
            assert(c[k] == d[k - c1.len()]);
            lemma_pipeline_over_draws(c1, n - 1, parts, k);
        }
    }
    assert forall|k: int|
        1 <= k < c.len() implies (#[trigger] c[k] matches DrawCommand::SetPipeline(s) ==> pipeline_before(
        c,
        k,
    ) != s) by {
        if k < c1.len() {
            assert(c[k] == c1[k]);
            lemma_pipeline_prefix(c1, d, k);
        } else {
            assert(c[k] == d[k - c1.len()]);
        }
    }
}

/// A frame is drawn with each object's own shader, and switches pipeline
/// only when it must: every draw of object `m` runs under the pipeline of
/// `types[m]`, and every `SetPipeline` after the first chooses a pipeline
/// other than the one in force.
pub proof fn lemma_draw_plan_pipelines(types: Seq<ShaderType>, parts: Seq<Seq<u32>>, n: nat)
    requires
        types.len() >= n,
        parts.len() >= n,
        n <= usize::MAX,
    ensures
        ({
            let (c, cur) = spec_draw_plan(types, parts, n);
            &&& c.len() >= 1
            &&& pipeline_before(c, c.len() as int) == cur
            &&& draws_ok(types, c, n)
            &&& switches_ok(c)
        }),
    decreases n,
{
    if n == 0 {
        reveal(draws_ok);
        reveal(switches_ok);
        let (c, cur) = spec_draw_plan(types, parts, n);
        assert(pipeline_before(c, 1) == ShaderType::Displacement);
    } else {
        lemma_draw_plan_pipelines(types, parts, (n - 1) as nat);
        let (c0, cur0) = spec_draw_plan(types, parts, (n - 1) as nat);
        let t = types[n - 1];
        if t != cur0 {
            lemma_append_switch(types, c0, (n - 1) as nat, t);
            lemma_append_draws(types, c0.push(DrawCommand::SetPipeline(t)), n, parts[n - 1]);
        } else {
            lemma_append_draws(types, c0, n, parts[n - 1]);
        }
    }
}

/// A frame draws every part of every object exactly once, object by object
/// and part by part: the plan for `n` objects holds `Draw { mesh: m, part:
/// i, vertices: parts[m][i] }` for every object `m < n` and part `i` of it,
/// every draw in the plan is one of these, and the draws come in increasing
/// order of object, then part.
pub proof fn lemma_draw_plan_complete(types: Seq<ShaderType>, parts: Seq<Seq<u32>>, n: nat)
    requires
        types.len() >= n,
        parts.len() >= n,
        n <= usize::MAX,
        forall|m: int| 0 <= m < n ==> #[trigger] parts[m].len() <= usize::MAX,
    ensures
        ({
            let c = spec_draw_plan(types, parts, n).0;
            &&& forall|m: int, i: int|
                0 <= m < n && 0 <= i < parts[m].len() ==> c.contains(
                    DrawCommand::Draw { mesh: m as usize, part: i as usize, vertices: #[trigger] parts[m][i] },
                )
            &&& forall|k: int|
                0 <= k < c.len() ==> (#[trigger] c[k] matches DrawCommand::Draw { mesh, part, vertices } ==> mesh < n
                    && part < parts[mesh as int].len() && vertices == parts[mesh as int][part as int])
            &&& forall|k1: int, k2: int|
                0 <= k1 < k2 < c.len() ==> (#[trigger] c[k1] matches DrawCommand::Draw { mesh: m1, part: p1, .. } ==> (
                #[trigger] c[k2] matches DrawCommand::Draw { mesh: m2, part: p2, .. } ==> m1 < m2 || (m1 == m2 && p1
                    < p2)))
        }),
    decreases n,
{
    if n > 0 {
        lemma_draw_plan_complete(types, parts, (n - 1) as nat);
        let (c0, cur0) = spec_draw_plan(types, parts, (n - 1) as nat);
        let t = types[n - 1];
        let c1 = if t != cur0 {
            c0.push(DrawCommand::SetPipeline(t))
        } else {
            c0
        };
        let d = draws_of(n - 1, parts[n - 1]);
        let c = spec_draw_plan(types, parts, n).0;
        assert(c == c1 + d);
        assert forall|k: int| 0 <= k < c1.len() implies (#[trigger] c1[k] matches DrawCommand::Draw { mesh, part, vertices }
            ==> mesh < n - 1 && part < parts[mesh as int].len() && vertices == parts[mesh as int][part as int]) by {
            if k < c0.len() {
                assert(c1[k] == c0[k]);
            }
        }
        assert forall|m: int, i: int|
            0 <= m < n && 0 <= i < parts[m].len() implies c.contains(
                DrawCommand::Draw { mesh: m as usize, part: i as usize, vertices: #[trigger] parts[m][i] },
            ) by {
            if m < n - 1 {
                let k = choose|k: int|
                    0 <= k < c0.len() && c0[k] == DrawCommand::Draw { mesh: m as usize, part: i as usize, vertices: parts[m][i] };
                assert(c1[k] == c0[k]);
                assert(c[k] == c1[k]);
            } else {
                assert(c[c1.len() + i] == d[i]);
            }
        }
        assert forall|k: int|
            0 <= k < c.len() implies (#[trigger] c[k] matches DrawCommand::Draw { mesh, part, vertices } ==> mesh < n
                && part < parts[mesh as int].len() && vertices == parts[mesh as int][part as int]) by {
            if k < c1.len() {
                assert(c[k] == c1[k]);
            } else {
                assert(c[k] == d[k - c1.len()]);
            }
        }
        assert forall|k1: int, k2: int|
            0 <= k1 < k2 < c.len() implies (#[trigger] c[k1] matches DrawCommand::Draw { mesh: m1, part: p1, .. } ==> (
            #[trigger] c[k2] matches DrawCommand::Draw { mesh: m2, part: p2, .. } ==> m1 < m2 || (m1 == m2 && p1
                < p2))) by {
            if k2 < c1.len() {
                assert(c[k1] == c1[k1]);
                assert(c[k2] == c1[k2]);
                if k2 < c0.len() {
                    assert(c1[k1] == c0[k1]);
                    assert(c1[k2] == c0[k2]);
                }
            } else if k1 < c1.len() {
                assert(c[k1] == c1[k1]);
                assert(c[k2] == d[k2 - c1.len()]);
            } else {
                assert(c[k1] == d[k1 - c1.len()]);
                assert(c[k2] == d[k2 - c1.len()]);
            }
        }
    }
}

// ---------------------------------------------------------------------------
// Per-frame tasks.
// ---------------------------------------------------------------------------

/// Where the menu tablet is put this frame.
#[derive(Clone, Copy, Debug, PartialEq, Eq, Structural)]
pub enum TabletPlacement {
    /// In front of the camera (the tablet is opening).
    InFront,
    /// Out of sight below the world (the tablet is closing).
    Away,
    /// Where it was.
    Unchanged,
}

/// The tasks of one frame.
#[derive(Clone, Copy, Debug, PartialEq, Eq, Structural)]
pub struct FrameTasks {
    pub tablet: TabletPlacement,
    /// The local player's neck is hidden and the head bone updated (first 60 frames).
    pub hide_neck: bool,
    /// All bones of skinned meshes are recomputed.
    pub refresh_bones: bool,
    /// The camera looks for a grabbable object.
    pub grab_check: bool,
    /// The frame-rate and memory labels of the tablet are redrawn.
    pub refresh_labels: bool,
}

/// The tasks of frame number `frame` with the menu tablet in the given state.
pub fn frame_tasks(frame: usize, menu_tablet_state: usize) -> (r: FrameTasks)
    ensures
        r.tablet == (if menu_tablet_state == 2 {
            TabletPlacement::InFront
        } else if menu_tablet_state == 3 {
            TabletPlacement::Away
        } else {
            TabletPlacement::Unchanged
        }),
        r.hide_neck == (frame < 60),
        r.refresh_bones == (frame % 20 == 1),
        r.grab_check == (frame % 10 == 0),
        r.refresh_labels == (menu_tablet_state == 1 && frame % 60 == 0),
{
    let tablet = if menu_tablet_state == 2 {
        TabletPlacement::InFront
    } else if menu_tablet_state == 3 {
        TabletPlacement::Away
    } else {
        TabletPlacement::Unchanged
    };
    FrameTasks {
        tablet,
        hide_neck: frame < 60,
        refresh_bones: frame % 20 == 1,
        grab_check: frame % 10 == 0,
        refresh_labels: menu_tablet_state == 1 && frame % 60 == 0,
    }
}

// ---------------------------------------------------------------------------
// Choosing the textures of a mesh part.
// ---------------------------------------------------------------------------

/// Whether a texture of that name is loaded.
pub open spec fn has_texture(textures: Seq<String>, name: Seq<char>) -> bool {
    exists|i: int| 0 <= i < textures.len() && textures[i]@ == name
}

/// The material of a mesh part: the object's material named by the part
/// (without control characters), or else the object's default material.
pub open spec fn spec_material_for(part_material: Seq<char>, materials: Map<Seq<char>, Material>) -> Material {
    if materials.contains_key(printable(part_material)) {
        materials[printable(part_material)]
    } else {
        materials[DEFAULT_MATERIAL@]
    }
}

/// The textures that a mesh part is drawn with: its material's texture, and
/// the material's displacement map when it names a loaded one, or else the
/// default displacement map. `None` when the texture, or every displacement
/// map, is not loaded: the part is then not drawn.
pub open spec fn spec_select_textures(
    part_material: Seq<char>,
    materials: Map<Seq<char>, Material>,
    textures: Seq<String>,
) -> Option<(Seq<char>, Seq<char>)> {
    let m = spec_material_for(part_material, materials);
    if !has_texture(textures, m.texture@) {
        None
    } else if m.displacement@.len() > 0 && has_texture(textures, m.displacement@) {
        Some((m.texture@, m.displacement@))
    } else if has_texture(textures, DEFAULT_DISPLACEMENT@) {
        Some((m.texture@, DEFAULT_DISPLACEMENT@))
    } else {
        None
    }
}

/// A part is drawn only with loaded textures; with its own material when the
/// object has one of that name, and with that material's texture; with the
/// material's own displacement map whenever it names a loaded one; and it is
/// drawn whenever its texture and the default displacement map are loaded.
pub proof fn lemma_select_textures(part_material: Seq<char>, materials: Map<Seq<char>, Material>, textures: Seq<String>)
    ensures
        ({
            let m = if materials.contains_key(printable(part_material)) {
                materials[printable(part_material)]
            } else {
                materials[DEFAULT_MATERIAL@]
            };
            let r = spec_select_textures(part_material, materials, textures);
            &&& r matches Some((t, d)) ==> has_texture(textures, t) && has_texture(textures, d) && t == m.texture@
            &&& (r matches Some((t, d)) ==> (m.displacement@.len() > 0 && has_texture(textures, m.displacement@) ==> d
                == m.displacement@))
            &&& (r matches Some((t, d)) ==> (!(m.displacement@.len() > 0 && has_texture(textures, m.displacement@))
                ==> d == DEFAULT_DISPLACEMENT@))
            &&& (has_texture(textures, m.texture@) && has_texture(textures, DEFAULT_DISPLACEMENT@) ==> r is Some)
            &&& (!has_texture(textures, m.texture@) ==> r is None)
        }),
{
}

/// Whether a texture of that name is loaded.
pub fn texture_loaded(textures: &Vec<String>, name: &str) -> (r: bool)
    ensures
        r == has_texture(textures@, name@),
{
    let key = name.to_owned();
    let mut i: usize = 0;
    while i < textures.len()
        invariant
            key@ == name@,
            i <= textures@.len(),
            forall|j: int| 0 <= j < i ==> textures@[j]@ != name@,
        decreases textures.len() - i,
    {
        if textures[i] == key {
            return true;
        }
        i = i + 1;
    }
    false
}

/// The textures that a mesh part is drawn with, as (texture, displacement
/// map). The object must have the part's material or a default material.
pub fn select_textures(part_material: &str, materials: &NamedTable<Material>, textures: &Vec<String>) -> (r: Option<(String, String)>)
    requires
        materials@.contains_key(printable(part_material@)) || materials@.contains_key(DEFAULT_MATERIAL@),
    ensures
        match spec_select_textures(part_material@, materials@, textures@) {
            Some((t, d)) => r is Some && r.unwrap().0@ == t && r.unwrap().1@ == d,
            None => r is None,
        },
{
    let name = printable_chars(part_material);
    let material = match materials.get_by_chars(&name) {
        Some(m) => m,
        None => match materials.get(DEFAULT_MATERIAL) {
            Some(m) => m,
            None => {
                return None;
            },
        },
    };
    let texture = material.get_texture();
    if !texture_loaded(textures, texture) {
        return None;
    }
    match material.get_displacement() {
        Some(d) => {
            if texture_loaded(textures, d) {
                return Some((texture.to_owned(), d.to_owned()));
            }
        },
        None => {},
    }
    if texture_loaded(textures, DEFAULT_DISPLACEMENT) {
        Some((texture.to_owned(), DEFAULT_DISPLACEMENT.to_owned()))
    } else {
        None
    }
}

} // verus!
