//! The Caevern scene format (`.cae`).
//!
//! A file is the four bytes `CAEV`, a version word, a list of meshes and a
//! list of objects. All words are 32-bit little-endian; a name is a word
//! holding its length followed by that many bytes, read in ASCII lower case.
//!
//! A mesh is a vertex list (a count, then three floats per vertex) and an
//! index list (a count, then one word per index); the parsed mesh holds one
//! corner per index, the vertex that the index names. The `i`-th mesh is
//! filed under the key `<name>@<i>`.
//!
//! An object is a name, a position, a rotation (degrees) and a scale, then a
//! list of mesh instances. An instance is a mesh key; when a mesh with that
//! key exists, the key is followed by the instance's position, rotation and
//! scale, and otherwise by nothing at all.

use vstd::prelude::*;
use vstd::utf8::valid_utf8;

use crate::transform::Vec3Bits;
use crate::wire::{le_word, u32_from_le};

verus! {

/// Why a scene file could not be read.
#[derive(Clone, Copy, Debug, PartialEq, Eq, Structural)]
pub enum CaeError {
    /// The data ends before a value that the format requires.
    Truncated,
    /// The data does not start with `CAEV`.
    NotCaevern,
    /// A name is not valid UTF-8.
    InvalidName,
    /// A triangle index names a vertex that the mesh does not have.
    VertexIndexOutOfRange,
}

// ---------------------------------------------------------------------------
// The format, as spec functions over the bytes and a read position.
// ---------------------------------------------------------------------------

/// The little-endian word at `pos`.
pub open spec fn word_at(data: Seq<u8>, pos: int) -> u32 {
    le_word(data[pos], data[pos + 1], data[pos + 2], data[pos + 3]) as u32
}

/// The three words at `pos`, as a vector.
pub open spec fn vec3_at(data: Seq<u8>, pos: int) -> Vec3Bits {
    Vec3Bits { x: word_at(data, pos), y: word_at(data, pos + 4), z: word_at(data, pos + 8) }
}

/// ASCII lower case of one byte; other bytes are kept.
pub open spec fn lower(b: u8) -> u8 {
    if 65 <= b <= 90 {
        (b + 32) as u8
    } else {
        b
    }
}

/// The decimal digits of `n`, as ASCII bytes, without leading zeros.
pub open spec fn decimal(n: nat) -> Seq<u8>
    decreases n,
{
    if n < 10 {
        seq![(48 + n) as u8]
    } else {
        decimal(n / 10).push((48 + n % 10) as u8)
    }
}

/// The key under which the mesh with the given name and position in the file is filed.
pub open spec fn mesh_key(name: Seq<u8>, i: nat) -> Seq<u8> {
    name + seq![64u8] + decimal(i)
}

/// A word.
pub open spec fn spec_word(data: Seq<u8>, pos: int) -> Result<(u32, int), CaeError> {
    if 0 <= pos && pos + 4 <= data.len() {
        Ok((word_at(data, pos), pos + 4))
    } else {
        Err(CaeError::Truncated)
    }
}

/// The `k`-th word of a list of words that starts at `base`.
pub open spec fn word_in_list(data: Seq<u8>, base: int, k: int) -> u32 {
    word_at(data, base + 4 * k)
}

/// A vector of three floats.
pub open spec fn spec_vec3(data: Seq<u8>, pos: int) -> Result<(Vec3Bits, int), CaeError> {
    if 0 <= pos && pos + 12 <= data.len() {
        Ok((vec3_at(data, pos), pos + 12))
    } else {
        Err(CaeError::Truncated)
    }
}

/// A name: its length, then its bytes in lower case, which must be UTF-8.
pub open spec fn spec_name(data: Seq<u8>, pos: int) -> Result<(Seq<u8>, int), CaeError> {
    match spec_word(data, pos) {
        Err(e) => Err(e),
        Ok((n, p)) => if p + n > data.len() {
            Err(CaeError::Truncated)
        } else {
            let name = Seq::new(n as nat, |k: int| lower(data[p + k]));
            if valid_utf8(name) {
                Ok((name, p + n))
            } else {
                Err(CaeError::InvalidName)
            }
        },
    }
}

/// A mesh: its vertices and indices, giving one corner per index.
pub open spec fn spec_mesh(data: Seq<u8>, pos: int) -> Result<(Seq<Vec3Bits>, int), CaeError> {
    match spec_word(data, pos) {
        Err(e) => Err(e),
        Ok((vc, p1)) => if p1 + 12 * vc > data.len() {
            Err(CaeError::Truncated)
        } else {
            let p2 = p1 + 12 * vc;
            match spec_word(data, p2) {
                Err(e) => Err(e),
                Ok((ic, p3)) => if p3 + 4 * ic > data.len() {
                    Err(CaeError::Truncated)
                } else if exists|k: int| 0 <= k < ic && #[trigger] word_in_list(data, p3, k) >= vc {
                    Err(CaeError::VertexIndexOutOfRange)
                } else {
                    Ok(
                        (
                            Seq::new(ic as nat, |k: int| vec3_at(data, p1 + 12 * word_in_list(data, p3, k))),
                            p3 + 4 * ic,
                        ),
                    )
                },
            }
        },
    }
}

/// A mesh of a parsed file.
pub struct SpecMesh {
    pub key: Seq<u8>,
    pub corners: Seq<Vec3Bits>,
}

/// The first `n` meshes of the mesh list.
pub open spec fn spec_meshes(data: Seq<u8>, pos: int, n: nat) -> Result<(Seq<SpecMesh>, int), CaeError>
    decreases n,
{
    if n == 0 {
        Ok((seq![], pos))
    } else {
        match spec_meshes(data, pos, (n - 1) as nat) {
            Err(e) => Err(e),
            Ok((ms, p)) => match spec_name(data, p) {
                Err(e) => Err(e),
                Ok((name, p2)) => match spec_mesh(data, p2) {
                    Err(e) => Err(e),
                    Ok((corners, p3)) => Ok(
                        (ms.push(SpecMesh { key: mesh_key(name, (n - 1) as nat), corners }), p3),
                    ),
                },
            },
        }
    }
}

/// The position of the first mesh filed under `key`, if any.
pub open spec fn first_with_key(ms: Seq<SpecMesh>, key: Seq<u8>) -> Option<int> {
    if exists|k: int| 0 <= k < ms.len() && ms[k].key == key {
        Some(
            choose|k: int|
                0 <= k < ms.len() && ms[k].key == key && forall|j: int| 0 <= j < k ==> ms[j].key != key,
        )
    } else {
        None
    }
}

/// Where a resolved mesh instance stands.
pub struct SpecPlacement {
    pub mesh: int,
    pub position: Vec3Bits,
    pub rotation: Vec3Bits,
    pub scale: Vec3Bits,
}

/// A mesh instance of an object.
pub struct SpecInstance {
    pub key: Seq<u8>,
    pub placement: Option<SpecPlacement>,
}

/// A mesh instance: a key, and a placement when a mesh has that key.
pub open spec fn spec_instance(data: Seq<u8>, pos: int, ms: Seq<SpecMesh>) -> Result<(SpecInstance, int), CaeError> {
    match spec_name(data, pos) {
        Err(e) => Err(e),
        Ok((key, p1)) => match first_with_key(ms, key) {
            None => Ok((SpecInstance { key, placement: None }, p1)),
            Some(m) => match spec_vec3(data, p1) {
                Err(e) => Err(e),
                Ok((position, p2)) => match spec_vec3(data, p2) {
                    Err(e) => Err(e),
                    Ok((rotation, p3)) => match spec_vec3(data, p3) {
                        Err(e) => Err(e),
                        Ok((scale, p4)) => Ok(
                            (
                                SpecInstance {
                                    key,
                                    placement: Some(SpecPlacement { mesh: m, position, rotation, scale }),
                                },
                                p4,
                            ),
                        ),
                    },
                },
            },
        },
    }
}

/// The first `n` instances of an instance list.
pub open spec fn spec_instances(data: Seq<u8>, pos: int, n: nat, ms: Seq<SpecMesh>) -> Result<(Seq<SpecInstance>, int), CaeError>
    decreases n,
{
    if n == 0 {
        Ok((seq![], pos))
    } else {
        match spec_instances(data, pos, (n - 1) as nat, ms) {
            Err(e) => Err(e),
            Ok((is, p)) => match spec_instance(data, p, ms) {
                Err(e) => Err(e),
                Ok((i, p2)) => Ok((is.push(i), p2)),
            },
        }
    }
}

/// An object of a parsed file.
pub struct SpecObject {
    pub name: Seq<u8>,
    pub position: Vec3Bits,
    pub rotation: Vec3Bits,
    pub scale: Vec3Bits,
    pub instances: Seq<SpecInstance>,
}

/// The instance list of an object: a count, then that many instances.
pub open spec fn spec_object_data(data: Seq<u8>, pos: int, ms: Seq<SpecMesh>) -> Result<(Seq<SpecInstance>, int), CaeError> {
    match spec_word(data, pos) {
        Err(e) => Err(e),
        Ok((n, p)) => spec_instances(data, p, n as nat, ms),
    }
}

/// An object: name, position, rotation, scale and its mesh instances.
pub open spec fn spec_object(data: Seq<u8>, pos: int, ms: Seq<SpecMesh>) -> Result<(SpecObject, int), CaeError> {
    match spec_name(data, pos) {
        Err(e) => Err(e),
        Ok((name, p1)) => match spec_vec3(data, p1) {
            Err(e) => Err(e),
            Ok((position, p2)) => match spec_vec3(data, p2) {
                Err(e) => Err(e),
                Ok((rotation, p3)) => match spec_vec3(data, p3) {
                    Err(e) => Err(e),
                    Ok((scale, p4)) => match spec_object_data(data, p4, ms) {
                        Err(e) => Err(e),
                        Ok((instances, p5)) => Ok(
                            (SpecObject { name, position, rotation, scale, instances }, p5),
                        ),
                    },
                },
            },
        },
    }
}

/// The first `n` objects of the object list.
pub open spec fn spec_objects(data: Seq<u8>, pos: int, n: nat, ms: Seq<SpecMesh>) -> Result<(Seq<SpecObject>, int), CaeError>
    decreases n,
{
    if n == 0 {
        Ok((seq![], pos))
    } else {
        match spec_objects(data, pos, (n - 1) as nat, ms) {
            Err(e) => Err(e),
            Ok((os, p)) => match spec_object(data, p, ms) {
                Err(e) => Err(e),
                Ok((o, p2)) => Ok((os.push(o), p2)),
            },
        }
    }
}

/// A parsed scene file.
pub struct SpecScene {
    pub version: u32,
    pub meshes: Seq<SpecMesh>,
    pub objects: Seq<SpecObject>,
}

/// The magic bytes `CAEV` that open every scene file.
pub open spec fn magic() -> Seq<u8> {
    seq![67u8, 65u8, 69u8, 86u8]
}

/// A whole scene file; bytes after the last object are not read.
pub open spec fn spec_scene(data: Seq<u8>) -> Result<SpecScene, CaeError> {
    if data.len() < 4 {
        Err(CaeError::Truncated)
    } else if data.take(4) != magic() {
        Err(CaeError::NotCaevern)
    } else {
        match spec_word(data, 4) {
            Err(e) => Err(e),
            Ok((version, p1)) => match spec_word(data, p1) {
                Err(e) => Err(e),
                Ok((mc, p2)) => match spec_meshes(data, p2, mc as nat) {
                    Err(e) => Err(e),
                    Ok((meshes, p3)) => match spec_word(data, p3) {
                        Err(e) => Err(e),
                        Ok((oc, p4)) => match spec_objects(data, p4, oc as nat, meshes) {
                            Err(e) => Err(e),
                            Ok((objects, _p5)) => Ok(SpecScene { version, meshes, objects }),
                        },
                    },
                },
            },
        }
    }
}

// ---------------------------------------------------------------------------
// Parsed values.
// ---------------------------------------------------------------------------

/// A mesh: its key and one corner per triangle index.
pub struct Mesh {
    pub key: Vec<u8>,
    pub corners: Vec<Vec3Bits>,
}

impl View for Mesh {
    type V = SpecMesh;

    open spec fn view(&self) -> SpecMesh {
        SpecMesh { key: self.key@, corners: self.corners@ }
    }
}

/// Where a resolved mesh instance stands; `mesh` is the mesh's position in the file.
#[derive(Clone, Copy, Debug, PartialEq, Eq, Structural)]
pub struct Placement {
    pub mesh: usize,
    pub position: Vec3Bits,
    pub rotation: Vec3Bits,
    pub scale: Vec3Bits,
}

/// A mesh instance of an object.
pub struct MeshInstance {
    pub key: Vec<u8>,
    pub placement: Option<Placement>,
}

pub open spec fn placement_view(p: Option<Placement>) -> Option<SpecPlacement> {
    match p {
        None => None,
        Some(p) => Some(
            SpecPlacement { mesh: p.mesh as int, position: p.position, rotation: p.rotation, scale: p.scale },
        ),
    }
}

impl View for MeshInstance {
    type V = SpecInstance;

    open spec fn view(&self) -> SpecInstance {
        SpecInstance { key: self.key@, placement: placement_view(self.placement) }
    }
}

/// An object of a scene file; its rotation is in degrees, as in the file.
pub struct SceneObject {
    pub name: Vec<u8>,
    pub position: Vec3Bits,
    pub rotation: Vec3Bits,
    pub scale: Vec3Bits,
    pub instances: Vec<MeshInstance>,
}

pub open spec fn instances_view(v: Seq<MeshInstance>) -> Seq<SpecInstance> {
    v.map_values(|i: MeshInstance| i@)
}

impl View for SceneObject {
    type V = SpecObject;

    open spec fn view(&self) -> SpecObject {
        SpecObject {
            name: self.name@,
            position: self.position,
            rotation: self.rotation,
            scale: self.scale,
            instances: instances_view(self.instances@),
        }
    }
}

pub open spec fn meshes_view(v: Seq<Mesh>) -> Seq<SpecMesh> {
    v.map_values(|m: Mesh| m@)
}

pub open spec fn objects_view(v: Seq<SceneObject>) -> Seq<SpecObject> {
    v.map_values(|o: SceneObject| o@)
}

/// A parsed scene file.
pub struct Scene {
    pub version: u32,
    pub meshes: Vec<Mesh>,
    pub objects: Vec<SceneObject>,
}

impl View for Scene {
    type V = SpecScene;

    open spec fn view(&self) -> SpecScene {
        SpecScene { version: self.version, meshes: meshes_view(self.meshes@), objects: objects_view(self.objects@) }
    }
}

// ---------------------------------------------------------------------------
// Reading.
// ---------------------------------------------------------------------------

/// A read position in a byte buffer.
pub struct ByteReader<'a> {
    data: &'a [u8],
    pos: usize,
}

impl<'a> ByteReader<'a> {
    #[verifier::type_invariant]
    spec fn inv(self) -> bool {
        self.pos <= self.data@.len()
    }

    /// The bytes being read.
    pub closed spec fn bytes(self) -> Seq<u8> {
        self.data@
    }

    /// The read position.
    pub closed spec fn position(self) -> int {
        self.pos as int
    }

    /// A reader at the start of `data`.
    pub fn new(data: &'a [u8]) -> (r: ByteReader<'a>)
        ensures
            r.bytes() == data@,
            r.position() == 0,
    {
        ByteReader { data, pos: 0 }
    }

    /// The read position.
    pub fn pos(&self) -> (r: usize)
        ensures
            r == self.position(),
            r <= self.bytes().len(),
    {
        proof {
            use_type_invariant(self);
        }
        self.pos
    }
}

/// `res` is what `spec` says, and the reader has moved to where `spec` ends;
/// on an error the reader's position is left unsaid.
pub open spec fn reads<T, V>(
    spec: Result<(V, int), CaeError>,
    res: Result<T, CaeError>,
    view: spec_fn(T) -> V,
    end: int,
) -> bool {
    match res {
        Ok(v) => spec == Ok::<(V, int), CaeError>((view(v), end)),
        Err(e) => spec == Err::<(V, int), CaeError>(e),
    }
}

/// Whether `bytes` are valid UTF-8 (`std::str::from_utf8` accepts them).
#[verifier::external_body]
fn is_utf8(bytes: &[u8]) -> (r: bool)
    ensures
        r == valid_utf8(bytes@),
{
    std::str::from_utf8(bytes).is_ok()
}

/// Reads a little-endian word.
pub fn read_u32(reader: &mut ByteReader) -> (res: Result<u32, CaeError>)
    ensures
        final(reader).bytes() == old(reader).bytes(),
        reads(spec_word(old(reader).bytes(), old(reader).position()), res, |v: u32| v, final(reader).position()),
{
    proof {
        use_type_invariant(&*reader);
    }
    let p = reader.pos;
    let d = reader.data;
    if d.len() - p < 4 {
        return Err(CaeError::Truncated);
    }
    let v = u32_from_le(d[p], d[p + 1], d[p + 2], d[p + 3]);
    reader.pos = p + 4;
    Ok(v)
}

/// Reads a single-precision number, as its bit pattern.
pub fn read_f32_bits(reader: &mut ByteReader) -> (res: Result<u32, CaeError>)
    ensures
        final(reader).bytes() == old(reader).bytes(),
        reads(spec_word(old(reader).bytes(), old(reader).position()), res, |v: u32| v, final(reader).position()),
{
    read_u32(reader)
}

/// Reads three single-precision numbers.
pub fn read_vec3(reader: &mut ByteReader) -> (res: Result<Vec3Bits, CaeError>)
    ensures
        final(reader).bytes() == old(reader).bytes(),
        reads(spec_vec3(old(reader).bytes(), old(reader).position()), res, |v: Vec3Bits| v, final(reader).position()),
{
    proof {
        use_type_invariant(&*reader);
    }
    if reader.data.len() - reader.pos < 12 {
        return Err(CaeError::Truncated);
    }
    let x = read_f32_bits(reader)?;
    let y = read_f32_bits(reader)?;
    let z = read_f32_bits(reader)?;
    Ok(Vec3Bits { x, y, z })
}

/// The ASCII lower case of one byte.
pub fn to_ascii_lower(b: u8) -> (r: u8)
    ensures
        r == lower(b),
{
    if 65 <= b && b <= 90 {
        b + 32
    } else {
        b
    }
}

/// Reads a name: its length, then its bytes, in ASCII lower case.
pub fn read_string(reader: &mut ByteReader) -> (res: Result<Vec<u8>, CaeError>)
    ensures
        final(reader).bytes() == old(reader).bytes(),
        reads(spec_name(old(reader).bytes(), old(reader).position()), res, |v: Vec<u8>| v@, final(reader).position()),
{
    let n = read_u32(reader)?;
    proof {
        use_type_invariant(&*reader);
    }
    let p = reader.pos;
    let d = reader.data;
    if (n as u64) > ((d.len() - p) as u64) {
        return Err(CaeError::Truncated);
    }
    let n = n as usize;
    let mut out: Vec<u8> = Vec::new();
    let mut k: usize = 0;
    while k < n
        invariant
            p + n <= d.len(),
            k <= n,
            out@ =~= Seq::new(k as nat, |j: int| lower(d@[p + j])),
        decreases n - k,
    {
        out.push(to_ascii_lower(d[p + k]));
        k = k + 1;
    }
    if !is_utf8(out.as_slice()) {
        return Err(CaeError::InvalidName);
    }
    reader.pos = p + n;
    Ok(out)
}

/// Reads a mesh: its vertices, then its triangle indices; the result holds
/// one corner per index, the vertex that the index names.
pub fn read_mesh(reader: &mut ByteReader) -> (res: Result<Vec<Vec3Bits>, CaeError>)
    ensures
        final(reader).bytes() == old(reader).bytes(),
        reads(spec_mesh(old(reader).bytes(), old(reader).position()), res, |v: Vec<Vec3Bits>| v@, final(reader).position()),
{
    let ghost d = reader.bytes();
    let ghost start = reader.position();
    let vc = read_u32(reader)?;
    proof {
        use_type_invariant(&*reader);
    }
    let p1 = reader.pos;
    if (vc as u64) * 12 > ((reader.data.len() - p1) as u64) {
        return Err(CaeError::Truncated);
    }
    let vcu = vc as usize;
    let mut vertices: Vec<Vec3Bits> = Vec::new();
    let mut k: usize = 0;
    while k < vcu
        invariant
            reader.bytes() == d,
            d == old(reader).bytes(),
            start == old(reader).position(),
            spec_word(d, start) == Ok::<(u32, int), CaeError>((vc, p1 as int)),
            p1 + 12 * vcu <= d.len(),
            vcu == vc,
            k <= vcu,
            reader.position() == p1 + 12 * k,
            vertices@ =~= Seq::new(k as nat, |j: int| vec3_at(d, p1 + 12 * j)),
        decreases vcu - k,
    {
        let v = read_vec3(reader)?;
        vertices.push(v);
        k = k + 1;
    }
    let ic = read_u32(reader)?;
    proof {
        use_type_invariant(&*reader);
    }
    let p3 = reader.pos;
    if (ic as u64) * 4 > ((reader.data.len() - p3) as u64) {
        return Err(CaeError::Truncated);
    }
    let icu = ic as usize;
    let mut corners: Vec<Vec3Bits> = Vec::new();
    let mut k: usize = 0;
    while k < icu
        invariant
            reader.bytes() == d,
            d == old(reader).bytes(),
            start == old(reader).position(),
            spec_word(d, start) == Ok::<(u32, int), CaeError>((vc, p1 as int)),
            spec_word(d, p1 + 12 * vc) == Ok::<(u32, int), CaeError>((ic, p3 as int)),
            p1 + 12 * vc <= d.len(),
            p3 + 4 * icu <= d.len(),
            icu == ic,
            k <= icu,
            reader.position() == p3 + 4 * k,
            vertices@ == Seq::new(vc as nat, |j: int| vec3_at(d, p1 + 12 * j)),
            forall|j: int| 0 <= j < k ==> #[trigger] word_in_list(d, p3 as int, j) < vc,
            corners@ =~= Seq::new(k as nat, |j: int| vec3_at(d, p1 + 12 * word_in_list(d, p3 as int, j))),
        decreases icu - k,
    {
        let idx = read_u32(reader)?;
        assert(idx == word_in_list(d, p3 as int, k as int));
        if idx >= vc {
            assert(word_in_list(d, p3 as int, k as int) >= vc);
            return Err(CaeError::VertexIndexOutOfRange);
        }
        corners.push(vertices[idx as usize]);
        k = k + 1;
    }
    Ok(corners)
}

/// The decimal digits of `n`, as ASCII bytes.
pub fn decimal_bytes(n: u32) -> (r: Vec<u8>)
    ensures
        r@ == decimal(n as nat),
    decreases n,
{
    if n < 10 {
        let mut r: Vec<u8> = Vec::new();
        r.push(48 + n as u8);
        proof {
            assert(r@ =~= decimal(n as nat));
        }
        r
    } else {
        let mut r = decimal_bytes(n / 10);
        r.push(48 + (n % 10) as u8);
        r
    }
}

/// The key `<name>@<i>` of the `i`-th mesh.
pub fn make_mesh_key(name: Vec<u8>, i: u32) -> (r: Vec<u8>)
    ensures
        r@ == mesh_key(name@, i as nat),
{
    let mut key = name;
    key.push(64u8);
    let digits = decimal_bytes(i);
    let mut k: usize = 0;
    let ghost start = key@;
    while k < digits.len()
        invariant
            k <= digits@.len(),
            key@ =~= start + digits@.take(k as int),
        decreases digits.len() - k,
    {
        key.push(digits[k]);
        k = k + 1;
    }
    proof {
        assert(digits@.take(digits@.len() as int) =~= digits@);
    }
    key
}

/// A failure in the first `n` meshes is the failure of the whole list.
proof fn lemma_meshes_error(data: Seq<u8>, pos: int, n: nat, m: nat)
    requires
        n <= m,
        spec_meshes(data, pos, n) is Err,
    ensures
        spec_meshes(data, pos, m) == spec_meshes(data, pos, n),
    decreases m,
{
    if m > n {
        lemma_meshes_error(data, pos, n, (m - 1) as nat);
    }
}

/// A failure in the first `n` instances is the failure of the whole list.
proof fn lemma_instances_error(data: Seq<u8>, pos: int, n: nat, m: nat, ms: Seq<SpecMesh>)
    requires
        n <= m,
        spec_instances(data, pos, n, ms) is Err,
    ensures
        spec_instances(data, pos, m, ms) == spec_instances(data, pos, n, ms),
    decreases m,
{
    if m > n {
        lemma_instances_error(data, pos, n, (m - 1) as nat, ms);
    }
}

/// A failure in the first `n` objects is the failure of the whole list.
proof fn lemma_objects_error(data: Seq<u8>, pos: int, n: nat, m: nat, ms: Seq<SpecMesh>)
    requires
        n <= m,
        spec_objects(data, pos, n, ms) is Err,
    ensures
        spec_objects(data, pos, m, ms) == spec_objects(data, pos, n, ms),
    decreases m,
{
    if m > n {
        lemma_objects_error(data, pos, n, (m - 1) as nat, ms);
    }
}

/// Reads the mesh list of a file, `count` meshes, filing the `i`-th under `<name>@<i>`.
pub fn read_meshes(reader: &mut ByteReader, count: u32) -> (res: Result<Vec<Mesh>, CaeError>)
    ensures
        final(reader).bytes() == old(reader).bytes(),
        reads(
            spec_meshes(old(reader).bytes(), old(reader).position(), count as nat),
            res,
            |v: Vec<Mesh>| meshes_view(v@),
            final(reader).position(),
        ),
{
    let ghost d = reader.bytes();
    let ghost start = reader.position();
    let mut meshes: Vec<Mesh> = Vec::new();
    let mut i: u32 = 0;
    assert(meshes_view(meshes@) =~= Seq::<SpecMesh>::empty());
    while i < count
        invariant
            reader.bytes() == d,
            d == old(reader).bytes(),
            start == old(reader).position(),
            meshes@.len() == i,
            i <= count,
            spec_meshes(d, start, i as nat) == Ok::<(Seq<SpecMesh>, int), CaeError>(
                (meshes_view(meshes@), reader.position()),
            ),
        decreases count - i,
    {
        let name = match read_string(reader) {
            Ok(name) => name,
            Err(e) => {
                proof {
                    lemma_meshes_error(d, start, (i + 1) as nat, count as nat);
                }
                return Err(e);
            },
        };
        let corners = match read_mesh(reader) {
            Ok(corners) => corners,
            Err(e) => {
                proof {
                    lemma_meshes_error(d, start, (i + 1) as nat, count as nat);
                }
                return Err(e);
            },
        };
        let key = make_mesh_key(name, i);
        let ghost before = meshes@;
        meshes.push(Mesh { key, corners });
        proof {
            assert(meshes_view(meshes@) =~= meshes_view(before).push(meshes@[i as int]@));
        }
        i = i + 1;
    }
    Ok(meshes)
}

/// Whether two byte strings are equal.
pub fn bytes_equal(a: &[u8], b: &[u8]) -> (r: bool)
    ensures
        r == (a@ == b@),
{
    if a.len() != b.len() {
        return false;
    }
    let mut k: usize = 0;
    while k < a.len()
        invariant
            a@.len() == b@.len(),
            k <= a@.len(),
            forall|j: int| 0 <= j < k ==> a@[j] == b@[j],
        decreases a.len() - k,
    {
        if a[k] != b[k] {
            return false;
        }
        k = k + 1;
    }
    proof {
        assert(a@ =~= b@);
    }
    true
}

/// The position of the first mesh filed under `key`.
pub fn find_mesh(meshes: &Vec<Mesh>, key: &Vec<u8>) -> (r: Option<usize>)
    ensures
        match r {
            Some(k) => first_with_key(meshes_view(meshes@), key@) == Some(k as int),
            None => first_with_key(meshes_view(meshes@), key@) is None,
        },
{
    let ghost ms = meshes_view(meshes@);
    let mut i: usize = 0;
    while i < meshes.len()
        invariant
            ms == meshes_view(meshes@),
            i <= meshes@.len(),
            forall|j: int| 0 <= j < i ==> ms[j].key != key@,
        decreases meshes.len() - i,
    {
        if bytes_equal(meshes[i].key.as_slice(), key.as_slice()) {
            proof {
                assert(ms[i as int].key == key@);
                let k = choose|k: int|
                    0 <= k < ms.len() && ms[k].key == key@ && forall|j: int| 0 <= j < k ==> ms[j].key != key@;
                assert(0 <= k < ms.len() && ms[k].key == key@ && forall|j: int| 0 <= j < k ==> ms[j].key != key@);
                if k < i {
                    assert(ms[k].key != key@);
                }
                if k > i {
                    assert(ms[i as int].key != key@);
                }
            }
            return Some(i);
        }
        i = i + 1;
    }
    None
}

/// Reads a mesh instance of an object: a mesh key and, when a mesh has that
/// key, the instance's position, rotation and scale.
pub fn read_object(reader: &mut ByteReader, meshes: &Vec<Mesh>) -> (res: Result<MeshInstance, CaeError>)
    ensures
        final(reader).bytes() == old(reader).bytes(),
        reads(
            spec_instance(old(reader).bytes(), old(reader).position(), meshes_view(meshes@)),
            res,
            |v: MeshInstance| v@,
            final(reader).position(),
        ),
        res matches Ok(inst) ==> (inst.placement matches Some(pl) ==> {
            let d = old(reader).bytes();
            let b = old(reader).position() + 4 + word_at(d, old(reader).position());
            &&& pl.position == vec3_at(d, b)
            &&& pl.rotation == vec3_at(d, b + 12)
            &&& pl.scale == vec3_at(d, b + 24)
        }),
{
    proof {
        lemma_instance_record(reader.bytes(), reader.position(), meshes_view(meshes@));
    }
    let key = read_string(reader)?;
    match find_mesh(meshes, &key) {
        None => Ok(MeshInstance { key, placement: None }),
        Some(mesh) => {
            let position = read_vec3(reader)?;
            let rotation = read_vec3(reader)?;
            let scale = read_vec3(reader)?;
            Ok(MeshInstance { key, placement: Some(Placement { mesh, position, rotation, scale }) })
        },
    }
}

/// Reads the instance list of an object: a count, then that many instances.
pub fn read_object_data(reader: &mut ByteReader, meshes: &Vec<Mesh>) -> (res: Result<Vec<MeshInstance>, CaeError>)
    ensures
        final(reader).bytes() == old(reader).bytes(),
        reads(
            spec_object_data(old(reader).bytes(), old(reader).position(), meshes_view(meshes@)),
            res,
            |v: Vec<MeshInstance>| instances_view(v@),
            final(reader).position(),
        ),
{
    let ghost d = reader.bytes();
    let ghost ms = meshes_view(meshes@);
    let count = read_u32(reader)?;
    let ghost start = reader.position();
    let mut instances: Vec<MeshInstance> = Vec::new();
    let mut j: u32 = 0;
    assert(instances_view(instances@) =~= Seq::<SpecInstance>::empty());
    while j < count
        invariant
            reader.bytes() == d,
            d == old(reader).bytes(),
            spec_word(d, old(reader).position()) == Ok::<(u32, int), CaeError>((count, start)),
            instances@.len() == j,
            ms == meshes_view(meshes@),
            j <= count,
            spec_instances(d, start, j as nat, ms) == Ok::<(Seq<SpecInstance>, int), CaeError>(
                (instances_view(instances@), reader.position()),
            ),
        decreases count - j,
    {
        let instance = match read_object(reader, meshes) {
            Ok(instance) => instance,
            Err(e) => {
                proof {
                    lemma_instances_error(d, start, (j + 1) as nat, count as nat, ms);
                }
                return Err(e);
            },
        };
        let ghost before = instances@;
        instances.push(instance);
        proof {
            assert(instances_view(instances@) =~= instances_view(before).push(instances@[j as int]@));
        }
        j = j + 1;
    }
    Ok(instances)
}

/// Reads an object: its name, position, rotation (degrees), scale and mesh instances.
pub fn create_object(reader: &mut ByteReader, meshes: &Vec<Mesh>) -> (res: Result<SceneObject, CaeError>)
    ensures
        final(reader).bytes() == old(reader).bytes(),
        reads(
            spec_object(old(reader).bytes(), old(reader).position(), meshes_view(meshes@)),
            res,
            |v: SceneObject| v@,
            final(reader).position(),
        ),
        res matches Ok(o) ==> ({
            let d = old(reader).bytes();
            let b = old(reader).position() + 4 + word_at(d, old(reader).position());
            &&& o.position == vec3_at(d, b)
            &&& o.rotation == vec3_at(d, b + 12)
            &&& o.scale == vec3_at(d, b + 24)
        }),
{
    proof {
        lemma_object_record(reader.bytes(), reader.position(), meshes_view(meshes@));
    }
    let name = read_string(reader)?;
    let position = read_vec3(reader)?;
    let rotation = read_vec3(reader)?;
    let scale = read_vec3(reader)?;
    let instances = read_object_data(reader, meshes)?;
    Ok(SceneObject { name, position, rotation, scale, instances })
}

/// Reads the object list of a file, `count` objects.
pub fn read_objects(reader: &mut ByteReader, count: u32, meshes: &Vec<Mesh>) -> (res: Result<Vec<SceneObject>, CaeError>)
    ensures
        final(reader).bytes() == old(reader).bytes(),
        reads(
            spec_objects(old(reader).bytes(), old(reader).position(), count as nat, meshes_view(meshes@)),
            res,
            |v: Vec<SceneObject>| objects_view(v@),
            final(reader).position(),
        ),
{
    let ghost d = reader.bytes();
    let ghost start = reader.position();
    let ghost ms = meshes_view(meshes@);
    let mut objects: Vec<SceneObject> = Vec::new();
    let mut i: u32 = 0;
    assert(objects_view(objects@) =~= Seq::<SpecObject>::empty());
    while i < count
        invariant
            reader.bytes() == d,
            d == old(reader).bytes(),
            start == old(reader).position(),
            objects@.len() == i,
            ms == meshes_view(meshes@),
            i <= count,
            spec_objects(d, start, i as nat, ms) == Ok::<(Seq<SpecObject>, int), CaeError>(
                (objects_view(objects@), reader.position()),
            ),
        decreases count - i,
    {
        let object = match create_object(reader, meshes) {
            Ok(object) => object,
            Err(e) => {
                proof {
                    lemma_objects_error(d, start, (i + 1) as nat, count as nat, ms);
                }
                return Err(e);
            },
        };
        let ghost before = objects@;
        objects.push(object);
        proof {
            assert(objects_view(objects@) =~= objects_view(before).push(objects@[i as int]@));
        }
        i = i + 1;
    }
    Ok(objects)
}

/// Reads a whole scene file.
pub fn parse_cae_data(data: &[u8]) -> (res: Result<Scene, CaeError>)
    ensures
        match res {
            Ok(scene) => spec_scene(data@) == Ok::<SpecScene, CaeError>(scene@),
            Err(e) => spec_scene(data@) == Err::<SpecScene, CaeError>(e),
        },
{
    if data.len() < 4 {
        return Err(CaeError::Truncated);
    }
    if !(data[0] == 67 && data[1] == 65 && data[2] == 69 && data[3] == 86) {
        proof {
            if data@.take(4) == magic() {
                assert(data@.take(4)[0] == 67);
                assert(data@.take(4)[1] == 65);
                assert(data@.take(4)[2] == 69);
                assert(data@.take(4)[3] == 86);
            }
        }
        return Err(CaeError::NotCaevern);
    }
    assert(data@.take(4) =~= magic());
    let mut reader = ByteReader::new(data);
    let _header = read_u32(&mut reader)?;
    let version = read_u32(&mut reader)?;
    let mesh_count = read_u32(&mut reader)?;
    let meshes = read_meshes(&mut reader, mesh_count)?;
    let object_count = read_u32(&mut reader)?;
    let objects = read_objects(&mut reader, object_count, &meshes)?;
    Ok(Scene { version, meshes, objects })
}

// ---------------------------------------------------------------------------
// Laws.
// ---------------------------------------------------------------------------

/// The value of a string of decimal digits.
pub open spec fn digits_value(s: Seq<u8>) -> int
    decreases s.len(),
{
    if s.len() == 0 {
        0
    } else {
        digits_value(s.drop_last()) * 10 + (s.last() - 48)
    }
}

/// The digits of `n` are decimal digits, at least one, and spell `n`.
proof fn lemma_decimal(n: nat)
    ensures
        decimal(n).len() >= 1,
        forall|k: int| 0 <= k < decimal(n).len() ==> 48 <= #[trigger] decimal(n)[k] <= 57,
        digits_value(decimal(n)) == n,
    decreases n,
{
    if n >= 10 {
        lemma_decimal(n / 10);
        let p = decimal(n / 10);
        let d = decimal(n);
        assert(d == p.push((48 + n % 10) as u8));
        assert(d.drop_last() =~= p);
        assert(d.last() == (48 + n % 10) as u8);
        assert(digits_value(d) == digits_value(p) * 10 + (d.last() - 48));
        assert(n / 10 * 10 + n % 10 == n);
        assert forall|k: int| 0 <= k < d.len() implies 48 <= #[trigger] d[k] <= 57 by {
            if k < p.len() {
                assert(d[k] == p[k]);
            }
        }
    } else {
        assert(decimal(n).drop_last() =~= Seq::<u8>::empty());
        assert(digits_value(decimal(n)) == digits_value(Seq::<u8>::empty()) * 10 + (decimal(n).last() - 48));
    }
}

/// Two mesh keys whose digit parts hold no `@` are equal only if their digit parts are.
proof fn lemma_key_suffix(n1: Seq<u8>, d1: Seq<u8>, n2: Seq<u8>, d2: Seq<u8>)
    requires
        n1 + seq![64u8] + d1 == n2 + seq![64u8] + d2,
        forall|k: int| 0 <= k < d1.len() ==> d1[k] != 64,
        forall|k: int| 0 <= k < d2.len() ==> d2[k] != 64,
    ensures
        d1 == d2,
{
    let key = n1 + seq![64u8] + d1;
    let l = key.len();
    if d1.len() < d2.len() {
        let p = l - d1.len() - 1;
        assert(key[p] == 64);
        assert((n2 + seq![64u8] + d2)[p] == d2[p - n2.len() - 1]);
    } else if d2.len() < d1.len() {
        let p = l - d2.len() - 1;
        assert((n2 + seq![64u8] + d2)[p] == 64);
        assert(key[p] == d1[p - n1.len() - 1]);
    }
    assert(d1.len() == d2.len());
    assert forall|k: int| 0 <= k < d1.len() implies d1[k] == d2[k] by {
        assert(key[l - d1.len() + k] == d1[k]);
        assert((n2 + seq![64u8] + d2)[l - d2.len() + k] == d2[k]);
    }
    assert(d1 =~= d2);
}

/// The mesh keys of different positions in a file differ, whatever the names.
pub proof fn lemma_mesh_key_distinct(n1: Seq<u8>, i: nat, n2: Seq<u8>, j: nat)
    requires
        i != j,
    ensures
        mesh_key(n1, i) != mesh_key(n2, j),
{
    lemma_decimal(i);
    lemma_decimal(j);
    if mesh_key(n1, i) == mesh_key(n2, j) {
        lemma_key_suffix(n1, decimal(i), n2, decimal(j));
    }
}

/// There are `n` meshes, and the `i`-th is filed under a key for position `i`.
pub open spec fn meshes_keyed(ms: Seq<SpecMesh>, n: nat) -> bool {
    ms.len() == n && forall|i: int| 0 <= i < n ==> #[trigger] keyed_at(ms, i)
}

/// The `i`-th mesh is filed under a key for position `i`.
pub open spec fn keyed_at(ms: Seq<SpecMesh>, i: int) -> bool {
    exists|name: Seq<u8>| ms[i].key == #[trigger] mesh_key(name, i as nat)
}

/// The `i`-th mesh of a mesh list is filed under a key for position `i`.
pub proof fn lemma_meshes_keys(data: Seq<u8>, pos: int, n: nat)
    ensures
        match spec_meshes(data, pos, n) {
            Ok((ms, _)) => meshes_keyed(ms, n),
            Err(_) => true,
        },
    decreases n,
{
    if n > 0 {
        lemma_meshes_keys(data, pos, (n - 1) as nat);
        match spec_meshes(data, pos, (n - 1) as nat) {
            Ok((ms0, p)) => match spec_name(data, p) {
                Ok((name, p2)) => match spec_mesh(data, p2) {
                    Ok((corners, p3)) => {
                        let ms = ms0.push(SpecMesh { key: mesh_key(name, (n - 1) as nat), corners });
                        assert(spec_meshes(data, pos, n) == Ok::<(Seq<SpecMesh>, int), CaeError>((ms, p3)));
                        assert forall|i: int| 0 <= i < n implies #[trigger] keyed_at(ms, i) by {
                            if i < n - 1 {
                                assert(ms[i] == ms0[i]);
                                assert(keyed_at(ms0, i));
                                let nm = choose|nm: Seq<u8>| ms0[i].key == #[trigger] mesh_key(nm, i as nat);
                                assert(ms[i].key == mesh_key(nm, i as nat));
                            } else {
                                assert(ms[i].key == mesh_key(name, i as nat));
                            }
                        }
                        assert(ms.len() == n);
                        assert(meshes_keyed(ms, n));
                    },
                    Err(_) => {},
                },
                Err(_) => {},
            },
            Err(_) => {},
        }
    } else {
        assert(meshes_keyed(seq![], 0));
    }
}

/// The meshes of a file have distinct keys, so a mesh instance names at
/// most one mesh: the one `first_with_key` finds is the only one.
pub proof fn lemma_mesh_keys_distinct(data: Seq<u8>, pos: int, n: nat)
    ensures
        spec_meshes(data, pos, n) matches Ok((ms, _)) ==> forall|i: int, j: int|
            0 <= i < ms.len() && 0 <= j < ms.len() && i != j ==> #[trigger] ms[i].key != #[trigger] ms[j].key,
{
    lemma_meshes_keys(data, pos, n);
    if let Ok((ms, _)) = spec_meshes(data, pos, n) {
        assert(meshes_keyed(ms, n));
        assert forall|i: int, j: int|
            0 <= i < ms.len() && 0 <= j < ms.len() && i != j implies #[trigger] ms[i].key != #[trigger] ms[j].key by {
            assert(keyed_at(ms, i) && keyed_at(ms, j));
            let a = choose|name: Seq<u8>| ms[i].key == #[trigger] mesh_key(name, i as nat);
            let b = choose|name: Seq<u8>| ms[j].key == #[trigger] mesh_key(name, j as nat);
            lemma_mesh_key_distinct(a, i as nat, b, j as nat);
        }
    }
}

/// A placed instance refers to a mesh of the file that is filed under the
/// instance's key.
pub open spec fn instance_resolves(i: SpecInstance, ms: Seq<SpecMesh>) -> bool {
    i.placement matches Some(p) ==> 0 <= p.mesh < ms.len() && ms[p.mesh].key == i.key
}

/// The mesh that `first_with_key` finds is filed under the key.
proof fn lemma_first_with_key(ms: Seq<SpecMesh>, key: Seq<u8>)
    ensures
        first_with_key(ms, key) matches Some(k) ==> 0 <= k < ms.len() && ms[k].key == key && forall|j: int|
            0 <= j < k ==> ms[j].key != key,
        first_with_key(ms, key) is None ==> forall|j: int| 0 <= j < ms.len() ==> ms[j].key != key,
{
    if exists|k: int| 0 <= k < ms.len() && ms[k].key == key {
        let k0 = choose|k: int| 0 <= k < ms.len() && ms[k].key == key;
        let f = first_key_at_or_before(ms, key, k0);
    }
}

/// Some mesh at or before `k` is the first one filed under the key.
proof fn first_key_at_or_before(ms: Seq<SpecMesh>, key: Seq<u8>, k: int) -> (f: int)
    requires
        0 <= k < ms.len(),
        ms[k].key == key,
    ensures
        0 <= f <= k,
        ms[f].key == key,
        forall|j: int| 0 <= j < f ==> ms[j].key != key,
    decreases k,
{
    if exists|j: int| 0 <= j < k && ms[j].key == key {
        let j = choose|j: int| 0 <= j < k && ms[j].key == key;
        first_key_at_or_before(ms, key, j)
    } else {
        k
    }
}

/// Every placed instance of an instance list resolves.
proof fn lemma_instances_resolve(data: Seq<u8>, pos: int, n: nat, ms: Seq<SpecMesh>)
    ensures
        spec_instances(data, pos, n, ms) matches Ok((is, _)) ==> forall|k: int|
            0 <= k < is.len() ==> instance_resolves(#[trigger] is[k], ms),
    decreases n,
{
    if n > 0 {
        lemma_instances_resolve(data, pos, (n - 1) as nat, ms);
        if let Ok((is0, p)) = spec_instances(data, pos, (n - 1) as nat, ms) {
            if let Ok((key, _)) = spec_name(data, p) {
                lemma_first_with_key(ms, key);
            }
            if let Ok((is, _)) = spec_instances(data, pos, n, ms) {
                assert forall|k: int| 0 <= k < is.len() implies instance_resolves(#[trigger] is[k], ms) by {
                    if k < is0.len() {
                        assert(is[k] == is0[k]);
                    }
                }
            }
        }
    }
}

/// Every placed instance of an object list resolves.
proof fn lemma_objects_resolve(data: Seq<u8>, pos: int, n: nat, ms: Seq<SpecMesh>)
    ensures
        spec_objects(data, pos, n, ms) matches Ok((os, _)) ==> forall|o: int, k: int|
            0 <= o < os.len() && 0 <= k < os[o].instances.len() ==> instance_resolves(
                #[trigger] os[o].instances[k],
                ms,
            ),
    decreases n,
{
    if n > 0 {
        lemma_objects_resolve(data, pos, (n - 1) as nat, ms);
        if let Ok((os0, p)) = spec_objects(data, pos, (n - 1) as nat, ms) {
            if let Ok((_, p1)) = spec_name(data, p) {
                let p4 = p1 + 36;
                if let Ok((_, p5)) = spec_word(data, p4) {
                    if let Ok((cnt, _)) = spec_word(data, p4) {
                        lemma_instances_resolve(data, p5, cnt as nat, ms);
                    }
                }
            }
            if let Ok((os, _)) = spec_objects(data, pos, n, ms) {
                assert forall|o: int, k: int|
                    0 <= o < os.len() && 0 <= k < os[o].instances.len() implies instance_resolves(
                    #[trigger] os[o].instances[k],
                    ms,
                ) by {
                    if o < os0.len() {
                        assert(os[o] == os0[o]);
                    }
                }
            }
        }
    }
}

/// In a parsed scene, the meshes have distinct keys, and every placed mesh
/// instance refers to the mesh filed under the instance's key.
pub proof fn lemma_scene_instances_resolve(data: Seq<u8>)
    ensures
        spec_scene(data) matches Ok(scene) ==> {
            &&& forall|i: int, j: int|
                0 <= i < scene.meshes.len() && 0 <= j < scene.meshes.len() && i != j ==> #[trigger] scene.meshes[i].key
                    != #[trigger] scene.meshes[j].key
            &&& forall|o: int, k: int|
                0 <= o < scene.objects.len() && 0 <= k < scene.objects[o].instances.len() ==> instance_resolves(
                    #[trigger] scene.objects[o].instances[k],
                    scene.meshes,
                )
        },
{
    if let Ok(scene) = spec_scene(data) {
        if let Ok((_, p1)) = spec_word(data, 4) {
            if let Ok((mc, p2)) = spec_word(data, p1) {
                lemma_mesh_keys_distinct(data, p2, mc as nat);
                if let Ok((meshes, p3)) = spec_meshes(data, p2, mc as nat) {
                    if let Ok((oc, p4)) = spec_word(data, p3) {
                        lemma_objects_resolve(data, p4, oc as nat, meshes);
                    }
                }
            }
        }
    }
}

// ---------------------------------------------------------------------------
// What the records hold, byte by byte.
// ---------------------------------------------------------------------------

/// A mesh record is read from its bytes: the corner count is the word after
/// the vertex list, and corner `k` is the vertex that the `k`-th index word
/// (`word_in_list`, the word at `ib + 4 * k`) names, an index below the
/// vertex count.
pub proof fn lemma_mesh_record(data: Seq<u8>, pos: int)
    ensures
        spec_mesh(data, pos) matches Ok((corners, end)) ==> ({
            let vc = word_at(data, pos) as int;
            let ib = pos + 8 + 12 * vc;
            &&& 0 <= pos && end <= data.len()
            &&& corners.len() == word_at(data, pos + 4 + 12 * vc)
            &&& end == ib + 4 * corners.len()
            &&& forall|k: int|
                #![trigger corners[k]]
                #![trigger word_in_list(data, ib, k)]
                0 <= k < corners.len() ==> word_in_list(data, ib, k) < vc && corners[k] == vec3_at(
                    data,
                    pos + 4 + 12 * word_in_list(data, ib, k),
                )
        }),
{
    let vc = word_at(data, pos) as int;
    let ib = pos + 8 + 12 * vc;
    if spec_mesh(data, pos) is Ok {
        let corners = spec_mesh(data, pos)->Ok_0.0;
        assert forall|k: int| 0 <= k < corners.len() implies #[trigger] word_in_list(data, ib, k) < vc by {
            if word_in_list(data, ib, k) >= vc {
                assert(exists|j: int| 0 <= j < word_at(data, ib - 4) && #[trigger] word_in_list(data, ib, j) >= vc);
            }
        }
    }
}

/// A mesh instance is read from its bytes: its key is the lower-cased name
/// that opens it; when a mesh has that key, the position, rotation and scale
/// are the three vectors after the name, and the placement names the first
/// such mesh; otherwise no mesh has that key.
pub proof fn lemma_instance_record(data: Seq<u8>, pos: int, ms: Seq<SpecMesh>)
    ensures
        spec_instance(data, pos, ms) matches Ok((inst, _)) ==> ({
            let n = word_at(data, pos) as int;
            let b = pos + 4 + n;
            &&& inst.key == Seq::new(n as nat, |k: int| lower(data[pos + 4 + k]))
            &&& (inst.placement matches Some(pl) ==> {
                &&& pl.position == vec3_at(data, b)
                &&& pl.rotation == vec3_at(data, b + 12)
                &&& pl.scale == vec3_at(data, b + 24)
                &&& 0 <= pl.mesh < ms.len()
                &&& ms[pl.mesh].key == inst.key
                &&& forall|j: int| 0 <= j < pl.mesh ==> ms[j].key != inst.key
            })
            &&& (inst.placement is None ==> forall|j: int| 0 <= j < ms.len() ==> ms[j].key != inst.key)
        }),
{
    if let Ok((key, _)) = spec_name(data, pos) {
        lemma_first_with_key(ms, key);
    }
}

/// An object record is read from its bytes: its name is the lower-cased
/// name that opens it, and its position, rotation and scale are the three
/// vectors after the name, in that order.
pub proof fn lemma_object_record(data: Seq<u8>, pos: int, ms: Seq<SpecMesh>)
    ensures
        spec_object(data, pos, ms) matches Ok((o, _)) ==> ({
            let n = word_at(data, pos) as int;
            let b = pos + 4 + n;
            &&& 0 <= pos && b + 36 <= data.len()
            &&& o.name == Seq::new(n as nat, |k: int| lower(data[pos + 4 + k]))
            &&& o.position == vec3_at(data, b)
            &&& o.rotation == vec3_at(data, b + 12)
            &&& o.scale == vec3_at(data, b + 24)
            &&& o.instances.len() == word_at(data, b + 36)
        }),
{
    if let Ok((name, p1)) = spec_name(data, pos) {
        let b = p1;
        if b + 40 <= data.len() {
            lemma_instances_len(data, b + 40, word_at(data, b + 36) as nat, ms);
        }
    }
}

/// A list of `n` instances that reads holds `n` instances.
proof fn lemma_instances_len(data: Seq<u8>, pos: int, n: nat, ms: Seq<SpecMesh>)
    ensures
        spec_instances(data, pos, n, ms) matches Ok((is, _)) ==> is.len() == n,
    decreases n,
{
    if n > 0 {
        lemma_instances_len(data, pos, (n - 1) as nat, ms);
    }
}

/// A list of `n` meshes that reads holds `n` meshes.
proof fn lemma_meshes_len(data: Seq<u8>, pos: int, n: nat)
    ensures
        spec_meshes(data, pos, n) matches Ok((ms, _)) ==> ms.len() == n,
    decreases n,
{
    if n > 0 {
        lemma_meshes_len(data, pos, (n - 1) as nat);
    }
}

/// A list of `n` objects that reads holds `n` objects.
proof fn lemma_objects_len(data: Seq<u8>, pos: int, n: nat, ms: Seq<SpecMesh>)
    ensures
        spec_objects(data, pos, n, ms) matches Ok((os, _)) ==> os.len() == n,
    decreases n,
{
    if n > 0 {
        lemma_objects_len(data, pos, (n - 1) as nat, ms);
    }
}

/// A scene file opens with the magic bytes; its version is the word after
/// them, it has as many meshes as the next word says, and as many objects as
/// the word after the mesh list says.
pub proof fn lemma_scene_version(data: Seq<u8>)
    ensures
        spec_scene(data) matches Ok(scene) ==> {
            &&& data.len() >= 12 && data.take(4) == magic()
            &&& scene.version == word_at(data, 4)
            &&& scene.meshes.len() == word_at(data, 8)
            &&& spec_meshes(data, 12, word_at(data, 8) as nat) matches Ok((_, p)) && scene.objects.len() == word_at(data, p)
        },
{
    if data.len() >= 12 {
        lemma_meshes_len(data, 12, word_at(data, 8) as nat);
        if let Ok((ms, p)) = spec_meshes(data, 12, word_at(data, 8) as nat) {
            if p + 4 <= data.len() && 0 <= p {
                lemma_objects_len(data, p + 4, word_at(data, p) as nat, ms);
            }
        }
    }
}

} // verus!
