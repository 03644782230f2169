//! Skeletons: which bone of a model plays which named part (for example,
//! which bone is the head).

use vstd::prelude::*;

use crate::table::NamedTable;
use crate::transform::Transform;



verus! {

/// A bone of a loaded model.
pub struct FallbackBone {
    /// The bone's position in the model's bone list.
    pub index: usize,
    /// The bone's transform in the model.
    pub transform: Transform,
    /// The bone's name as stored in the model, which may hold control characters.
    pub name: String,
    /// The model's id of the parent bone.
    pub parent: i64,
    /// The world object attached to the bone.
    pub attachment: usize,
}

/// A skeleton: part names mapped to bone indices.
pub type Skeleton = NamedTable<usize>;

/// The characters of a name without its control characters (those below U+0020).
pub open spec fn printable(s: Seq<char>) -> Seq<char>
    decreases s.len(),
{
    if s.len() == 0 {
        seq![]
    } else if s.last() as u32 >= 32 {
        printable(s.drop_last()).push(s.last())
    } else {
        printable(s.drop_last())
    }
}

/// The characters of `s` without its control characters.
pub fn printable_chars(s: &str) -> (r: Vec<char>)
    ensures
        r@ == printable(s@),
{
    let n = s.unicode_len();
    let mut out: Vec<char> = Vec::new();
    let mut i: usize = 0;
    while i < n
        invariant
            n == s@.len(),
            i <= n,
            out@ == printable(s@.take(i as int)),
        decreases n - i,
    {
        let c = s.get_char(i);
        proof {
            assert(s@.take(i + 1).drop_last() =~= s@.take(i as int));
        }
        if (c as u32) >= 32 {
            out.push(c);
        }
        i = i + 1;
    }
    proof {
        assert(s@.take(n as int) =~= s@);
    }
    out
}

/// Whether the characters in `v` are those of `s`.
pub fn chars_equal(v: &Vec<char>, s: &str) -> (r: bool)
    ensures
        r == (v@ == s@),
{
    let n = s.unicode_len();
    if v.len() != n {
        return false;
    }
    let mut i: usize = 0;
    while i < n
        invariant
            n == s@.len(),
            n == v@.len(),
            i <= n,
            forall|j: int| 0 <= j < i ==> v@[j] == s@[j],
        decreases n - i,
    {
        if v[i] != s.get_char(i) {
            return false;
        }
        i = i + 1;
    }
    proof {
        assert(v@ =~= s@);
    }
    true
}

/// Whether a bone's name, without control characters, is the pattern.
pub open spec fn bone_matches(bone: FallbackBone, pattern: Seq<char>) -> bool {
    printable(bone.name@) == pattern
}

/// The first bone, in the order given, whose name matches the pattern.
pub open spec fn first_match(bones: Seq<FallbackBone>, pattern: Seq<char>) -> Option<int> {
    if exists|k: int| 0 <= k < bones.len() && bone_matches(bones[k], pattern) {
        Some(
            choose|k: int|
                0 <= k < bones.len() && bone_matches(bones[k], pattern) && forall|j: int|
                    0 <= j < k ==> !bone_matches(bones[j], pattern),
        )
    } else {
        None
    }
}

/// The skeleton that the first `n` bindings make: each binding (part, pattern)
/// names the first matching bone as the part's bone; a binding that matches
/// no bone is skipped, and a later binding of a part replaces an earlier one.
pub open spec fn spec_skeleton(bindings: Seq<(String, &str)>, bones: Seq<FallbackBone>, n: nat) -> Map<Seq<char>, usize>
    decreases n,
{
    if n == 0 {
        Map::empty()
    } else {
        let m = spec_skeleton(bindings, bones, (n - 1) as nat);
        let b = bindings[n - 1];
        match first_match(bones, b.1@) {
            Some(k) => m.insert(b.0@, bones[k].index),
            None => m,
        }
    }
}

/// The first bone, in the order given, whose name matches the pattern.
pub fn find_bone(bones: &[FallbackBone], pattern: &str) -> (r: Option<usize>)
    ensures
        match r {
            Some(k) => first_match(bones@, pattern@) == Some(k as int) && k < bones@.len(),
            None => first_match(bones@, pattern@) is None,
        },
{
    let mut i: usize = 0;
    while i < bones.len()
        invariant
            i <= bones@.len(),
            forall|j: int| 0 <= j < i ==> !bone_matches(bones@[j], pattern@),
        decreases bones.len() - i,
    {
        let filtered = printable_chars(bones[i].name.as_str());
        if chars_equal(&filtered, pattern) {
            proof {
                let ghost bs = bones@;
                let k = choose|k: int|
                    0 <= k < bs.len() && bone_matches(bs[k], pattern@) && forall|j: int|
                        0 <= j < k ==> !bone_matches(bs[j], pattern@);
                assert(0 <= k < bs.len() && bone_matches(bs[k], pattern@) && forall|j: int|
                    0 <= j < k ==> !bone_matches(bs[j], pattern@));
                if k > i {
                    assert(!bone_matches(bs[i as int], pattern@));
                }
            }
            return Some(i);
        }
        i = i + 1;
    }
    None
}

/// Builds a skeleton from bindings of part names to bone-name patterns. The
/// bones are taken in the order given; for each binding, the first bone whose
/// name without control characters equals the pattern becomes the part's bone.
pub fn create_skeleton(bone_bindings: Vec<(String, &str)>, fallback_bones: &[FallbackBone]) -> (r: Skeleton)
    ensures
        r@ == spec_skeleton(bone_bindings@, fallback_bones@, bone_bindings@.len()),
{
    let mut skeleton: Skeleton = NamedTable::new();
    let mut i: usize = 0;
    while i < bone_bindings.len()
        invariant
            i <= bone_bindings@.len(),
            skeleton@ == spec_skeleton(bone_bindings@, fallback_bones@, i as nat),
        decreases bone_bindings.len() - i,
    {
        let pattern: &str = bone_bindings[i].1;
        match find_bone(fallback_bones, pattern) {
            Some(k) => {
                skeleton.insert(bone_bindings[i].0.clone(), fallback_bones[k].index);
            },
            None => {},
        }
        i = i + 1;
    }
    skeleton
}

/// The first bone that `first_match` finds does match, and no earlier bone does.
pub proof fn lemma_first_match(bones: Seq<FallbackBone>, pattern: Seq<char>)
    ensures
        first_match(bones, pattern) matches Some(k) ==> 0 <= k < bones.len() && bone_matches(bones[k], pattern)
            && forall|j: int| 0 <= j < k ==> !bone_matches(bones[j], pattern),
        first_match(bones, pattern) is None ==> forall|k: int|
            0 <= k < bones.len() ==> !bone_matches(bones[k], pattern),
{
    if exists|k: int| 0 <= k < bones.len() && bone_matches(bones[k], pattern) {
        let k0 = choose|k: int| 0 <= k < bones.len() && bone_matches(bones[k], pattern);
        let first = first_first(bones, pattern, k0);
        assert(0 <= first < bones.len() && bone_matches(bones[first], pattern) && forall|j: int|
            0 <= j < first ==> !bone_matches(bones[j], pattern));
    }
}

/// Some bone at or before `k` is the first matching one.
proof fn first_first(bones: Seq<FallbackBone>, pattern: Seq<char>, k: int) -> (f: int)
    requires
        0 <= k < bones.len(),
        bone_matches(bones[k], pattern),
    ensures
        0 <= f <= k,
        bone_matches(bones[f], pattern),
        forall|j: int| 0 <= j < f ==> !bone_matches(bones[j], pattern),
    decreases k,
{
    if exists|j: int| 0 <= j < k && bone_matches(bones[j], pattern) {
        let j = choose|j: int| 0 <= j < k && bone_matches(bones[j], pattern);
        first_first(bones, pattern, j)
    } else {
        k
    }
}

/// Whatever order the bones are walked in, every part of the skeleton names
/// a bone whose printable name is the pattern of a binding of that part, and
/// every part whose binding matches some bone is in the skeleton.
pub proof fn lemma_skeleton_parts_match(bindings: Seq<(String, &str)>, bones: Seq<FallbackBone>, n: nat)
    requires
        n <= bindings.len(),
    ensures
        forall|part: Seq<char>|
            #[trigger] spec_skeleton(bindings, bones, n).contains_key(part) ==> exists|j: int, k: int|
                0 <= j < n && 0 <= k < bones.len() && bindings[j].0@ == part && bone_matches(
                    bones[k],
                    bindings[j].1@,
                ) && spec_skeleton(bindings, bones, n)[part] == bones[k].index,
        forall|j: int|
            0 <= j < n && (exists|k: int| 0 <= k < bones.len() && bone_matches(bones[k], #[trigger] bindings[j].1@))
                ==> spec_skeleton(bindings, bones, n).contains_key(bindings[j].0@),
    decreases n,
{
    if n > 0 {
        lemma_skeleton_parts_match(bindings, bones, (n - 1) as nat);
        let b = bindings[n - 1];
        lemma_first_match(bones, b.1@);
        let m0 = spec_skeleton(bindings, bones, (n - 1) as nat);
        let m = spec_skeleton(bindings, bones, n);
        assert forall|part: Seq<char>| #[trigger] m.contains_key(part) implies exists|j: int, k: int|
            0 <= j < n && 0 <= k < bones.len() && bindings[j].0@ == part && bone_matches(bones[k], bindings[j].1@)
                && m[part] == bones[k].index by {
            match first_match(bones, b.1@) {
                Some(k) => {
                    if part == b.0@ {
                        assert(bindings[n - 1].0@ == part && bone_matches(bones[k], bindings[n - 1].1@));
                    } else {
                        assert(m0.contains_key(part));
                        let (j, k2) = choose|j: int, k2: int|
                            0 <= j < n - 1 && 0 <= k2 < bones.len() && bindings[j].0@ == part && bone_matches(
                                bones[k2],
                                bindings[j].1@,
                            ) && m0[part] == bones[k2].index;
                        assert(m[part] == m0[part]);
                    }
                },
                None => {
                    assert(m0.contains_key(part));
                    let (j, k2) = choose|j: int, k2: int|
                        0 <= j < n - 1 && 0 <= k2 < bones.len() && bindings[j].0@ == part && bone_matches(
                            bones[k2],
                            bindings[j].1@,
                        ) && m0[part] == bones[k2].index;
                },
            }
        }
        assert forall|j: int|
            0 <= j < n && (exists|k: int| 0 <= k < bones.len() && bone_matches(bones[k], #[trigger] bindings[j].1@))
                implies m.contains_key(bindings[j].0@) by {
            if j < n - 1 {
                assert(m0.contains_key(bindings[j].0@));
            }
        }
    }
}

} // verus!
