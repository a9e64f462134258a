use vstd::prelude::*;

use crate::text::{fields, index_value, parse_index, split_fields};

verus! {

/// One polygon: three parallel lists of 0-based indices. Each reference with a readable
/// vertex index adds to the vertex list, and to the texture and normal lists where it
/// carries those slots; a reference without a readable vertex index adds nothing.
pub struct Face {
    pub vertex_indices: Vec<usize>,
    pub normal_indices: Vec<usize>,
    pub texture_indices: Vec<usize>,
}

pub struct FaceModel {
    pub vertices: Seq<usize>,
    pub normals: Seq<usize>,
    pub textures: Seq<usize>,
}

impl View for Face {
    type V = FaceModel;

    open spec fn view(&self) -> FaceModel {
        FaceModel {
            vertices: self.vertex_indices@,
            normals: self.normal_indices@,
            textures: self.texture_indices@,
        }
    }
}

/// Slot `k` of a face reference `v/t/n` (0 vertex, 1 texture, 2 normal): the 1-based
/// index written there, when that field exists and holds one.
pub open spec fn slot(r: Seq<char>, k: int) -> Option<nat> {
    if 0 <= k < fields(r).len() {
        index_value(fields(r)[k])
    } else {
        None
    }
}

/// The 0-based indices that slot `k` of the references contributes, in order. A
/// reference contributes only where both its vertex slot and slot `k` are readable.
pub open spec fn slot_indices(refs: Seq<Seq<char>>, k: int) -> Seq<usize>
    decreases refs.len(),
{
    if refs.len() == 0 {
        Seq::empty()
    } else {
        let before = slot_indices(refs.drop_last(), k);
        if slot(refs.last(), 0) is Some && slot(refs.last(), k) is Some {
            before.push((slot(refs.last(), k)->0 - 1) as usize)
        } else {
            before
        }
    }
}

/// The face that a list of references describes.
pub open spec fn face_of(refs: Seq<Seq<char>>) -> FaceModel {
    FaceModel {
        vertices: slot_indices(refs, 0),
        normals: slot_indices(refs, 2),
        textures: slot_indices(refs, 1),
    }
}

/// The texts of `parts`.
pub open spec fn texts(parts: Seq<&str>) -> Seq<Seq<char>> {
    parts.map_values(|p: &str| p@)
}

/// Parses a face line split into words, the keyword first. It needs at least three
/// references; each reference with a readable vertex index adds to the lists the slots
/// it carries, and a reference without one is dropped whole.
pub fn parse_face(parts: &[&str]) -> (r: Option<Face>)
    ensures
        r is Some <==> parts@.len() >= 4,
        r is Some ==> r->0@ == face_of(texts(parts@).drop_first()),
{
    if parts.len() < 4 {
        return None;
    }
    let ghost all = texts(parts@);
    let mut vertex_indices: Vec<usize> = Vec::new();
    let mut normal_indices: Vec<usize> = Vec::new();
    let mut texture_indices: Vec<usize> = Vec::new();
    let mut i: usize = 1;
    while i < parts.len()
        invariant
            all == texts(parts@),
            1 <= i <= parts@.len(),
            vertex_indices@ == slot_indices(all.subrange(1, i as int), 0),
            texture_indices@ == slot_indices(all.subrange(1, i as int), 1),
            normal_indices@ == slot_indices(all.subrange(1, i as int), 2),
        decreases parts@.len() - i,
    {
        let ghost refs = all.subrange(1, i + 1);
        assert(refs.drop_last() == all.subrange(1, i as int));
        assert(refs.last() == parts@[i as int]@);
        let fs = split_fields(parts[i]);
        let ghost fv = fs@.map_values(|f: &str| f@);
        assert(fv.len() == fs@.len());
        assert(fv[0] == fs@[0]@);
        if let Some(v) = parse_index(fs[0]) {
            vertex_indices.push(v - 1);
            if fs.len() > 1 {
                assert(fv[1] == fs@[1]@);
                if let Some(t) = parse_index(fs[1]) {
                    texture_indices.push(t - 1);
                }
            }
            if fs.len() > 2 {
                assert(fv[2] == fs@[2]@);
                if let Some(n) = parse_index(fs[2]) {
                    normal_indices.push(n - 1);
                }
            }
        }
        i = i + 1;
    }
    assert(all.subrange(1, parts@.len() as int) == all.drop_first());
    Some(Face { vertex_indices, normal_indices, texture_indices })
}

proof fn lemma_slot_indices_full(refs: Seq<Seq<char>>, k: int)
    requires
        forall|j: int| 0 <= j < refs.len() ==> #[trigger] slot(refs[j], 0) is Some,
        forall|j: int| 0 <= j < refs.len() ==> #[trigger] slot(refs[j], k) is Some,
    ensures
        slot_indices(refs, k).len() == refs.len(),
        forall|j: int|
            0 <= j < refs.len() ==> slot_indices(refs, k)[j] + 1 == (#[trigger] slot(
                refs[j],
                k,
            ))->0,
    decreases refs.len(),
{
    if refs.len() > 0 {
        let init = refs.drop_last();
        assert forall|j: int| 0 <= j < init.len() implies #[trigger] slot(init[j], k) is Some
            && slot(init[j], 0) is Some by {
            assert(init[j] == refs[j]);
        }
        lemma_slot_indices_full(init, k);
        assert(slot(refs[refs.len() - 1], 0) is Some);
        assert(slot(refs[refs.len() - 1], k) is Some);
        assert forall|j: int| 0 <= j < refs.len() implies slot_indices(refs, k)[j] + 1 == (
        #[trigger] slot(refs[j], k))->0 by {
            if j < init.len() {
                assert(init[j] == refs[j]);
            }
        }
    }
}

proof fn lemma_slot_indices_none(refs: Seq<Seq<char>>, k: int)
    requires
        forall|j: int| 0 <= j < refs.len() ==> #[trigger] slot(refs[j], k) is None,
    ensures
        slot_indices(refs, k).len() == 0,
    decreases refs.len(),
{
    if refs.len() > 0 {
        let init = refs.drop_last();
        assert forall|j: int| 0 <= j < init.len() implies #[trigger] slot(init[j], k) is None by {
            assert(init[j] == refs[j]);
        }
        lemma_slot_indices_none(init, k);
        assert(slot(refs[refs.len() - 1], k) is None);
    }
}

/// Every vertex index of a face is the 1-based index written in the source, less one:
/// where each reference names a vertex, the face holds one index per reference, in
/// order, each one below the written value.
pub proof fn lemma_vertex_indices_zero_based(refs: Seq<Seq<char>>)
    requires
        forall|j: int| 0 <= j < refs.len() ==> #[trigger] slot(refs[j], 0) is Some,
    ensures
        face_of(refs).vertices.len() == refs.len(),
        forall|j: int|
            0 <= j < refs.len() ==> face_of(refs).vertices[j] + 1 == (#[trigger] slot(
                refs[j],
                0,
            ))->0,
{
    lemma_slot_indices_full(refs, 0);
}

/// On well-formed references, where every reference names a vertex and either every
/// one or none of them names a texture coordinate, the texture list is empty or as
/// long as the vertex list. The same holds of normals.
pub proof fn lemma_well_formed_face_shape(refs: Seq<Seq<char>>)
    requires
        forall|j: int| 0 <= j < refs.len() ==> #[trigger] slot(refs[j], 0) is Some,
        (forall|j: int| 0 <= j < refs.len() ==> #[trigger] slot(refs[j], 1) is Some) || (
        forall|j: int| 0 <= j < refs.len() ==> #[trigger] slot(refs[j], 1) is None),
        (forall|j: int| 0 <= j < refs.len() ==> #[trigger] slot(refs[j], 2) is Some) || (
        forall|j: int| 0 <= j < refs.len() ==> #[trigger] slot(refs[j], 2) is None),
    ensures
        face_of(refs).textures.len() == 0 || face_of(refs).textures.len() == face_of(
            refs,
        ).vertices.len(),
        face_of(refs).normals.len() == 0 || face_of(refs).normals.len() == face_of(
            refs,
        ).vertices.len(),
{
    lemma_slot_indices_full(refs, 0);
    if forall|j: int| 0 <= j < refs.len() ==> #[trigger] slot(refs[j], 1) is Some {
        lemma_slot_indices_full(refs, 1);
    } else {
        lemma_slot_indices_none(refs, 1);
    }
    if forall|j: int| 0 <= j < refs.len() ==> #[trigger] slot(refs[j], 2) is Some {
        lemma_slot_indices_full(refs, 2);
    } else {
        lemma_slot_indices_none(refs, 2);
    }
}

} // verus!
