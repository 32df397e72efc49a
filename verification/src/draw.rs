use vstd::prelude::*;
use crate::math::{Vec2, Vec3, Vec4};
use crate::parser::{NormalObj, TexturedObj};
use crate::world::EntityID;

verus! {

/// Failures when resolving a shader for a draw call.
#[derive(Debug)]
pub enum DrawError {
    ShaderNotFound(String),
    ShaderNotAvailable(String),
}

/// Failures while compiling or linking a shader program.
#[derive(Clone, Copy, Debug, PartialEq, Eq, Structural)]
pub enum ShaderError {
    FailedToCreateShader,
    FailedToCompile,
    FailedToLink,
}

/// One vertex of an untextured mesh as the GPU buffer layout wants it.
#[derive(Clone, Copy, Debug, PartialEq, Eq, Structural)]
pub struct NormalVertex {
    pub position: Vec3,
    pub normal: Vec3,
}

/// One vertex of a textured mesh.
#[derive(Clone, Copy, Debug, PartialEq, Eq, Structural)]
pub struct TexturedVertex {
    pub position: Vec4,
    pub normal: Vec3,
    pub text_cords: Vec2,
}

/// Handles of the GPU-side buffers that hold one entity's geometry. The ids
/// are opaque names minted by the graphics collaborator.
#[derive(Clone, Copy, Debug, PartialEq, Eq, Structural)]
pub struct RenderObject {
    pub vertex_buffer: u32,
    pub element_buffer: u32,
    pub vertex_array_object: u32,
    pub size_of_elements: i32,
}

/// Interleave positions (dropping the homogeneous coordinate) and normals
/// into the vertex records the GPU buffer is filled with, and hand the
/// triangle indices through unchanged.
pub fn process_normal_mesh(obj: &NormalObj) -> (r: (Vec<NormalVertex>, Vec<u32>))
    requires
        obj.normals@.len() >= obj.vertices@.len(),
    ensures
        r.0@.len() == obj.vertices@.len(),
        forall|i: int|
            0 <= i < r.0@.len() ==> #[trigger] r.0@[i] == (NormalVertex {
                position: Vec3 {
                    x: obj.vertices@[i].x,
                    y: obj.vertices@[i].y,
                    z: obj.vertices@[i].z,
                },
                normal: obj.normals@[i],
            }),
        r.1@ == obj.indices@,
{
    let mut vertices: Vec<NormalVertex> = Vec::new();
    let mut i: usize = 0;
    while i < obj.vertices.len()
        invariant
            i <= obj.vertices@.len(),
            obj.normals@.len() >= obj.vertices@.len(),
            vertices@.len() == i,
            forall|k: int|
                0 <= k < i ==> #[trigger] vertices@[k] == (NormalVertex {
                    position: Vec3 {
                        x: obj.vertices@[k].x,
                        y: obj.vertices@[k].y,
                        z: obj.vertices@[k].z,
                    },
                    normal: obj.normals@[k],
                }),
        decreases obj.vertices@.len() - i,
    {
        let v = obj.vertices[i];
        let vertex = NormalVertex { position: Vec3 { x: v.x, y: v.y, z: v.z }, normal: obj.normals[i] };
        vertices.push(vertex);
        i += 1;
    }
    let mut indices: Vec<u32> = Vec::new();
    let mut j: usize = 0;
    while j < obj.indices.len()
        invariant
            j <= obj.indices@.len(),
            indices@ == obj.indices@.take(j as int),
        decreases obj.indices@.len() - j,
    {
        indices.push(obj.indices[j]);
        proof {
            assert(indices@ =~= obj.indices@.take(j + 1));
        }
        j += 1;
    }
    proof {
        assert(indices@ =~= obj.indices@);
    }
    (vertices, indices)
}

/// Interleave positions, normals and texture coordinates into textured
/// vertex records, handing the indices through unchanged.
pub fn process_textured_mesh(obj: &TexturedObj) -> (r: (Vec<TexturedVertex>, Vec<u32>))
    requires
        obj.normals@.len() >= obj.vertices@.len(),
        obj.text_cords@.len() >= obj.vertices@.len(),
    ensures
        r.0@.len() == obj.vertices@.len(),
        forall|i: int|
            0 <= i < r.0@.len() ==> #[trigger] r.0@[i] == (TexturedVertex {
                position: obj.vertices@[i],
                normal: obj.normals@[i],
                text_cords: obj.text_cords@[i],
            }),
        r.1@ == obj.indices@,
{
    let mut vertices: Vec<TexturedVertex> = Vec::new();
    let mut i: usize = 0;
    while i < obj.vertices.len()
        invariant
            i <= obj.vertices@.len(),
            obj.normals@.len() >= obj.vertices@.len(),
            obj.text_cords@.len() >= obj.vertices@.len(),
            vertices@.len() == i,
            forall|k: int|
                0 <= k < i ==> #[trigger] vertices@[k] == (TexturedVertex {
                    position: obj.vertices@[k],
                    normal: obj.normals@[k],
                    text_cords: obj.text_cords@[k],
                }),
        decreases obj.vertices@.len() - i,
    {
        let vertex = TexturedVertex {
            position: obj.vertices[i],
            normal: obj.normals[i],
            text_cords: obj.text_cords[i],
        };
        vertices.push(vertex);
        i += 1;
    }
    let mut indices: Vec<u32> = Vec::new();
    let mut j: usize = 0;
    while j < obj.indices.len()
        invariant
            j <= obj.indices@.len(),
            indices@ == obj.indices@.take(j as int),
        decreases obj.indices@.len() - j,
    {
        indices.push(obj.indices[j]);
        proof {
            assert(indices@ =~= obj.indices@.take(j + 1));
        }
        j += 1;
    }
    proof {
        assert(indices@ =~= obj.indices@);
    }
    (vertices, indices)
}

/// Release bookkeeping for an untextured entity's GPU object; the buffer
/// names themselves are freed by the graphics collaborator.
pub fn remove_normal_object(_id: EntityID, _object: RenderObject) {
}

/// Release bookkeeping for a textured entity's GPU object.
pub fn remove_textured_object(_id: EntityID, _object: RenderObject) {
}

} // verus!
