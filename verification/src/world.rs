use vstd::prelude::*;
use vstd::std_specs::vec::vec_index_mut;
use crate::components::{Components, RenderComponent, TransformComponent};
use crate::events::{EventManager, EventType, EventView, SystemType};
use crate::math::{Scalar, Vec3};
use crate::parser::{NormalObj, TexturedObj};

verus! {

/// An entity is an opaque index into the component arrays.
pub type EntityID = usize;

/// Room the component arrays reserve up front.
pub const ENTITY_SIZE: usize = 100000;

/// Which mesh representation an asset uses.
#[derive(Clone, Copy, Debug, PartialEq, Eq, Structural)]
pub enum ObjType {
    Textured,
    Normal,
}

/// What a resource request asks for: a mesh by file name, a shader by name
/// with its source file names (vertex, fragment, optional geometry), or a
/// texture by name.
#[derive(Debug)]
pub enum AssetSource {
    Mesh(ObjType, String),
    Shader(String, String, String, Option<String>),
    Texture(String),
}

/// The key under which a requested resource is (or will be) cached.
#[derive(Debug)]
pub enum ResourceResult {
    Mesh(String),
    Shader(String),
    Texture(String),
}

/// What a request did: started a load, found one in flight, found the entry
/// already loaded, or ignored an unsupported source.
#[derive(Clone, Copy, Debug, PartialEq, Eq, Structural)]
pub enum RequestOutcome {
    Started,
    InFlight,
    AlreadyLoaded,
    Ignored,
}

/// Payload of a loaded mesh entry.
#[derive(Debug)]
pub enum MeshType {
    Textured(TexturedObj),
    Normal(NormalObj),
}

/// A mesh cache entry. From the moment a load is requested the entry exists
/// with `is_loaded` false; the flag flips to true only together with the
/// payload being written, so no reader ever sees a loaded entry without one.
#[derive(Debug)]
pub struct Mesh {
    pub mesh_type: Option<MeshType>,
    pub is_loaded: bool,
}

impl Mesh {
    /// Whether the load for this entry has completed.
    pub open spec fn loaded(self) -> bool {
        self.is_loaded
    }

    /// The stored payload, as spec code sees it.
    pub open spec fn payload(self) -> Option<MeshType> {
        self.mesh_type
    }

    /// A loaded entry always carries its payload.
    pub open spec fn wf(self) -> bool {
        self.loaded() ==> self.payload() is Some
    }

    fn new() -> (m: Mesh)
        ensures
            !m.loaded(),
            m.mesh_type is None,
    {
        Mesh { mesh_type: None, is_loaded: false }
    }

    /// Whether the load for this entry has completed.
    pub fn is_loaded(&self) -> (r: bool)
        ensures
            r == self.loaded(),
    {
        self.is_loaded
    }
}

/// First position in an association list whose key equals `key`.
fn assoc_index_mesh(v: &Vec<(String, Mesh)>, key: &String) -> (r: Option<usize>)
    ensures
        match r {
            Some(i) => i < v@.len() && v@[i as int].0@ == key@ && (forall|j: int|
                0 <= j < i ==> v@[j].0@ != key@),
            None => forall|j: int| 0 <= j < v@.len() ==> v@[j].0@ != key@,
        },
{
    let mut i: usize = 0;
    while i < v.len()
        invariant
            i <= v@.len(),
            forall|j: int| 0 <= j < i ==> v@[j].0@ != key@,
        decreases v@.len() - i,
    {
        if v[i].0 == *key {
            return Some(i);
        }
        i += 1;
    }
    None
}

/// First position in an association list whose key equals `key`.
fn assoc_index_shader(v: &Vec<(String, Option<u32>)>, key: &String) -> (r: Option<usize>)
    ensures
        match r {
            Some(i) => i < v@.len() && v@[i as int].0@ == key@ && (forall|j: int|
                0 <= j < i ==> v@[j].0@ != key@),
            None => forall|j: int| 0 <= j < v@.len() ==> v@[j].0@ != key@,
        },
{
    let mut i: usize = 0;
    while i < v.len()
        invariant
            i <= v@.len(),
            forall|j: int| 0 <= j < i ==> v@[j].0@ != key@,
        decreases v@.len() - i,
    {
        if v[i].0 == *key {
            return Some(i);
        }
        i += 1;
    }
    None
}

/// The content-addressed resource cache: meshes and shader programs keyed by
/// logical name. A shader entry holds `None` from the request until the
/// program id is written back.
pub struct Resources {
    meshes: Vec<(String, Mesh)>,
    shaders: Vec<(String, Option<u32>)>,
}

impl Resources {
    /// The mesh entries, keys as character sequences, in insertion order.
    pub closed spec fn mesh_entries(self) -> Seq<(Seq<char>, Mesh)> {
        self.meshes@.map_values(|p: (String, Mesh)| (p.0@, p.1))
    }

    /// The shader entries, keys as character sequences, in insertion order.
    pub closed spec fn shader_entries(self) -> Seq<(Seq<char>, Option<u32>)> {
        self.shaders@.map_values(|p: (String, Option<u32>)| (p.0@, p.1))
    }

    /// Whether a mesh entry with this key exists (loaded or not).
    pub open spec fn has_mesh(self, key: Seq<char>) -> bool {
        exists|i: int|
            0 <= i < self.mesh_entries().len() && (#[trigger] self.mesh_entries()[i]).0 == key
    }

    /// The position of the mesh entry with this key; under `wf()` it is
    /// unique.
    pub open spec fn mesh_index_of(self, key: Seq<char>) -> int {
        choose|i: int|
            0 <= i < self.mesh_entries().len() && (#[trigger] self.mesh_entries()[i]).0 == key
    }

    /// The mesh entry with this key.
    pub open spec fn mesh_at(self, key: Seq<char>) -> Mesh {
        self.mesh_entries()[self.mesh_index_of(key)].1
    }

    /// Whether the mesh with this key is present and fully loaded.
    pub open spec fn mesh_loaded(self, key: Seq<char>) -> bool {
        self.has_mesh(key) && self.mesh_at(key).loaded()
    }

    /// Whether a shader entry with this name exists.
    pub open spec fn has_shader(self, key: Seq<char>) -> bool {
        exists|i: int|
            0 <= i < self.shader_entries().len() && (#[trigger] self.shader_entries()[i]).0 == key
    }

    /// The position of the shader entry with this name.
    pub open spec fn shader_index_of(self, key: Seq<char>) -> int {
        choose|i: int|
            0 <= i < self.shader_entries().len() && (#[trigger] self.shader_entries()[i]).0 == key
    }

    /// The program stored for this shader name (`None` while compiling).
    pub open spec fn shader_at(self, key: Seq<char>) -> Option<u32> {
        self.shader_entries()[self.shader_index_of(key)].1
    }

    /// Cache invariant: keys are unique and every loaded mesh entry carries
    /// its payload.
    pub open spec fn wf(self) -> bool {
        &&& (forall|i: int, j: int|
            0 <= i < j < self.mesh_entries().len() ==> (#[trigger] self.mesh_entries()[i]).0 != (
            #[trigger] self.mesh_entries()[j]).0)
        &&& (forall|i: int, j: int|
            0 <= i < j < self.shader_entries().len() ==> (
            #[trigger] self.shader_entries()[i]).0 != (#[trigger] self.shader_entries()[j]).0)
        &&& (forall|i: int| 0 <= i < self.mesh_entries().len() ==> (#[trigger] self.mesh_entries()[i]).1.wf())
    }

    /// An empty cache.
    pub fn new() -> (r: Resources)
        ensures
            r.wf(),
            r.mesh_entries() == Seq::<(Seq<char>, Mesh)>::empty(),
            r.shader_entries() == Seq::<(Seq<char>, Option<u32>)>::empty(),
    {
        let r = Resources { meshes: Vec::new(), shaders: Vec::new() };
        proof {
            assert(r.mesh_entries() =~= Seq::<(Seq<char>, Mesh)>::empty());
            assert(r.shader_entries() =~= Seq::<(Seq<char>, Option<u32>)>::empty());
        }
        r
    }

    /// Exec query for [`Resources::has_mesh`].
    pub fn has_mesh_entry(&self, key: &String) -> (r: bool)
        ensures
            r == self.has_mesh(key@),
    {
        let found = assoc_index_mesh(&self.meshes, key);
        proof {
            match found {
                Some(i) => {
                    assert(self.mesh_entries()[i as int].0 == key@);
                },
                None => {
                    assert forall|k: int|
                        0 <= k < self.mesh_entries().len() implies (
                    #[trigger] self.mesh_entries()[k]).0 != key@ by {
                        assert(self.mesh_entries()[k].0 == self.meshes@[k].0@);
                    }
                },
            }
        }
        found.is_some()
    }

    /// Exec query for [`Resources::mesh_loaded`].
    pub fn is_mesh_loaded(&self, key: &String) -> (r: bool)
        requires
            self.wf(),
        ensures
            r == self.mesh_loaded(key@),
    {
        let found = assoc_index_mesh(&self.meshes, key);
        match found {
            Some(i) => {
                proof {
                    assert(self.mesh_entries()[i as int].0 == key@);
                    let mi = self.mesh_index_of(key@);
                    assert(0 <= mi < self.mesh_entries().len() && self.mesh_entries()[mi].0
                        == key@);
                    assert(mi == i as int) by {
                        if mi != i as int {
                            assert(self.mesh_entries()[mi].0 != self.mesh_entries()[i as int].0);
                        }
                    }
                }
                self.meshes[i].1.is_loaded()
            },
            None => {
                proof {
                    assert forall|k: int|
                        0 <= k < self.mesh_entries().len() implies (
                    #[trigger] self.mesh_entries()[k]).0 != key@ by {
                        assert(self.mesh_entries()[k].0 == self.meshes@[k].0@);
                    }
                }
                false
            },
        }
    }

    /// The mesh entry under this key, if any.
    pub fn get_mesh(&self, key: &String) -> (r: Option<&Mesh>)
        requires
            self.wf(),
        ensures
            self.has_mesh(key@) ==> (r matches Some(m) && *m == self.mesh_at(key@)),
            !self.has_mesh(key@) ==> r is None,
    {
        let found = assoc_index_mesh(&self.meshes, key);
        match found {
            Some(i) => {
                proof {
                    assert(self.mesh_entries()[i as int].0 == key@);
                    let mi = self.mesh_index_of(key@);
                    assert(0 <= mi < self.mesh_entries().len() && self.mesh_entries()[mi].0
                        == key@);
                    assert(mi == i as int) by {
                        if mi != i as int {
                            assert(self.mesh_entries()[mi].0 != self.mesh_entries()[i as int].0);
                        }
                    }
                    assert(self.mesh_entries()[i as int].1 == self.meshes@[i as int].1);
                }
                Some(&self.meshes[i].1)
            },
            None => {
                proof {
                    assert forall|k: int|
                        0 <= k < self.mesh_entries().len() implies (
                    #[trigger] self.mesh_entries()[k]).0 != key@ by {
                        assert(self.mesh_entries()[k].0 == self.meshes@[k].0@);
                    }
                }
                None
            },
        }
    }

    /// Request a resource, per the load-gating contract: a key already
    /// loaded or still loading is returned at once without a second load; an
    /// absent key gets its placeholder entry before anything else happens,
    /// so a racing request for the same key can never start a second load.
    /// The caller owning the load path performs the actual load only on
    /// [`RequestOutcome::Started`] and hands the result to
    /// [`Resources::complete_mesh_load`] or
    /// [`Resources::complete_shader_load`]. Shader requests always restart
    /// the compile; textured meshes and textures are not loadable here and
    /// are ignored.
    pub fn add_resource(&mut self, resource: AssetSource) -> (r: (ResourceResult, RequestOutcome))
        requires
            old(self).wf(),
        ensures
            final(self).wf(),
            request_rel(*old(self), *final(self), resource, r.0, r.1),
    {
        match resource {
            AssetSource::Mesh(obj_type, location) => {
                match obj_type {
                    ObjType::Normal => {
                        let outcome = match assoc_index_mesh(&self.meshes, &location) {
                            Some(i) => {
                                proof {
                                    assert(self.mesh_entries()[i as int].0 == location@);
                                    let mi = self.mesh_index_of(location@);
                                    assert(0 <= mi < self.mesh_entries().len()
                                        && self.mesh_entries()[mi].0 == location@);
                                    assert(mi == i as int) by {
                                        if mi != i as int {
                                            assert(self.mesh_entries()[mi].0
                                                != self.mesh_entries()[i as int].0);
                                        }
                                    }
                                    assert(self.mesh_at(location@) == self.meshes@[i as int].1);
                                }
                                if self.meshes[i].1.is_loaded() {
                                    RequestOutcome::AlreadyLoaded
                                } else {
                                    RequestOutcome::InFlight
                                }
                            },
                            None => {
                                let ghost pre = *self;
                                self.meshes.push((location.clone(), Mesh::new()));
                                proof {
                                    assert forall|k: int|
                                        0 <= k < self.mesh_entries().len() implies #[trigger] self.mesh_entries()[k]
                                        == (self.meshes@[k].0@, self.meshes@[k].1) by {}
                                    assert(self.mesh_entries().take(pre.mesh_entries().len() as int)
                                        =~= pre.mesh_entries());
                                    assert(!pre.has_mesh(location@));
                                    assert(self.shader_entries() =~= pre.shader_entries());
                                    assert forall|p: int, q: int|
                                        0 <= p < q < self.mesh_entries().len() implies (
                                    #[trigger] self.mesh_entries()[p]).0 != (
                                    #[trigger] self.mesh_entries()[q]).0 by {
                                        if q < pre.mesh_entries().len() {
                                            assert(pre.mesh_entries()[p].0
                                                != pre.mesh_entries()[q].0);
                                        } else {
                                            assert(self.mesh_entries()[q].0 == location@);
                                            assert(pre.mesh_entries()[p].0 != location@);
                                        }
                                    }
                                    assert forall|k: int|
                                        0 <= k < self.mesh_entries().len() implies (
                                    #[trigger] self.mesh_entries()[k]).1.wf() by {
                                        if k < pre.mesh_entries().len() {
                                            assert(self.mesh_entries()[k]
                                                == pre.mesh_entries()[k]);
                                        }
                                    }
                                }
                                RequestOutcome::Started
                            },
                        };
                        (ResourceResult::Mesh(location), outcome)
                    },
                    ObjType::Textured => (ResourceResult::Mesh(location), RequestOutcome::Ignored),
                }
            },
            AssetSource::Shader(name, _vertex, _fragment, _geo) => {
                match assoc_index_shader(&self.shaders, &name) {
                    Some(i) => {
                        let pair = self.shaders.remove(i);
                        self.shaders.insert(i, (pair.0, None));
                        proof {
                            assert(old(self).shader_entries()[i as int].0 == name@);
                            let si = old(self).shader_index_of(name@);
                            assert(0 <= si < old(self).shader_entries().len() && old(
                                self,
                            ).shader_entries()[si].0 == name@);
                            assert(si == i as int) by {
                                if si != i as int {
                                    assert(old(self).shader_entries()[si].0 != old(
                                        self,
                                    ).shader_entries()[i as int].0);
                                }
                            }
                            assert(self.shaders@ =~= old(self).shaders@.update(
                                i as int,
                                (old(self).shaders@[i as int].0, None),
                            ));
                            assert forall|k: int|
                                0 <= k < old(self).shader_entries().len() && k != i as int
                                implies #[trigger] self.shader_entries()[k] == old(
                                self,
                            ).shader_entries()[k] by {
                                assert(self.shader_entries()[k] == (self.shaders@[k].0@,
                                self.shaders@[k].1));
                            }
                            assert(self.shader_entries()[i as int].0 == name@);
                            assert(self.shader_entries()[i as int].1 is None);
                            assert(self.mesh_entries() =~= old(self).mesh_entries());
                            assert forall|p: int, q: int|
                                0 <= p < q < self.shader_entries().len() implies (
                            #[trigger] self.shader_entries()[p]).0 != (
                            #[trigger] self.shader_entries()[q]).0 by {
                                assert(self.shader_entries()[p].0 == old(
                                    self,
                                ).shader_entries()[p].0);
                                assert(self.shader_entries()[q].0 == old(
                                    self,
                                ).shader_entries()[q].0);
                            }
                        }
                    },
                    None => {
                        let ghost pre = *self;
                        self.shaders.push((name.clone(), None));
                        proof {
                            assert forall|k: int|
                                0 <= k < self.shader_entries().len() implies #[trigger] self.shader_entries()[k]
                                == (self.shaders@[k].0@, self.shaders@[k].1) by {}
                            assert(self.shader_entries().take(pre.shader_entries().len() as int)
                                =~= pre.shader_entries());
                            assert(!pre.has_shader(name@));
                            assert(self.mesh_entries() =~= pre.mesh_entries());
                            assert forall|p: int, q: int|
                                0 <= p < q < self.shader_entries().len() implies (
                            #[trigger] self.shader_entries()[p]).0 != (
                            #[trigger] self.shader_entries()[q]).0 by {
                                if q < pre.shader_entries().len() {
                                    assert(pre.shader_entries()[p].0 != pre.shader_entries()[q].0);
                                } else {
                                    assert(self.shader_entries()[q].0 == name@);
                                    assert(pre.shader_entries()[p].0 != name@);
                                }
                            }
                        }
                    },
                }
                (ResourceResult::Shader(name), RequestOutcome::Started)
            },
            AssetSource::Texture(texture) => {
                (ResourceResult::Texture(texture), RequestOutcome::Ignored)
            },
        }
    }

    /// Write a finished mesh load back: the payload lands and the entry
    /// flips to loaded in the same step. Completing a load for an unknown or
    /// already loaded key is a programming error, so both are required away.
    pub fn complete_mesh_load(&mut self, key: &String, mesh_type: MeshType)
        requires
            old(self).wf(),
            old(self).has_mesh(key@),
            !old(self).mesh_loaded(key@),
        ensures
            final(self).wf(),
            final(self).shader_entries() == old(self).shader_entries(),
            final(self).mesh_entries().len() == old(self).mesh_entries().len(),
            forall|j: int|
                0 <= j < old(self).mesh_entries().len() && j != old(self).mesh_index_of(key@)
                    ==> final(self).mesh_entries()[j] == #[trigger] old(self).mesh_entries()[j],
            final(self).has_mesh(key@),
            final(self).mesh_loaded(key@),
            final(self).mesh_at(key@).payload() == Some(mesh_type),
            final(self).mesh_index_of(key@) == old(self).mesh_index_of(key@),
    {
        let i = match assoc_index_mesh(&self.meshes, key) {
            Some(i) => i,
            None => {
                proof {
                    assert forall|k: int|
                        0 <= k < self.mesh_entries().len() implies (
                    #[trigger] self.mesh_entries()[k]).0 != key@ by {
                        assert(self.mesh_entries()[k].0 == self.meshes@[k].0@);
                    }
                    assert(false);
                }
                0
            },
        };
        proof {
            assert(old(self).mesh_entries()[i as int].0 == key@);
            let mi = old(self).mesh_index_of(key@);
            assert(0 <= mi < old(self).mesh_entries().len() && old(self).mesh_entries()[mi].0
                == key@);
            assert(mi == i as int) by {
                if mi != i as int {
                    assert(old(self).mesh_entries()[mi].0 != old(self).mesh_entries()[i as int].0);
                }
            }
        }
        let pair = self.meshes.remove(i);
        self.meshes.insert(i, (pair.0, Mesh { mesh_type: Some(mesh_type), is_loaded: true }));
        proof {
            assert(self.meshes@ =~= old(self).meshes@.update(
                i as int,
                (old(self).meshes@[i as int].0, self.meshes@[i as int].1),
            ));
            assert forall|k: int|
                0 <= k < old(self).mesh_entries().len() && k != i as int implies #[trigger] self.mesh_entries()[k]
                == old(self).mesh_entries()[k] by {
                assert(self.mesh_entries()[k] == (self.meshes@[k].0@, self.meshes@[k].1));
            }
            assert(self.mesh_entries()[i as int].0 == key@);
            assert(self.mesh_entries()[i as int].1.loaded());
            assert(self.mesh_entries()[i as int].1.payload() == Some(mesh_type));
            assert(self.shader_entries() =~= old(self).shader_entries());
            assert forall|p: int, q: int|
                0 <= p < q < self.mesh_entries().len() implies (#[trigger] self.mesh_entries()[p]).0
                != (#[trigger] self.mesh_entries()[q]).0 by {
                assert(self.mesh_entries()[p].0 == old(self).mesh_entries()[p].0);
                assert(self.mesh_entries()[q].0 == old(self).mesh_entries()[q].0);
            }
            assert forall|k: int|
                0 <= k < self.mesh_entries().len() implies (#[trigger] self.mesh_entries()[k]).1.wf() by {
                if k != i as int {
                    assert(self.mesh_entries()[k] == old(self).mesh_entries()[k]);
                }
            }
            let mi2 = self.mesh_index_of(key@);
            assert(self.mesh_entries()[i as int].0 == key@);
            assert(0 <= mi2 < self.mesh_entries().len() && self.mesh_entries()[mi2].0 == key@);
            assert(mi2 == i as int) by {
                if mi2 != i as int {
                    assert(self.mesh_entries()[mi2].0 != self.mesh_entries()[i as int].0);
                }
            }
        }
    }

    /// Write a compiled shader program back under its name.
    pub fn complete_shader_load(&mut self, key: &String, program: u32)
        requires
            old(self).wf(),
            old(self).has_shader(key@),
        ensures
            final(self).wf(),
            final(self).mesh_entries() == old(self).mesh_entries(),
            final(self).shader_entries().len() == old(self).shader_entries().len(),
            forall|j: int|
                0 <= j < old(self).shader_entries().len() && j != old(self).shader_index_of(key@)
                    ==> final(self).shader_entries()[j] == #[trigger] old(self).shader_entries()[j],
            final(self).has_shader(key@),
            final(self).shader_at(key@) == Some(program),
    {
        let i = match assoc_index_shader(&self.shaders, key) {
            Some(i) => i,
            None => {
                proof {
                    assert forall|k: int|
                        0 <= k < self.shader_entries().len() implies (
                    #[trigger] self.shader_entries()[k]).0 != key@ by {
                        assert(self.shader_entries()[k].0 == self.shaders@[k].0@);
                    }
                    assert(false);
                }
                0
            },
        };
        proof {
            assert(old(self).shader_entries()[i as int].0 == key@);
            let si = old(self).shader_index_of(key@);
            assert(0 <= si < old(self).shader_entries().len() && old(self).shader_entries()[si].0
                == key@);
            assert(si == i as int) by {
                if si != i as int {
                    assert(old(self).shader_entries()[si].0 != old(
                        self,
                    ).shader_entries()[i as int].0);
                }
            }
        }
        let pair = self.shaders.remove(i);
        self.shaders.insert(i, (pair.0, Some(program)));
        proof {
            assert(self.shaders@ =~= old(self).shaders@.update(
                i as int,
                (old(self).shaders@[i as int].0, Some(program)),
            ));
            assert forall|k: int|
                0 <= k < old(self).shader_entries().len() && k != i as int implies #[trigger] self.shader_entries()[k]
                == old(self).shader_entries()[k] by {
                assert(self.shader_entries()[k] == (self.shaders@[k].0@, self.shaders@[k].1));
            }
            assert(self.shader_entries()[i as int].0 == key@);
            assert(self.shader_entries()[i as int].1 == Some(program));
            assert(self.mesh_entries() =~= old(self).mesh_entries());
            assert forall|p: int, q: int|
                0 <= p < q < self.shader_entries().len() implies (
            #[trigger] self.shader_entries()[p]).0 != (#[trigger] self.shader_entries()[q]).0 by {
                assert(self.shader_entries()[p].0 == old(self).shader_entries()[p].0);
                assert(self.shader_entries()[q].0 == old(self).shader_entries()[q].0);
            }
            let si2 = self.shader_index_of(key@);
            assert(0 <= si2 < self.shader_entries().len() && self.shader_entries()[si2].0 == key@);
            assert(si2 == i as int) by {
                if si2 != i as int {
                    assert(self.shader_entries()[si2].0 != self.shader_entries()[i as int].0);
                }
            }
        }
    }

    /// How many mesh entries the cache holds, loaded or not.
    pub fn mesh_entry_count(&self) -> (r: usize)
        ensures
            r == self.mesh_entries().len(),
    {
        self.meshes.len()
    }

    /// The program id stored under this shader name: `None` when the name is
    /// unknown, `Some(None)` while the shader is still compiling.
    pub fn get_shader(&self, key: &String) -> (r: Option<Option<u32>>)
        requires
            self.wf(),
        ensures
            self.has_shader(key@) ==> r == Some(self.shader_at(key@)),
            !self.has_shader(key@) ==> r is None,
    {
        let found = assoc_index_shader(&self.shaders, key);
        match found {
            Some(i) => {
                proof {
                    assert(self.shader_entries()[i as int].0 == key@);
                    let si = self.shader_index_of(key@);
                    assert(0 <= si < self.shader_entries().len() && self.shader_entries()[si].0
                        == key@);
                    assert(si == i as int) by {
                        if si != i as int {
                            assert(self.shader_entries()[si].0 != self.shader_entries()[i as int].0);
                        }
                    }
                }
                Some(self.shaders[i].1)
            },
            None => {
                proof {
                    assert forall|k: int|
                        0 <= k < self.shader_entries().len() implies (
                    #[trigger] self.shader_entries()[k]).0 != key@ by {
                        assert(self.shader_entries()[k].0 == self.shaders@[k].0@);
                    }
                }
                None
            },
        }
    }
}

/// How [`Resources::add_resource`] changes the cache and what it reports,
/// case by case over the request.
pub open spec fn request_rel(
    pre: Resources,
    post: Resources,
    resource: AssetSource,
    res: ResourceResult,
    outcome: RequestOutcome,
) -> bool {
    match resource {
        AssetSource::Mesh(ObjType::Normal, loc) => {
            &&& (res matches ResourceResult::Mesh(k) && k@ == loc@)
            &&& mesh_request_effect(pre, post, loc@, outcome)
        },
        AssetSource::Mesh(ObjType::Textured, loc) => {
            &&& (res matches ResourceResult::Mesh(k) && k@ == loc@)
            &&& outcome == RequestOutcome::Ignored
            &&& post.mesh_entries() == pre.mesh_entries()
            &&& post.shader_entries() == pre.shader_entries()
        },
        AssetSource::Shader(name, _vertex, _fragment, _geo) => {
            &&& (res matches ResourceResult::Shader(k) && k@ == name@)
            &&& outcome == RequestOutcome::Started
            &&& post.mesh_entries() == pre.mesh_entries()
            &&& (if pre.has_shader(name@) {
                &&& post.shader_entries().len() == pre.shader_entries().len()
                &&& (forall|j: int|
                    0 <= j < pre.shader_entries().len() && j != pre.shader_index_of(name@)
                        ==> post.shader_entries()[j] == #[trigger] pre.shader_entries()[j])
                &&& post.shader_entries()[pre.shader_index_of(name@)].0 == name@
                &&& post.shader_entries()[pre.shader_index_of(name@)].1 is None
            } else {
                &&& post.shader_entries().len() == pre.shader_entries().len() + 1
                &&& post.shader_entries().take(pre.shader_entries().len() as int)
                    == pre.shader_entries()
                &&& post.shader_entries().last().0 == name@
                &&& post.shader_entries().last().1 is None
            })
        },
        AssetSource::Texture(t) => {
            &&& (res matches ResourceResult::Texture(k) && k@ == t@)
            &&& outcome == RequestOutcome::Ignored
            &&& post.mesh_entries() == pre.mesh_entries()
            &&& post.shader_entries() == pre.shader_entries()
        },
    }
}

/// How a mesh request for `key` changes the cache: nothing when the entry
/// is loaded or loading, a fresh unloaded placeholder when it was absent.
pub open spec fn mesh_request_effect(
    pre: Resources,
    post: Resources,
    key: Seq<char>,
    outcome: RequestOutcome,
) -> bool {
    &&& post.shader_entries() == pre.shader_entries()
    &&& (if pre.mesh_loaded(key) {
        &&& outcome == RequestOutcome::AlreadyLoaded
        &&& post.mesh_entries() == pre.mesh_entries()
    } else if pre.has_mesh(key) {
        &&& outcome == RequestOutcome::InFlight
        &&& post.mesh_entries() == pre.mesh_entries()
    } else {
        &&& outcome == RequestOutcome::Started
        &&& post.mesh_entries().len() == pre.mesh_entries().len() + 1
        &&& post.mesh_entries().take(pre.mesh_entries().len() as int) == pre.mesh_entries()
        &&& post.mesh_entries().last().0 == key
        &&& !post.mesh_entries().last().1.loaded()
        &&& post.mesh_entries().last().1.payload() is None
    })
}

/// Law: two requests for the same mesh key start exactly one load. When the
/// first request started the load, a second request — however it is
/// interleaved with the load itself — starts nothing and leaves the cache
/// untouched, so both callers end up reading the one entry the first
/// request created.
pub proof fn lemma_resource_request_idempotent(
    r0: Resources,
    r1: Resources,
    r2: Resources,
    loc: String,
    res1: ResourceResult,
    res2: ResourceResult,
    out2: RequestOutcome,
)
    requires
        r0.wf(),
        r1.wf(),
        request_rel(r0, r1, AssetSource::Mesh(ObjType::Normal, loc), res1, RequestOutcome::Started),
        request_rel(r1, r2, AssetSource::Mesh(ObjType::Normal, loc), res2, out2),
    ensures
        out2 != RequestOutcome::Started,
        r2.mesh_entries() == r1.mesh_entries(),
{
    let n = r0.mesh_entries().len() as int;
    assert(r1.mesh_entries()[n].0 == loc@);
    assert(r1.has_mesh(loc@));
}

/// Snapshot of one entity's transform, plain values only.
#[derive(Clone, Copy, Debug, PartialEq, Eq, Structural)]
pub struct TransformData {
    pub is_present: u8,
    pub translation: Vec3,
    pub rotation: Vec3,
    pub scale: Scalar,
}

/// Snapshot of one entity's render component: the logical asset names.
#[derive(Debug)]
pub struct RenderData {
    pub is_present: u8,
    pub mesh: String,
    pub shader: String,
    pub textures: Vec<String>,
}

impl Default for RenderData {
    /// An absent render component.
    fn default() -> (r: RenderData)
        ensures
            r.is_present == 0,
            r.mesh@ == Seq::<char>::empty(),
            r.shader@ == Seq::<char>::empty(),
            r.textures@.len() == 0,
    {
        RenderData { is_present: 0, mesh: String::new(), shader: String::new(), textures: Vec::new() }
    }
}

/// Everything the persistence collaborator stores about one entity.
#[derive(Debug)]
pub struct EntitySnapshot {
    pub transform: TransformData,
    pub render: RenderData,
}

/// Header of a stored world: how many entity records follow.
#[derive(Clone, Copy, Debug, PartialEq, Eq, Structural)]
pub struct StorageFileHeader {
    pub total_entities: u32,
}

/// A shader program description inside a level.
#[derive(Debug)]
pub struct ShaderObject {
    pub name: String,
    pub vert: String,
    pub frag: String,
    pub geo: Option<String>,
}

/// A level: its entities, the shaders and meshes they refer to, and the
/// font shader sources (vertex, fragment, name).
pub struct Level {
    pub entities: Vec<EntitySnapshot>,
    pub shader_programs: Vec<ShaderObject>,
    pub meshes: Vec<(ObjType, String)>,
    pub font_shader: (String, String, String),
}

/// Failures when locating or reading a level.
#[derive(Clone, Copy, Debug, PartialEq, Eq, Structural)]
pub enum WorldError {
    LevelNotFound,
    FailedToOpenLevel,
    UnableToParseFile,
}

/// A render snapshot describes a render component when the names and the
/// texture list agree.
pub open spec fn render_data_matches(rc: RenderComponent, rd: RenderData) -> bool {
    &&& rd.is_present == 1
    &&& rd.mesh@ == rc.mesh_label@
    &&& rd.shader@ == rc.shader_label@
    &&& rd.textures@.len() == rc.textures@.len()
    &&& (forall|i: int|
        0 <= i < rd.textures@.len() ==> (#[trigger] rd.textures@[i])@ == rc.textures@[i]@)
}

/// A snapshot describes an entity when each part is present exactly when
/// the component is, with equal content.
pub open spec fn snapshot_matches(w: World, id: EntityID, s: EntitySnapshot) -> bool {
    &&& id < w.components.slot_count()
    &&& (match w.components.positionable@[id as int] {
        Some(tc) => s.transform.is_present == 1 && s.transform.translation == tc.translation
            && s.transform.rotation == tc.rotation && s.transform.scale == tc.scale,
        None => s.transform.is_present == 0,
    })
    &&& (match w.components.renderables@[id as int] {
        Some(rc) => render_data_matches(rc, s.render),
        None => s.render.is_present == 0,
    })
}

/// First position of `id` in a list of entity ids.
fn entity_index(v: &Vec<EntityID>, id: EntityID) -> (r: Option<usize>)
    ensures
        match r {
            Some(i) => i < v@.len() && v@[i as int] == id && (forall|j: int|
                0 <= j < i ==> v@[j] != id),
            None => forall|j: int| 0 <= j < v@.len() ==> v@[j] != id,
        },
{
    let mut i: usize = 0;
    while i < v.len()
        invariant
            i <= v@.len(),
            forall|j: int| 0 <= j < i ==> v@[j] != id,
        decreases v@.len() - i,
    {
        if v[i] == id {
            return Some(i);
        }
        i += 1;
    }
    None
}

/// Copies of the strings in a list.
fn clone_strings(v: &Vec<String>) -> (r: Vec<String>)
    ensures
        r@.len() == v@.len(),
        forall|i: int| 0 <= i < v@.len() ==> (#[trigger] r@[i])@ == v@[i]@,
{
    let mut out: Vec<String> = Vec::new();
    let mut i: usize = 0;
    while i < v.len()
        invariant
            i <= v@.len(),
            out@.len() == i,
            forall|k: int| 0 <= k < i ==> (#[trigger] out@[k])@ == v@[k]@,
        decreases v@.len() - i,
    {
        out.push(v[i].clone());
        i += 1;
    }
    out
}

/// The composition root: entity registry, component arrays, resource cache
/// and event bus in one place. Entity ids are recycled through the deleted
/// list and never shared by two simultaneously alive entities.
pub struct World {
    pub event_manager: EventManager,
    pub font_shader: u32,
    pub resources: Resources,
    pub components: Components,
    pub entities: Vec<EntityID>,
    pub deleted_entities: Vec<EntityID>,
    pub next_entity_id: usize,
}

impl World {
    /// How many entity ids were ever handed out; ids below this bound index
    /// the component arrays.
    pub open spec fn allocated(self) -> nat {
        self.next_entity_id as nat
    }

    /// Whether an entity with this id is alive right now.
    pub open spec fn alive(self, id: EntityID) -> bool {
        exists|i: int| 0 <= i < self.entities@.len() && #[trigger] self.entities@[i] == id
    }

    /// The position of an alive entity in the registry order.
    pub open spec fn entity_index_of(self, id: EntityID) -> int {
        choose|i: int| 0 <= i < self.entities@.len() && #[trigger] self.entities@[i] == id
    }

    /// World invariant: alive and deleted ids are duplicate-free and
    /// disjoint, every id ever handed out stays below the allocation bound,
    /// the component arrays hold exactly one slot per allocated id, and the
    /// cache and the bus are themselves well formed.
    pub open spec fn wf(self) -> bool {
        &&& self.entities@.no_duplicates()
        &&& self.deleted_entities@.no_duplicates()
        &&& (forall|i: int|
            0 <= i < self.entities@.len() ==> (#[trigger] self.entities@[i]) < self.allocated())
        &&& (forall|i: int|
            0 <= i < self.deleted_entities@.len() ==> (#[trigger] self.deleted_entities@[i])
                < self.allocated())
        &&& (forall|i: int, j: int|
            0 <= i < self.entities@.len() && 0 <= j < self.deleted_entities@.len() ==> (
            #[trigger] self.entities@[i]) != (#[trigger] self.deleted_entities@[j]))
        &&& self.components.aligned()
        &&& self.components.slot_count() == self.allocated()
        &&& self.resources.wf()
        &&& self.event_manager.wf()
    }

    /// An empty world.
    pub fn new() -> (w: World)
        ensures
            w.wf(),
            w.entities@.len() == 0,
            w.deleted_entities@.len() == 0,
            w.allocated() == 0,
            w.event_manager.current_buffer().len() == 0,
            w.event_manager.next_buffer().len() == 0,
            w.event_manager.pending().len() == 0,
            w.event_manager.staged().len() == 0,
            w.event_manager.next_id() == 0,
            w.resources.mesh_entries().len() == 0,
            w.resources.shader_entries().len() == 0,
    {
        World {
            event_manager: EventManager::new(),
            font_shader: 0,
            resources: Resources::new(),
            components: Components::new(ENTITY_SIZE),
            entities: Vec::new(),
            deleted_entities: Vec::new(),
            next_entity_id: 0,
        }
    }

    /// Exec query for [`World::alive`].
    pub fn is_alive(&self, id: EntityID) -> (r: bool)
        ensures
            r == self.alive(id),
    {
        let found = entity_index(&self.entities, id);
        proof {
            if found is Some {
                assert(self.entities@[found->Some_0 as int] == id);
            }
        }
        found.is_some()
    }

    /// Allocate an entity: a recycled id if one waits in the deleted list
    /// (oldest first), otherwise the next unused id together with a blank
    /// slot in every component array. Emits `EntityCreated` for delivery in
    /// the running cycle. The returned id is alive and was not alive before.
    pub fn create_entity(&mut self) -> (id: EntityID)
        requires
            old(self).wf(),
            old(self).allocated() < usize::MAX,
            old(self).event_manager.next_id() < u64::MAX,
        ensures
            final(self).wf(),
            !old(self).alive(id),
            final(self).alive(id),
            final(self).entities@ == old(self).entities@.push(id),
            id < final(self).allocated(),
            (if old(self).deleted_entities@.len() > 0 {
                &&& id == old(self).deleted_entities@[0]
                &&& final(self).deleted_entities@ == old(self).deleted_entities@.remove(0)
                &&& final(self).allocated() == old(self).allocated()
                &&& final(self).components.renderables@ == old(self).components.renderables@
                &&& final(self).components.positionable@ == old(self).components.positionable@
                &&& final(self).components.physics@ == old(self).components.physics@
                &&& final(self).components.highlightable@ == old(self).components.highlightable@
            } else {
                &&& id == old(self).allocated()
                &&& final(self).allocated() == old(self).allocated() + 1
                &&& final(self).deleted_entities@ == old(self).deleted_entities@
                &&& final(self).components.renderables@ == old(self).components.renderables@.push(
                    None,
                )
                &&& final(self).components.positionable@ == old(
                    self,
                ).components.positionable@.push(None)
                &&& final(self).components.physics@ == old(self).components.physics@.push(None)
                &&& final(self).components.highlightable@ == old(
                    self,
                ).components.highlightable@.push(None)
            }),
            final(self).event_manager.current_buffer() == old(
                self,
            ).event_manager.current_buffer().push(
                (EventView {
                    id: old(self).event_manager.next_id(),
                    event_type: EventType::EntityCreated(id),
                    tags: Seq::<SystemType>::empty(),
                }),
            ),
            final(self).event_manager.next_buffer() == old(self).event_manager.next_buffer(),
            final(self).event_manager.pending() == old(self).event_manager.pending(),
            final(self).event_manager.staged() == old(self).event_manager.staged(),
            final(self).event_manager.next_id() == old(self).event_manager.next_id() + 1,
            final(self).resources == old(self).resources,
            final(self).font_shader == old(self).font_shader,
    {
        let id: EntityID = if self.deleted_entities.len() > 0 {
            let recycled = self.deleted_entities.remove(0);
            self.entities.push(recycled);
            proof {
                let e0 = old(self).entities@;
                let d0 = old(self).deleted_entities@;
                d0.remove_ensures(0);
                assert forall|p: int, q: int|
                    0 <= p < q < self.entities@.len() implies (#[trigger] self.entities@[p]) != (
                #[trigger] self.entities@[q]) by {
                    if q < e0.len() {
                        assert(e0[p] != e0[q]);
                    } else {
                        assert(self.entities@[q] == d0[0]);
                        assert(e0[p] != d0[0]);
                    }
                }
                assert forall|p: int, q: int|
                    0 <= p < self.entities@.len() && 0 <= q < self.deleted_entities@.len() implies (
                #[trigger] self.entities@[p]) != (#[trigger] self.deleted_entities@[q]) by {
                    assert(self.deleted_entities@[q] == d0[q + 1]);
                    if p < e0.len() {
                        assert(e0[p] != d0[q + 1]);
                    } else {
                        assert(self.entities@[p] == d0[0]);
                        assert(d0[0] != d0[q + 1]);
                    }
                }
            }
            recycled
        } else {
            let new_id = self.next_entity_id;
            self.next_entity_id = self.next_entity_id + 1;
            self.entities.push(new_id);
            self.components.create_entry();
            proof {
                let e0 = old(self).entities@;
                assert forall|p: int, q: int|
                    0 <= p < q < self.entities@.len() implies (#[trigger] self.entities@[p]) != (
                #[trigger] self.entities@[q]) by {
                    if q < e0.len() {
                        assert(e0[p] != e0[q]);
                    } else {
                        assert(self.entities@[q] == new_id);
                        assert(e0[p] < new_id);
                    }
                }
            }
            new_id
        };
        let ev = self.event_manager.create_event(EventType::EntityCreated(id));
        proof {
            assert(ev.wf());
        }
        self.event_manager.add_event(ev);
        proof {
            assert(!old(self).alive(id)) by {
                if old(self).alive(id) {
                    let w = old(self).entity_index_of(id);
                    assert(old(self).entities@[w] == id);
                }
            }
            assert(self.entities@[self.entities@.len() - 1] == id);
        }
        id
    }

    /// Remove an alive entity: its id moves to the deleted list for
    /// recycling, every one of its component slots is blanked before any
    /// reuse, and `EntityRemoved` is emitted for the running cycle.
    pub fn remove_entity(&mut self, id: EntityID)
        requires
            old(self).wf(),
            old(self).alive(id),
            old(self).event_manager.next_id() < u64::MAX,
        ensures
            final(self).wf(),
            !final(self).alive(id),
            final(self).entities@ == old(self).entities@.remove(old(self).entity_index_of(id)),
            final(self).deleted_entities@ == old(self).deleted_entities@.push(id),
            final(self).allocated() == old(self).allocated(),
            final(self).components.renderables@ == old(self).components.renderables@.update(
                id as int,
                None,
            ),
            final(self).components.positionable@ == old(self).components.positionable@.update(
                id as int,
                None,
            ),
            final(self).components.physics@ == old(self).components.physics@.update(
                id as int,
                None,
            ),
            final(self).components.highlightable@ == old(self).components.highlightable@.update(
                id as int,
                None,
            ),
            final(self).event_manager.current_buffer() == old(
                self,
            ).event_manager.current_buffer().push(
                (EventView {
                    id: old(self).event_manager.next_id(),
                    event_type: EventType::EntityRemoved(id),
                    tags: Seq::<SystemType>::empty(),
                }),
            ),
            final(self).event_manager.next_buffer() == old(self).event_manager.next_buffer(),
            final(self).event_manager.pending() == old(self).event_manager.pending(),
            final(self).event_manager.staged() == old(self).event_manager.staged(),
            final(self).event_manager.next_id() == old(self).event_manager.next_id() + 1,
            final(self).resources == old(self).resources,
    {
        let i = match entity_index(&self.entities, id) {
            Some(i) => i,
            None => {
                proof {
                    let w = self.entity_index_of(id);
                    assert(self.entities@[w] == id);
                    assert(false);
                }
                0
            },
        };
        proof {
            assert(self.entities@[i as int] == id);
            let w = old(self).entity_index_of(id);
            assert(0 <= w < self.entities@.len() && self.entities@[w] == id);
            assert(w == i as int) by {
                if w != i as int {
                    assert(self.entities@[w] != self.entities@[i as int]);
                }
            }
        }
        self.entities.remove(i);
        self.deleted_entities.push(id);
        self.components.clear_entry(id);
        let ev = self.event_manager.create_event(EventType::EntityRemoved(id));
        proof {
            assert(ev.wf());
        }
        self.event_manager.add_event(ev);
        proof {
            let e0 = old(self).entities@;
            let d0 = old(self).deleted_entities@;
            e0.remove_ensures(i as int);
            assert forall|p: int, q: int|
                0 <= p < q < self.entities@.len() implies (#[trigger] self.entities@[p]) != (
            #[trigger] self.entities@[q]) by {
                let p0: int = if p < i as int {
                    p
                } else {
                    p + 1
                };
                let q0: int = if q < i as int {
                    q
                } else {
                    q + 1
                };
                assert(self.entities@[p] == e0[p0]);
                assert(self.entities@[q] == e0[q0]);
                assert(e0[p0] != e0[q0]);
            }
            assert forall|p: int, q: int|
                0 <= p < self.entities@.len() && 0 <= q < self.deleted_entities@.len() implies (
            #[trigger] self.entities@[p]) != (#[trigger] self.deleted_entities@[q]) by {
                let p0: int = if p < i as int {
                    p
                } else {
                    p + 1
                };
                assert(self.entities@[p] == e0[p0]);
                if q < d0.len() {
                    assert(self.deleted_entities@[q] == d0[q]);
                    assert(e0[p0] != d0[q]);
                } else {
                    assert(self.deleted_entities@[q] == id);
                    assert(e0[p0] != e0[i as int]);
                }
            }
            assert forall|p: int, q: int|
                0 <= p < q < self.deleted_entities@.len() implies (
            #[trigger] self.deleted_entities@[p]) != (#[trigger] self.deleted_entities@[q]) by {
                if q < d0.len() {
                    assert(d0[p] != d0[q]);
                } else {
                    assert(self.deleted_entities@[q] == id);
                    assert(d0[p] != e0[i as int]);
                }
            }
            assert forall|k: int|
                0 <= k < self.entities@.len() implies (#[trigger] self.entities@[k]) != id by {
                let k0: int = if k < i as int {
                    k
                } else {
                    k + 1
                };
                assert(self.entities@[k] == e0[k0]);
                assert(e0[k0] != e0[i as int]);
            }
            assert(!self.alive(id));
        }
    }
}

impl World {
    /// Forward a resource request to the cache; nothing else in the world
    /// moves. The caller performs the load on [`RequestOutcome::Started`].
    pub fn add_resource(&mut self, resource: AssetSource) -> (r: (ResourceResult, RequestOutcome))
        requires
            old(self).wf(),
        ensures
            final(self).wf(),
            request_rel(old(self).resources, final(self).resources, resource, r.0, r.1),
            final(self).entities@ == old(self).entities@,
            final(self).deleted_entities@ == old(self).deleted_entities@,
            final(self).allocated() == old(self).allocated(),
            final(self).components == old(self).components,
            final(self).event_manager == old(self).event_manager,
            final(self).font_shader == old(self).font_shader,
    {
        self.resources.add_resource(resource)
    }

    /// The header a stored world starts with.
    pub fn save_header(&self) -> (h: StorageFileHeader)
        requires
            self.entities@.len() <= u32::MAX,
        ensures
            h.total_entities == self.entities@.len(),
    {
        StorageFileHeader { total_entities: self.entities.len() as u32 }
    }

    /// Snapshot every alive entity, in registry order: each pair carries the
    /// entity's id and a faithful copy of its transform and render state.
    pub fn enumerate_entities(&self) -> (r: Vec<(EntityID, EntitySnapshot)>)
        requires
            self.wf(),
        ensures
            r@.len() == self.entities@.len(),
            forall|i: int|
                0 <= i < r@.len() ==> (#[trigger] r@[i]).0 == self.entities@[i]
                    && snapshot_matches(*self, self.entities@[i], r@[i].1),
    {
        let mut out: Vec<(EntityID, EntitySnapshot)> = Vec::new();
        let mut i: usize = 0;
        while i < self.entities.len()
            invariant
                self.wf(),
                i <= self.entities@.len(),
                out@.len() == i,
                forall|k: int|
                    0 <= k < i ==> (#[trigger] out@[k]).0 == self.entities@[k]
                        && snapshot_matches(*self, self.entities@[k], out@[k].1),
            decreases self.entities@.len() - i,
        {
            let id = self.entities[i];
            let transform = match &self.components.positionable[id] {
                Some(tc) => TransformData {
                    is_present: 1,
                    translation: tc.translation,
                    rotation: tc.rotation,
                    scale: tc.scale,
                },
                None => TransformData {
                    is_present: 0,
                    translation: Vec3::zero(),
                    rotation: Vec3::zero(),
                    scale: 1,
                },
            };
            let render = match &self.components.renderables[id] {
                Some(rc) => RenderData {
                    is_present: 1,
                    mesh: rc.mesh_label.clone(),
                    shader: rc.shader_label.clone(),
                    textures: clone_strings(&rc.textures),
                },
                None => RenderData::default(),
            };
            out.push((id, EntitySnapshot { transform, render }));
            i += 1;
        }
        out
    }

    /// Rebuild one entity from its snapshot: allocate it, request its mesh
    /// if it is drawable (so a load is started at most once per key), and
    /// restore the transform and render components. Texture lists are not
    /// restored. Returns the new id and what the mesh request did —
    /// [`RequestOutcome::Ignored`] when the snapshot has no render part.
    pub fn create_entity_from_snapshot(&mut self, snapshot: &EntitySnapshot) -> (r: (
        EntityID,
        RequestOutcome,
    ))
        requires
            old(self).wf(),
            old(self).allocated() < usize::MAX,
            old(self).event_manager.next_id() < u64::MAX,
        ensures
            final(self).wf(),
            final(self).entities@ == old(self).entities@.push(r.0),
            !old(self).alive(r.0),
            final(self).alive(r.0),
            r.0 < final(self).allocated(),
            final(self).event_manager.current_buffer() == old(
                self,
            ).event_manager.current_buffer().push(
                (EventView {
                    id: old(self).event_manager.next_id(),
                    event_type: EventType::EntityCreated(r.0),
                    tags: Seq::<SystemType>::empty(),
                }),
            ),
            final(self).event_manager.pending() == old(self).event_manager.pending(),
            final(self).event_manager.staged() == old(self).event_manager.staged(),
            final(self).event_manager.next_buffer() == old(self).event_manager.next_buffer(),
            final(self).event_manager.next_id() == old(self).event_manager.next_id() + 1,
            snapshot.render.is_present == 1 ==> {
                &&& (final(self).components.renderables@[r.0 as int] matches Some(rc)
                    && rc.mesh_label@ == snapshot.render.mesh@ && rc.shader_label@
                    == snapshot.render.shader@ && rc.textures@.len() == 0)
                &&& mesh_request_effect(
                    old(self).resources,
                    final(self).resources,
                    snapshot.render.mesh@,
                    r.1,
                )
                &&& final(self).resources.has_mesh(snapshot.render.mesh@)
            },
            snapshot.render.is_present != 1 ==> {
                &&& final(self).resources == old(self).resources
                &&& r.1 == RequestOutcome::Ignored
                &&& final(self).components.renderables@[r.0 as int] == (if r.0 < old(
                    self,
                ).components.renderables@.len() {
                    old(self).components.renderables@[r.0 as int]
                } else {
                    None::<RenderComponent>
                })
            },
            snapshot.transform.is_present == 1 ==> final(self).components.positionable@[r.0 as int]
                == Some(
                TransformComponent {
                    translation: snapshot.transform.translation,
                    rotation: snapshot.transform.rotation,
                    scale: snapshot.transform.scale,
                },
            ),
            snapshot.transform.is_present != 1 ==> final(self).components.positionable@[r.0 as int]
                == (if r.0 < old(self).components.positionable@.len() {
                old(self).components.positionable@[r.0 as int]
            } else {
                None::<TransformComponent>
            }),
    {
        let id = self.create_entity();
        let outcome = if snapshot.render.is_present == 1 {
            let (_res, oc) = self.resources.add_resource(
                AssetSource::Mesh(ObjType::Normal, snapshot.render.mesh.clone()),
            );
            let comp = RenderComponent::new(
                snapshot.render.mesh.clone(),
                snapshot.render.shader.clone(),
            );
            *vec_index_mut(&mut self.components.renderables, id) = Some(comp);
            proof {
                if !old(self).resources.has_mesh(snapshot.render.mesh@) {
                    assert(self.resources.mesh_entries().last().0 == snapshot.render.mesh@);
                }
            }
            oc
        } else {
            RequestOutcome::Ignored
        };
        if snapshot.transform.is_present == 1 {
            *vec_index_mut(&mut self.components.positionable, id) = Some(
                TransformComponent::new(
                    snapshot.transform.translation,
                    snapshot.transform.rotation,
                    snapshot.transform.scale,
                ),
            );
        }
        (id, outcome)
    }

    /// Whether an id's slots hold both a render and a transform component,
    /// which is what the draw pass needs.
    pub open spec fn drawable(self, id: EntityID) -> bool {
        &&& (self.components.renderables@[id as int] is Some)
        &&& (self.components.positionable@[id as int] is Some)
    }

    /// The alive entities that the draw pass would visit, in registry order.
    pub open spec fn drawables_of(self, s: Seq<EntityID>) -> Seq<EntityID>
        decreases s.len(),
    {
        if s.len() == 0 {
            Seq::empty()
        } else {
            let rest = self.drawables_of(s.drop_last());
            if self.drawable(s.last()) {
                rest.push(s.last())
            } else {
                rest
            }
        }
    }

    /// The entities the draw pass visits this frame: every alive entity with
    /// both a render and a transform component, in registry order.
    pub fn get_render_components(&self) -> (r: Vec<EntityID>)
        requires
            self.wf(),
        ensures
            r@ == self.drawables_of(self.entities@),
    {
        let mut out: Vec<EntityID> = Vec::new();
        let mut i: usize = 0;
        while i < self.entities.len()
            invariant
                self.wf(),
                i <= self.entities@.len(),
                out@ == self.drawables_of(self.entities@.take(i as int)),
            decreases self.entities@.len() - i,
        {
            let id = self.entities[i];
            let has_render = self.components.renderables[id].is_some();
            let has_transform = self.components.positionable[id].is_some();
            if has_render && has_transform {
                out.push(id);
            }
            proof {
                let t1 = self.entities@.take(i + 1);
                assert(t1.drop_last() =~= self.entities@.take(i as int));
                assert(t1.last() == self.entities@[i as int]);
            }
            i += 1;
        }
        proof {
            assert(self.entities@.take(self.entities@.len() as int) =~= self.entities@);
        }
        out
    }

    /// The render component of an entity id, if its slot holds one.
    pub fn get_render_component(&self, id: EntityID) -> (r: Option<&RenderComponent>)
        ensures
            (id < self.components.renderables@.len()
                && self.components.renderables@[id as int] is Some) ==> (r matches Some(c)
                && Some(*c) == self.components.renderables@[id as int]),
            !(id < self.components.renderables@.len()
                && self.components.renderables@[id as int] is Some) ==> r is None,
    {
        if id < self.components.renderables.len() {
            match &self.components.renderables[id] {
                Some(c) => Some(c),
                None => None,
            }
        } else {
            None
        }
    }
}

/// Everything of a world except its event bus is unchanged between the two
/// states. Systems mutate only the bus (pending bookkeeping) while they
/// decide; the component writes go through their own completion calls.
pub open spec fn world_frame_except_em(pre: World, post: World) -> bool {
    &&& post.entities@ == pre.entities@
    &&& post.deleted_entities@ == pre.deleted_entities@
    &&& post.allocated() == pre.allocated()
    &&& post.components == pre.components
    &&& post.resources == pre.resources
    &&& post.font_shader == pre.font_shader
}

/// Law: no two simultaneously alive entities share an id — any two distinct
/// positions of the registry hold distinct ids.
pub proof fn lemma_entity_id_uniqueness(w: World, i: int, j: int)
    requires
        w.wf(),
        0 <= i < j < w.entities@.len(),
    ensures
        w.entities@[i] != w.entities@[j],
{
}

/// Law: the component arrays always hold exactly one slot per allocated
/// entity id, so after any create they are all the same length.
pub proof fn lemma_component_arrays_aligned(w: World)
    requires
        w.wf(),
    ensures
        w.components.positionable@.len() == w.components.renderables@.len(),
        w.components.physics@.len() == w.components.renderables@.len(),
        w.components.highlightable@.len() == w.components.renderables@.len(),
        w.components.renderables@.len() == w.allocated(),
{
}

/// Law: a recycled id comes back with blank component slots. Removing an
/// entity blanks its slots (`w1` relates to `w0` as [`World::remove_entity`]
/// ensures), and a create that recycles an id leaves the arrays untouched
/// (`w2` relates to `w1` as [`World::create_entity`] ensures on its
/// recycling branch), so the reused id starts with `None` in every array.
pub proof fn lemma_recycled_slots_blank(w0: World, w1: World, w2: World, id: EntityID)
    requires
        id < w0.components.renderables@.len(),
        id < w0.components.positionable@.len(),
        id < w0.components.physics@.len(),
        id < w0.components.highlightable@.len(),
        w1.components.renderables@ == w0.components.renderables@.update(id as int, None),
        w1.components.positionable@ == w0.components.positionable@.update(id as int, None),
        w1.components.physics@ == w0.components.physics@.update(id as int, None),
        w1.components.highlightable@ == w0.components.highlightable@.update(id as int, None),
        w2.components.renderables@ == w1.components.renderables@,
        w2.components.positionable@ == w1.components.positionable@,
        w2.components.physics@ == w1.components.physics@,
        w2.components.highlightable@ == w1.components.highlightable@,
    ensures
        w2.components.renderables@[id as int] is None,
        w2.components.positionable@[id as int] is None,
        w2.components.physics@[id as int] is None,
        w2.components.highlightable@[id as int] is None,
{
}

} // verus!
