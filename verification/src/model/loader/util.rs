//! Pieces of glTF loading that compute on plain values: decoding embedded
//! buffers, the offsets of the buffers in the main buffer, the root nodes of
//! the scene, and the bookkeeping of mesh instances and joints met while
//! walking a model's node tree.
use crate::model::model::LocalTransform;
use base64::Engine;
use std::collections::HashMap;
use vstd::prelude::*;

verus! {

/// Why an embedded buffer could not be decoded.
#[derive(Debug)]
pub enum DataUriError {
    /// The URI does not start with `data:application/gltf-buffer;`.
    MissingPrefix,
    /// The URI has no comma between its metadata and its data.
    NoComma,
    /// The metadata names an encoding other than base64.
    UnsupportedEncoding(String),
    /// The data is not valid base64.
    InvalidBase64,
}

/// The prefix of an embedded glTF buffer.
pub const DATA_URI_PREFIX: &'static str = "data:application/gltf-buffer;";

/// The characters with the Unicode `White_Space` property.
pub open spec fn is_white_space(c: char) -> bool {
    let u = c as u32;
    ||| 0x09 <= u <= 0x0D
    ||| u == 0x20
    ||| u == 0x85
    ||| u == 0xA0
    ||| u == 0x1680
    ||| 0x2000 <= u <= 0x200A
    ||| u == 0x2028
    ||| u == 0x2029
    ||| u == 0x202F
    ||| u == 0x205F
    ||| u == 0x3000
}

/// `s` without its leading white space.
pub open spec fn trim_start(s: Seq<char>) -> Seq<char>
    decreases s.len(),
{
    if s.len() > 0 && is_white_space(s[0]) {
        trim_start(s.drop_first())
    } else {
        s
    }
}

/// `s` without its trailing white space.
pub open spec fn trim_end(s: Seq<char>) -> Seq<char>
    decreases s.len(),
{
    if s.len() > 0 && is_white_space(s.last()) {
        trim_end(s.drop_last())
    } else {
        s
    }
}

/// `s` without its leading and trailing white space.
pub open spec fn trimmed(s: Seq<char>) -> Seq<char> {
    trim_end(trim_start(s))
}

/// The position of the first comma in `s`, if there is one.
pub open spec fn first_comma(s: Seq<char>) -> Option<int>
    decreases s.len(),
{
    if s.len() == 0 {
        None
    } else if s[0] == ',' {
        Some(0)
    } else {
        match first_comma(s.drop_first()) {
            Some(i) => Some(i + 1),
            None => None,
        }
    }
}

/// What the standard base64 engine decodes the text `input` to, `None`
/// where the text is not valid base64.
pub uninterp spec fn base64_standard_decoded(input: Seq<char>) -> Option<Seq<u8>>;

/// Decodes `input` with `base64::engine::general_purpose::STANDARD`. The
/// result depends on the text alone; which text decodes to what is left to
/// the named result.
#[verifier::external_body]
fn base64_decode(input: &str) -> (r: Option<Vec<u8>>)
    ensures
        r is Some <==> base64_standard_decoded(input@) is Some,
        r matches Some(v) ==> v@ == base64_standard_decoded(input@).unwrap(),
{
    base64::engine::general_purpose::STANDARD.decode(input).ok()
}

/// `str::strip_prefix`: the rest of `s` after `prefix`, if `s` starts with it.
#[verifier::external_body]
fn str_strip_prefix<'a>(s: &'a str, prefix: &str) -> (r: Option<&'a str>)
    ensures
        r is Some <==> (prefix@.len() <= s@.len() && s@.take(prefix@.len() as int) == prefix@),
        r matches Some(rest) ==> rest@ == s@.skip(prefix@.len() as int),
{
    s.strip_prefix(prefix)
}

/// `str::split_once` at the first comma: the text before it and the text
/// after it.
#[verifier::external_body]
fn str_split_once_comma<'a>(s: &'a str) -> (r: Option<(&'a str, &'a str)>)
    ensures
        r is Some <==> first_comma(s@) is Some,
        r matches Some((before, after)) ==> before@ == s@.take(first_comma(s@).unwrap())
            && after@ == s@.skip(first_comma(s@).unwrap() + 1),
{
    s.split_once(',')
}

/// `str::trim`: `s` without leading and trailing white space.
#[verifier::external_body]
fn str_trim(s: &str) -> (r: &str)
    ensures
        r@ == trimmed(s@),
{
    s.trim()
}

/// `str == str`.
#[verifier::external_body]
fn str_eq(a: &str, b: &str) -> (r: bool)
    ensures
        r == (a@ == b@),
{
    a == b
}

/// Decodes an embedded glTF buffer: a URI of the form
/// `data:application/gltf-buffer;<encoding>,<data>`, where the encoding,
/// trimmed of white space, must be `base64`.
pub fn decode_gltf_data_uri(uri: &str) -> (r: Result<Vec<u8>, DataUriError>)
    ensures
        ({
            let prefix = DATA_URI_PREFIX@;
            let starts = prefix.len() <= uri@.len() && uri@.take(prefix.len() as int) == prefix;
            let rest = uri@.skip(prefix.len() as int);
            &&& !starts <==> (r matches Err(DataUriError::MissingPrefix))
            &&& (starts && first_comma(rest) is None) <==> (r matches Err(DataUriError::NoComma))
            &&& (starts && first_comma(rest) is Some) ==> {
                let i = first_comma(rest).unwrap();
                let meta = trimmed(rest.take(i));
                let data = rest.skip(i + 1);
                &&& meta != "base64"@ ==> (r matches Err(DataUriError::UnsupportedEncoding(s))
                    && s@ == meta)
                &&& meta == "base64"@ ==> (base64_standard_decoded(data) is Some <==> r is Ok)
                &&& meta == "base64"@ ==> (base64_standard_decoded(data) is None <==> (r matches Err(
                    DataUriError::InvalidBase64,
                )))
                &&& (r matches Ok(bytes) ==> bytes@ == base64_standard_decoded(data).unwrap())
            }
        }),
{
    let rest = match str_strip_prefix(uri, DATA_URI_PREFIX) {
        Some(rest) => rest,
        None => {
            return Err(DataUriError::MissingPrefix);
        },
    };
    let (meta, encoded_data) = match str_split_once_comma(rest) {
        Some(parts) => parts,
        None => {
            return Err(DataUriError::NoComma);
        },
    };
    let encoding = str_trim(meta);
    if str_eq(encoding, "base64") {
        match base64_decode(encoded_data) {
            Some(decoded) => Ok(decoded),
            None => Err(DataUriError::InvalidBase64),
        }
    } else {
        Err(DataUriError::UnsupportedEncoding(encoding.to_owned()))
    }
}

/// The offset of each buffer in the main buffer: the buffers lie one after
/// the other, so each starts where the lengths of the earlier ones add up to.
pub open spec fn buffer_offset(lengths: Seq<u64>, i: int) -> int
    decreases i,
{
    if i <= 0 {
        0
    } else {
        buffer_offset(lengths, i - 1) + lengths[i - 1]
    }
}

proof fn lemma_buffer_offset_monotone(lengths: Seq<u64>, i: int, j: int)
    requires
        0 <= i <= j,
    ensures
        buffer_offset(lengths, i) <= buffer_offset(lengths, j),
    decreases j - i,
{
    if i < j {
        lemma_buffer_offset_monotone(lengths, i, j - 1);
    }
}

/// The offset of each buffer in the main buffer, given the buffers'
/// lengths in order.
pub fn get_buffer_offsets(buffer_lengths: &Vec<u64>) -> (r: Vec<u64>)
    requires
        buffer_offset(buffer_lengths@, buffer_lengths@.len() as int) <= u64::MAX,
    ensures
        r@.len() == buffer_lengths@.len(),
        forall|i: int| 0 <= i < r@.len() ==> #[trigger] r@[i] == buffer_offset(buffer_lengths@, i),
{
    let mut buffer_offsets: Vec<u64> = Vec::new();
    let mut last_buffer_size: u64 = 0;
    let n = buffer_lengths.len();
    let mut i: usize = 0;
    while i < n
        invariant
            i <= n,
            n == buffer_lengths@.len(),
            buffer_offset(buffer_lengths@, n as int) <= u64::MAX,
            last_buffer_size == buffer_offset(buffer_lengths@, i as int),
            buffer_offsets@.len() == i,
            forall|q: int|
                0 <= q < i ==> #[trigger] buffer_offsets@[q] == buffer_offset(buffer_lengths@, q),
        decreases n - i,
    {
        buffer_offsets.push(last_buffer_size);
        proof {
            lemma_buffer_offset_monotone(buffer_lengths@, i + 1, n as int);
        }
        last_buffer_size += buffer_lengths[i];
        i += 1;
    }
    buffer_offsets
}

/// What the root node search reads of a node of the scene: its index,
/// whether it has a mesh and how many children it has.
#[derive(Debug, Clone, Copy)]
pub struct SceneNode {
    pub index: usize,
    pub has_mesh: bool,
    pub child_count: usize,
}

/// A node of the scene roots a model when it has a mesh or children.
pub open spec fn is_model_root(n: SceneNode) -> bool {
    n.has_mesh || n.child_count != 0
}

/// `x` is the index of a node of the scene that has a mesh or children.
pub open spec fn root_of_model_node(nodes: Seq<SceneNode>, x: usize) -> bool {
    exists|i: int| 0 <= i < nodes.len() && nodes[i].index == x && (nodes[i].has_mesh || nodes[i].child_count != 0)
}

/// Every node of the scene that has a mesh roots a model, whatever its
/// children, and so does every node that has children, whatever its mesh:
/// such a node's index is among the roots. Every root is the index of such a
/// node, and no node adds more than one root.
pub proof fn lemma_root_nodes(nodes: Seq<SceneNode>)
    ensures
        ({
            let roots = nodes.filter(|n: SceneNode| is_model_root(n)).map_values(|n: SceneNode| n.index);
            &&& forall|i: int|
                0 <= i < nodes.len() && (nodes[i].has_mesh || nodes[i].child_count != 0)
                    ==> #[trigger] roots.contains(nodes[i].index)
            &&& forall|j: int|
                0 <= j < roots.len() ==> #[trigger] root_of_model_node(nodes, roots[j])
            &&& roots.len() <= nodes.len()
        }),
{
    let pred = |n: SceneNode| is_model_root(n);
    let kept = nodes.filter(pred);
    let roots = kept.map_values(|n: SceneNode| n.index);
    nodes.filter_lemma(pred);
    assert forall|i: int|
        0 <= i < nodes.len() && (nodes[i].has_mesh || nodes[i].child_count != 0) implies #[trigger] roots.contains(
        nodes[i].index,
    ) by {
        assert(pred(nodes[i]));
        assert(kept.contains(nodes[i]));
        let j = choose|j: int| 0 <= j < kept.len() && kept[j] == nodes[i];
        assert(roots[j] == nodes[i].index);
    }
    assert forall|j: int| 0 <= j < roots.len() implies #[trigger] root_of_model_node(nodes, roots[j]) by {
        assert(pred(kept[j]));
        assert(kept.contains(kept[j]));
        nodes.lemma_filter_contains_rev(pred, kept[j]);
        let i = choose|i: int| 0 <= i < nodes.len() && nodes[i] == kept[j];
        assert(nodes[i].index == roots[j]);
        assert(nodes[i].has_mesh || nodes[i].child_count != 0);
    }
    assert(roots == nodes.filter(|n: SceneNode| is_model_root(n)).map_values(|n: SceneNode| n.index));
    assert(roots.len() <= nodes.len());
}

/// The indices of the nodes of the first scene that have a mesh or
/// children, in order.
pub fn get_root_nodes(scene_nodes: &Vec<SceneNode>) -> (r: Vec<usize>)
    ensures
        r@ == scene_nodes@.filter(|n: SceneNode| is_model_root(n)).map_values(
            |n: SceneNode| n.index,
        ),
        forall|i: int|
            0 <= i < scene_nodes@.len() && (scene_nodes@[i].has_mesh || scene_nodes@[i].child_count
                != 0) ==> #[trigger] r@.contains(scene_nodes@[i].index),
        forall|j: int| 0 <= j < r@.len() ==> #[trigger] root_of_model_node(scene_nodes@, r@[j]),
{
    let ghost pred = |n: SceneNode| is_model_root(n);
    let mut roots: Vec<usize> = Vec::new();
    let n = scene_nodes.len();
    let mut i: usize = 0;
    proof {
        reveal(Seq::filter);
        assert(scene_nodes@.subrange(0, 0) =~= Seq::<SceneNode>::empty());
    }
    while i < n
        invariant
            i <= n,
            n == scene_nodes@.len(),
            pred == (|n: SceneNode| is_model_root(n)),
            roots@ =~= scene_nodes@.subrange(0, i as int).filter(pred).map_values(
                |n: SceneNode| n.index,
            ),
        decreases n - i,
    {
        proof {
            reveal(Seq::filter);
            assert(scene_nodes@.subrange(0, i + 1).drop_last() =~= scene_nodes@.subrange(
                0,
                i as int,
            ));
        }
        let node = &scene_nodes[i];
        if node.has_mesh || node.child_count != 0 {
            roots.push(node.index);
        }
        i += 1;
    }
    proof {
        assert(scene_nodes@.subrange(0, n as int) =~= scene_nodes@);
    }
    proof {
        lemma_root_nodes(scene_nodes@);
    }
    roots
}

/// The mesh instances met while walking a model's node tree: the distinct
/// meshes in the order first met, how many nodes instance each, the local
/// transform of each instance grouped by mesh, and for each mesh node the
/// index of its local transform in the model's transforms.
pub struct ModelMeshData<M> {
    pub mesh_ids: Vec<u32>,
    pub mesh_instances: Vec<u32>,
    pub mesh_transform_buckets: Vec<Vec<LocalTransform<M>>>,
    pub node_to_lt_index_map: HashMap<usize, usize>,
}

/// The joints met while walking a model's node tree: their node indices,
/// their pose transforms, and each joint node's index among the skin's
/// joints.
pub struct ModelJointData<M> {
    pub joint_ids: Vec<usize>,
    pub joint_pose_transforms: Vec<M>,
    pub joint_to_joint_index_map: HashMap<usize, usize>,
}

/// What a [`ModelMeshData`] holds: the mesh ids, their instance counts, the
/// transform groups and the node map.
pub struct MeshDataView<M> {
    pub ids: Seq<u32>,
    pub instances: Seq<u32>,
    pub buckets: Seq<Seq<LocalTransform<M>>>,
    pub node_map: Map<usize, usize>,
}

impl<M> View for ModelMeshData<M> {
    type V = MeshDataView<M>;

    open spec fn view(&self) -> MeshDataView<M> {
        MeshDataView {
            ids: self.mesh_ids@,
            instances: self.mesh_instances@,
            buckets: self.mesh_transform_buckets@.map_values(|b: Vec<LocalTransform<M>>| b@),
            node_map: self.node_to_lt_index_map@,
        }
    }
}

/// The per-mesh lists have one entry per distinct mesh, and each mesh has as
/// many instances as transforms.
pub open spec fn mesh_data_wf<M>(v: MeshDataView<M>) -> bool {
    &&& v.ids.len() == v.instances.len()
    &&& v.ids.len() == v.buckets.len()
    &&& forall|p: int| 0 <= p < v.ids.len() ==> #[trigger] v.instances[p] == v.buckets[p].len()
}

/// The number of transforms in the first `k` groups.
pub open spec fn transforms_before<M>(buckets: Seq<Seq<LocalTransform<M>>>, k: int) -> int
    decreases k,
{
    if k <= 0 {
        0
    } else {
        transforms_before(buckets, k - 1) + buckets[k - 1].len()
    }
}

/// The position of the first occurrence of `id` in `ids`.
pub open spec fn first_position<T>(ids: Seq<T>, id: T) -> Option<int>
    decreases ids.len(),
{
    if ids.len() == 0 {
        None
    } else if ids.last() == id && first_position(ids.drop_last(), id) is None {
        Some(ids.len() - 1)
    } else {
        first_position(ids.drop_last(), id)
    }
}

pub proof fn lemma_first_position_spec<T>(ids: Seq<T>, id: T)
    ensures
        first_position(ids, id) matches Some(p) ==> 0 <= p < ids.len() && ids[p] == id && (
        forall|q: int| 0 <= q < p ==> ids[q] != id),
        first_position(ids, id) is None ==> forall|q: int| 0 <= q < ids.len() ==> ids[q] != id,
    decreases ids.len(),
{
    if ids.len() > 0 {
        let prefix = ids.drop_last();
        lemma_first_position_spec(prefix, id);
        assert(forall|q: int| 0 <= q < prefix.len() ==> prefix[q] == ids[q]);
    }
}

proof fn lemma_transforms_before_monotone<M>(buckets: Seq<Seq<LocalTransform<M>>>, i: int, j: int)
    requires
        0 <= i <= j,
    ensures
        0 <= transforms_before(buckets, i) <= transforms_before(buckets, j),
    decreases j,
{
    if j > 0 {
        let k = if i < j {
            i
        } else {
            j - 1
        };
        lemma_transforms_before_monotone(buckets, k, j - 1);
    }
}

/// The mesh id that a mesh index is recorded as.
pub open spec fn mesh_id_of(mesh_index: usize) -> u32 {
    mesh_index as u32
}

/// Where the local transform of a node instancing mesh `id` is recorded:
/// after the transforms of the groups up to and including the mesh's own
/// group, or after all of them for a mesh not met before.
pub open spec fn mesh_node_transform_index<M>(v: MeshDataView<M>, id: u32) -> int {
    match first_position(v.ids, id) {
        Some(p) => transforms_before(v.buckets, p + 1),
        None => transforms_before(v.buckets, v.ids.len() as int),
    }
}

/// The mesh data after node `node_index`, an instance of mesh `mesh_index`
/// with the local transform `transform`, is recorded: a mesh met before gets
/// one more instance and the transform at the end of its group; a new mesh
/// gets a group of its own. The node is mapped to the index of the
/// transform.
pub open spec fn mesh_step<M>(v: MeshDataView<M>, node_index: usize, mesh_index: usize, transform: M) -> MeshDataView<M> {
    let id = mesh_id_of(mesh_index);
    let lt = LocalTransform { transform_matrix: transform, model_index: 0 };
    let index = mesh_node_transform_index(v, id) as usize;
    match first_position(v.ids, id) {
        Some(p) => MeshDataView {
            ids: v.ids,
            instances: v.instances.update(p, (v.instances[p] + 1) as u32),
            buckets: v.buckets.update(p, v.buckets[p].push(lt)),
            node_map: v.node_map.insert(node_index, index),
        },
        None => MeshDataView {
            ids: v.ids.push(id),
            instances: v.instances.push(1),
            buckets: v.buckets.push(seq![lt]),
            node_map: v.node_map.insert(node_index, index),
        },
    }
}

/// The step can be taken: the node is not recorded yet, and the transform
/// index and the mesh's instance count stay within their types.
pub open spec fn mesh_step_ok<M>(v: MeshDataView<M>, node_index: usize, mesh_index: usize) -> bool {
    let id = mesh_id_of(mesh_index);
    &&& !v.node_map.contains_key(node_index)
    &&& mesh_node_transform_index(v, id) <= usize::MAX
    &&& (first_position(v.ids, id) matches Some(p) ==> v.instances[p] < u32::MAX)
}

impl<M: Copy> ModelMeshData<M> {
    /// No mesh met yet.
    pub fn default() -> (r: Self)
        ensures
            r@ == (MeshDataView::<M> {
                ids: seq![],
                instances: seq![],
                buckets: seq![],
                node_map: Map::empty(),
            }),
    {
        let r = Self {
            mesh_ids: Vec::new(),
            mesh_instances: Vec::new(),
            mesh_transform_buckets: Vec::new(),
            node_to_lt_index_map: HashMap::new(),
        };
        proof {
            assert(r@.buckets =~= Seq::<Seq<LocalTransform<M>>>::empty());
        }
        r
    }

    /// Records node `node_index`, an instance of mesh `mesh_index` with the
    /// local transform `transform`, as [`mesh_step`] says.
    pub fn add_mesh_node(&mut self, node_index: usize, mesh_index: usize, transform: M)
        requires
            mesh_data_wf(old(self)@),
            mesh_step_ok(old(self)@, node_index, mesh_index),
        ensures
            mesh_data_wf(final(self)@),
            final(self)@ == mesh_step(old(self)@, node_index, mesh_index, transform),
    {
        let id = #[verifier::truncate]
        (mesh_index as u32);
        let local_transform = LocalTransform { transform_matrix: transform, model_index: 0 };
        let ghost ids = self.mesh_ids@;
        let ghost v = self@;
        let ghost buckets = v.buckets;
        let mut transform_index: usize = 0;
        let n = self.mesh_ids.len();
        let mut idx: usize = 0;
        let mut found = false;
        while idx < n
            invariant_except_break
                forall|q: int| 0 <= q < idx ==> ids[q] != id,
                transform_index == transforms_before(buckets, idx as int),
                !found,
            invariant
                idx <= n,
                n == ids.len(),
                ids == self.mesh_ids@,
                v == self@,
                buckets == v.buckets,
                *self == *old(self),
                mesh_data_wf(v),
                mesh_node_transform_index(v, id) <= usize::MAX,
                id == mesh_id_of(mesh_index),
            ensures
                found ==> idx < n && ids[idx as int] == id && (forall|q: int|
                    0 <= q < idx ==> ids[q] != id) && transform_index == transforms_before(
                    buckets,
                    idx + 1,
                ),
                !found ==> idx == n && (forall|q: int| 0 <= q < n ==> ids[q] != id)
                    && transform_index == transforms_before(buckets, n as int),
            decreases n - idx,
        {
            proof {
                lemma_first_position_spec(ids, id);
                match first_position(ids, id) {
                    Some(p) => {
                        lemma_transforms_before_monotone(buckets, idx + 1, p + 1);
                    },
                    None => {
                        lemma_transforms_before_monotone(buckets, idx + 1, n as int);
                    },
                }
            }
            transform_index += self.mesh_transform_buckets[idx].len();
            if self.mesh_ids[idx] == id {
                found = true;
                break;
            }
            idx += 1;
        }
        proof {
            lemma_first_position_spec(ids, id);
        }
        let ghost after = mesh_step(v, node_index, mesh_index, transform);
        if found {
            let count = self.mesh_instances[idx];
            self.mesh_instances.set(idx, count + 1);
            let ghost old_buckets = self.mesh_transform_buckets@;
            let mut bucket = self.mesh_transform_buckets.remove(idx);
            bucket.push(local_transform);
            self.mesh_transform_buckets.insert(idx, bucket);
            proof {
                assert(self.mesh_transform_buckets@ =~= old_buckets.update(idx as int, bucket));
                assert(self@.buckets =~= after.buckets);
                assert(self@.instances =~= after.instances);
            }
        } else {
            self.mesh_ids.push(id);
            self.mesh_instances.push(1);
            let mut bucket: Vec<LocalTransform<M>> = Vec::new();
            bucket.push(local_transform);
            self.mesh_transform_buckets.push(bucket);
            proof {
                assert(bucket@ =~= seq![local_transform]);
                assert(self@.buckets =~= after.buckets);
            }
        }
        let _ = self.node_to_lt_index_map.insert(node_index, transform_index);
        proof {
            assert(self@.node_map =~= after.node_map);
        }
    }
}

/// What a [`ModelJointData`] holds: the joint node indices, their poses and
/// the joint map.
pub struct JointDataView<M> {
    pub ids: Seq<usize>,
    pub poses: Seq<M>,
    pub joint_map: Map<usize, usize>,
}

impl<M> View for ModelJointData<M> {
    type V = JointDataView<M>;

    open spec fn view(&self) -> JointDataView<M> {
        JointDataView {
            ids: self.joint_ids@,
            poses: self.joint_pose_transforms@,
            joint_map: self.joint_to_joint_index_map@,
        }
    }
}

/// The joint data after node `node_index`, a node without a mesh, is
/// recorded: where it is one of the skins' joints `joint_ids`, it is mapped
/// to the position of its first occurrence there and gets the pose
/// `identity`; else nothing changes.
pub open spec fn joint_step<M>(v: JointDataView<M>, node_index: usize, joint_ids: Seq<usize>, identity: M) -> JointDataView<M> {
    match first_position(joint_ids, node_index) {
        Some(j) => JointDataView {
            ids: v.ids.push(node_index),
            poses: v.poses.push(identity),
            joint_map: v.joint_map.insert(node_index, j as usize),
        },
        None => v,
    }
}

/// A joint node needs an inverse bind matrix in the first skin for each of
/// the skins' joints.
pub open spec fn joint_step_ok(node_index: usize, joint_ids: Seq<usize>, skin0_ibm_count: Option<usize>) -> bool {
    first_position(joint_ids, node_index) is Some ==> (skin0_ibm_count matches Some(c)
        && joint_ids.len() <= c)
}

impl<M: Copy> ModelJointData<M> {
    /// No joint met yet.
    pub fn default() -> (r: Self)
        ensures
            r@ == (JointDataView::<M> { ids: seq![], poses: seq![], joint_map: Map::empty() }),
    {
        Self {
            joint_ids: Vec::new(),
            joint_pose_transforms: Vec::new(),
            joint_to_joint_index_map: HashMap::new(),
        }
    }

    /// Records node `node_index`, a node without a mesh, as [`joint_step`]
    /// says. `skin0_ibm_count` is the number of inverse bind matrices of the
    /// first skin, where there is one.
    pub fn add_joint_node(
        &mut self,
        node_index: usize,
        joint_ids: &Vec<usize>,
        skin0_ibm_count: Option<usize>,
        identity: M,
    )
        requires
            joint_step_ok(node_index, joint_ids@, skin0_ibm_count),
        ensures
            final(self)@ == joint_step(old(self)@, node_index, joint_ids@, identity),
    {
        let n = joint_ids.len();
        let mut j: usize = 0;
        while j < n
            invariant
                j <= n,
                n == joint_ids@.len(),
                forall|q: int| 0 <= q < j ==> joint_ids@[q] != node_index,
            ensures
                j < n ==> joint_ids@[j as int] == node_index,
            decreases n - j,
        {
            if joint_ids[j] == node_index {
                break;
            }
            j += 1;
        }
        proof {
            lemma_first_position_spec(joint_ids@, node_index);
        }
        if j < n {
            self.joint_to_joint_index_map.insert(node_index, j);
            self.joint_ids.push(node_index);
            self.joint_pose_transforms.push(identity);
        }
    }
}

/// A node met while walking a model's node tree depth first, parents before
/// children: its index, the mesh it instances (if any), and its transform
/// relative to the model's root.
pub struct NodeVisit<M> {
    pub node_index: usize,
    pub mesh_index: Option<usize>,
    pub transform: M,
}

/// The mesh instances and joints of a model.
pub struct ModelData<M> {
    pub mesh_data: ModelMeshData<M>,
    pub joint_data: ModelJointData<M>,
}

/// The mesh and joint data after the first `k` visits: a node with a mesh is
/// recorded as a mesh instance, any other node as a possible joint.
pub open spec fn collected<M>(visits: Seq<NodeVisit<M>>, joint_ids: Seq<usize>, identity: M, k: int) -> (
    MeshDataView<M>,
    JointDataView<M>,
)
    decreases k,
{
    if k <= 0 {
        (
            MeshDataView { ids: seq![], instances: seq![], buckets: seq![], node_map: Map::empty() },
            JointDataView { ids: seq![], poses: seq![], joint_map: Map::empty() },
        )
    } else {
        let (mv, jv) = collected(visits, joint_ids, identity, k - 1);
        let v = visits[k - 1];
        match v.mesh_index {
            Some(mesh_index) => (mesh_step(mv, v.node_index, mesh_index, v.transform), jv),
            None => (mv, joint_step(jv, v.node_index, joint_ids, identity)),
        }
    }
}

/// The number of visits among the first `k` that instance a mesh.
pub open spec fn mesh_visits<M>(visits: Seq<NodeVisit<M>>, k: int) -> int
    decreases k,
{
    if k <= 0 {
        0
    } else {
        mesh_visits(visits, k - 1) + if visits[k - 1].mesh_index is Some {
            1int
        } else {
            0int
        }
    }
}

proof fn lemma_mesh_visits_bound<M>(visits: Seq<NodeVisit<M>>, k: int)
    requires
        0 <= k,
    ensures
        0 <= mesh_visits(visits, k) <= k,
    decreases k,
{
    if k > 0 {
        lemma_mesh_visits_bound(visits, k - 1);
    }
}

/// The walk can be recorded: no two mesh nodes share an index, there are
/// fewer visits than a `u32` counts, and every joint node has its inverse
/// bind matrices.
pub open spec fn visits_ok<M>(visits: Seq<NodeVisit<M>>, joint_ids: Seq<usize>, skin0_ibm_count: Option<usize>) -> bool {
    &&& visits.len() < u32::MAX
    &&& forall|i: int, j: int|
        0 <= i < j < visits.len() && visits[i].mesh_index is Some && visits[j].mesh_index is Some
            ==> #[trigger] visits[i].node_index != #[trigger] visits[j].node_index
    &&& forall|i: int|
        0 <= i < visits.len() && (#[trigger] visits[i]).mesh_index is None ==> joint_step_ok(
            visits[i].node_index,
            joint_ids,
            skin0_ibm_count,
        )
}

proof fn lemma_transforms_before_same<M>(a: Seq<Seq<LocalTransform<M>>>, b: Seq<Seq<LocalTransform<M>>>, k: int)
    requires
        0 <= k <= a.len(),
        k <= b.len(),
        forall|t: int| 0 <= t < k ==> a[t].len() == b[t].len(),
    ensures
        transforms_before(a, k) == transforms_before(b, k),
    decreases k,
{
    if k > 0 {
        lemma_transforms_before_same(a, b, k - 1);
    }
}

proof fn lemma_transforms_before_grow<M>(a: Seq<Seq<LocalTransform<M>>>, p: int, lt: LocalTransform<M>, k: int)
    requires
        0 <= p < a.len(),
        0 <= k <= a.len(),
    ensures
        transforms_before(a.update(p, a[p].push(lt)), k) == transforms_before(a, k) + if k > p {
            1int
        } else {
            0int
        },
    decreases k,
{
    if k > 0 {
        lemma_transforms_before_grow(a, p, lt, k - 1);
    }
}

proof fn lemma_group_within<M>(a: Seq<Seq<LocalTransform<M>>>, p: int)
    requires
        0 <= p < a.len(),
    ensures
        a[p].len() <= transforms_before(a, a.len() as int),
{
    lemma_transforms_before_monotone(a, 0, p);
    lemma_transforms_before_monotone(a, p + 1, a.len() as int);
}

/// The local transforms of the visits among the first `k` that instance the
/// mesh with id `id`, in visit order.
pub open spec fn mesh_transforms_of<M>(visits: Seq<NodeVisit<M>>, id: u32, k: int) -> Seq<
    LocalTransform<M>,
>
    decreases k,
{
    if k <= 0 {
        seq![]
    } else {
        let rest = mesh_transforms_of(visits, id, k - 1);
        let v = visits[k - 1];
        match v.mesh_index {
            Some(m) => if mesh_id_of(m) == id {
                rest.push(LocalTransform { transform_matrix: v.transform, model_index: 0 })
            } else {
                rest
            },
            None => rest,
        }
    }
}

/// The ids of the meshes that the first `k` visits instance, each once, in
/// the order in which they are first met.
pub open spec fn first_met_mesh_ids<M>(visits: Seq<NodeVisit<M>>, k: int) -> Seq<u32>
    decreases k,
{
    if k <= 0 {
        seq![]
    } else {
        let rest = first_met_mesh_ids(visits, k - 1);
        match visits[k - 1].mesh_index {
            Some(m) => if rest.contains(mesh_id_of(m)) {
                rest
            } else {
                rest.push(mesh_id_of(m))
            },
            None => rest,
        }
    }
}

proof fn lemma_mesh_transforms_len<M>(visits: Seq<NodeVisit<M>>, id: u32, k: int)
    requires
        0 <= k,
    ensures
        mesh_transforms_of(visits, id, k).len() <= k,
    decreases k,
{
    if k > 0 {
        lemma_mesh_transforms_len(visits, id, k - 1);
    }
}

/// The walk over the first `k` visits of a model's tree records its mesh
/// instances as the mesh nodes dictate: the mesh ids are the ids of the
/// meshes met, each once, in the order first met; each mesh's group holds
/// the transforms of the nodes that instance it, in visit order, and its
/// instance count is their number; no other mesh has a transform.
pub proof fn lemma_model_data_walk<M>(visits: Seq<NodeVisit<M>>, joint_ids: Seq<usize>, identity: M, k: int)
    requires
        0 <= k <= visits.len(),
        visits.len() < u32::MAX,
    ensures
        ({
            let mv = collected(visits, joint_ids, identity, k).0;
            &&& mesh_data_wf(mv)
            &&& mv.ids.no_duplicates()
            &&& mv.ids == first_met_mesh_ids(visits, k)
            &&& forall|p: int|
                0 <= p < mv.ids.len() ==> #[trigger] mv.buckets[p] == mesh_transforms_of(
                    visits,
                    mv.ids[p],
                    k,
                )
            &&& forall|id: u32| !mv.ids.contains(id) ==> #[trigger] mesh_transforms_of(visits, id, k) == Seq::<
                LocalTransform<M>,
            >::empty()
        }),
    decreases k,
{
    if k > 0 {
        lemma_model_data_walk(visits, joint_ids, identity, k - 1);
        let mv = collected(visits, joint_ids, identity, k - 1).0;
        let nv = collected(visits, joint_ids, identity, k).0;
        let v = visits[k - 1];
        match v.mesh_index {
            Some(m) => {
                let id = mesh_id_of(m);
                let lt = LocalTransform { transform_matrix: v.transform, model_index: 0 };
                lemma_first_position_spec(mv.ids, id);
                assert(nv == mesh_step(mv, v.node_index, m, v.transform));
                match first_position(mv.ids, id) {
                    Some(p) => {
                        assert(mv.ids.contains(id));
                        lemma_mesh_transforms_len(visits, id, k - 1);
                        assert(nv.ids == mv.ids);
                        assert forall|q: int| 0 <= q < nv.ids.len() implies #[trigger] nv.instances[q]
                            == nv.buckets[q].len() by {
                            if q != p {
                                assert(mv.instances[q] == mv.buckets[q].len());
                            }
                        }
                        assert forall|q: int| 0 <= q < nv.ids.len() implies #[trigger] nv.buckets[q]
                            == mesh_transforms_of(visits, nv.ids[q], k) by {
                            if q != p {
                                assert(mv.ids[q] != mv.ids[p]);
                            }
                        }
                        assert forall|x: u32| !nv.ids.contains(x) implies #[trigger] mesh_transforms_of(
                            visits,
                            x,
                            k,
                        ) == Seq::<LocalTransform<M>>::empty() by {
                            assert(x != id);
                            assert(!mv.ids.contains(x));
                            assert(mesh_transforms_of(visits, x, k - 1) == Seq::<LocalTransform<M>>::empty());
                            assert(mesh_transforms_of(visits, x, k) == mesh_transforms_of(visits, x, k - 1));
                        }
                    },
                    None => {
                        assert(!mv.ids.contains(id));
                        assert(mesh_transforms_of(visits, id, k - 1) == Seq::<LocalTransform<M>>::empty());
                        assert(mesh_transforms_of(visits, id, k) =~= seq![lt]);
                        assert forall|q: int| 0 <= q < nv.ids.len() implies #[trigger] nv.instances[q]
                            == nv.buckets[q].len() by {
                            if q < mv.ids.len() {
                                assert(mv.instances[q] == mv.buckets[q].len());
                            }
                        }
                        assert forall|q: int| 0 <= q < nv.ids.len() implies #[trigger] nv.buckets[q]
                            == mesh_transforms_of(visits, nv.ids[q], k) by {
                            if q < mv.ids.len() {
                                assert(mv.ids[q] != id);
                            }
                        }
                        assert forall|x: int, y: int| 0 <= x < nv.ids.len() && 0 <= y < nv.ids.len() && x != y
                            implies nv.ids[x] != nv.ids[y] by {
                            if x < mv.ids.len() && y < mv.ids.len() {
                                assert(mv.ids[x] != mv.ids[y]);
                            }
                        }
                        assert forall|x: u32| !nv.ids.contains(x) implies #[trigger] mesh_transforms_of(
                            visits,
                            x,
                            k,
                        ) == Seq::<LocalTransform<M>>::empty() by {
                            assert(nv.ids[mv.ids.len() as int] == id);
                            assert(x != id);
                            assert(!mv.ids.contains(x)) by {
                                if mv.ids.contains(x) {
                                    let q = choose|q: int| 0 <= q < mv.ids.len() && mv.ids[q] == x;
                                    assert(nv.ids[q] == x);
                                }
                            }
                            assert(mesh_transforms_of(visits, x, k - 1) == Seq::<LocalTransform<M>>::empty());
                            assert(mesh_transforms_of(visits, x, k) == mesh_transforms_of(visits, x, k - 1));
                        }
                    },
                }
            },
            None => {
                assert forall|x: u32| !nv.ids.contains(x) implies #[trigger] mesh_transforms_of(
                    visits,
                    x,
                    k,
                ) == Seq::<LocalTransform<M>>::empty() by {
                    assert(mesh_transforms_of(visits, x, k) == mesh_transforms_of(visits, x, k - 1));
                }
                assert forall|q: int| 0 <= q < nv.ids.len() implies #[trigger] nv.buckets[q]
                    == mesh_transforms_of(visits, nv.ids[q], k) by {
                    assert(mesh_transforms_of(visits, nv.ids[q], k) == mesh_transforms_of(
                        visits,
                        nv.ids[q],
                        k - 1,
                    ));
                }
            },
        }
    }
}

/// Records the nodes of a model's tree, visited depth first with parents
/// before children, as [`collected`] says: the model's mesh instances with
/// their local transforms, and its joints with the pose `identity`.
/// `joint_ids` are the joints of the file's skins, and `skin0_ibm_count` the
/// number of inverse bind matrices of its first skin, where it has one.
pub fn get_model_data<M: Copy>(
    visits: &Vec<NodeVisit<M>>,
    joint_ids: &Vec<usize>,
    skin0_ibm_count: Option<usize>,
    identity: M,
) -> (r: ModelData<M>)
    requires
        visits_ok(visits@, joint_ids@, skin0_ibm_count),
    ensures
        mesh_data_wf(r.mesh_data@),
        (r.mesh_data@, r.joint_data@) == collected(visits@, joint_ids@, identity, visits@.len() as int),
        transforms_before(r.mesh_data@.buckets, r.mesh_data@.ids.len() as int) == mesh_visits(
            visits@,
            visits@.len() as int,
        ),
        forall|key: usize|
            #[trigger] r.mesh_data@.node_map.contains_key(key) <==> exists|t: int|
                0 <= t < visits@.len() && visits@[t].mesh_index is Some && visits@[t].node_index
                    == key,
        forall|i: int|
            0 <= i < r.joint_data@.ids.len() ==> r.joint_data@.joint_map.contains_key(
                #[trigger] r.joint_data@.ids[i],
            ),
        r.mesh_data@.ids.no_duplicates(),
{
    let mut model_data = ModelData {
        mesh_data: ModelMeshData::default(),
        joint_data: ModelJointData::default(),
    };
    let n = visits.len();
    let mut i: usize = 0;
    while i < n
        invariant
            i <= n,
            n == visits@.len(),
            visits_ok(visits@, joint_ids@, skin0_ibm_count),
            mesh_data_wf(model_data.mesh_data@),
            (model_data.mesh_data@, model_data.joint_data@) == collected(
                visits@,
                joint_ids@,
                identity,
                i as int,
            ),
            transforms_before(
                model_data.mesh_data@.buckets,
                model_data.mesh_data@.ids.len() as int,
            ) == mesh_visits(visits@, i as int),
            forall|key: usize|
                #[trigger] model_data.mesh_data@.node_map.contains_key(key) <==> exists|t: int|
                    0 <= t < i && visits@[t].mesh_index is Some && visits@[t].node_index == key,
            forall|q: int|
                0 <= q < model_data.joint_data@.ids.len() ==> model_data.joint_data@.joint_map.contains_key(
                    #[trigger] model_data.joint_data@.ids[q],
                ),
            model_data.mesh_data@.ids.no_duplicates(),
        decreases n - i,
    {
        let visit = &visits[i];
        let ghost mv = model_data.mesh_data@;
        let ghost jv = model_data.joint_data@;
        proof {
            lemma_mesh_visits_bound(visits@, i as int);
        }
        match visit.mesh_index {
            Some(mesh_index) => {
                proof {
                    let id = mesh_id_of(mesh_index);
                    lemma_first_position_spec(mv.ids, id);
                    if mv.node_map.contains_key(visit.node_index) {
                        let t = choose|t: int|
                            0 <= t < i && visits@[t].mesh_index is Some && visits@[t].node_index
                                == visit.node_index;
                        assert(visits@[t].node_index != visits@[i as int].node_index);
                    }
                    match first_position(mv.ids, id) {
                        Some(p) => {
                            lemma_transforms_before_monotone(mv.buckets, p + 1, mv.ids.len() as int);
                            lemma_group_within(mv.buckets, p);
                        },
                        None => {},
                    }
                }
                model_data.mesh_data.add_mesh_node(visit.node_index, mesh_index, visit.transform);
                proof {
                    let nv = model_data.mesh_data@;
                    if first_position(mv.ids, mesh_id_of(mesh_index)) is None {
                        assert(nv.ids == mv.ids.push(mesh_id_of(mesh_index)));
                        assert forall|x: int, y: int| 0 <= x < nv.ids.len() && 0 <= y < nv.ids.len() && x != y
                            implies nv.ids[x] != nv.ids[y] by {
                            if x < mv.ids.len() && y < mv.ids.len() {
                                assert(mv.ids[x] != mv.ids[y]);
                            }
                        }
                    }
                    let id = mesh_id_of(mesh_index);
                    let lt = LocalTransform { transform_matrix: visit.transform, model_index: 0 };
                    match first_position(mv.ids, id) {
                        Some(p) => {
                            lemma_transforms_before_grow(mv.buckets, p, lt, mv.ids.len() as int);
                        },
                        None => {
                            lemma_transforms_before_same(nv.buckets, mv.buckets, mv.ids.len() as int);
                        },
                    }
                    assert forall|key: usize| #[trigger] nv.node_map.contains_key(key) <==> exists|t: int|
                        0 <= t < i + 1 && visits@[t].mesh_index is Some && visits@[t].node_index
                            == key by {
                        if key == visit.node_index {
                            assert(visits@[i as int].mesh_index is Some);
                        } else {
                            if exists|t: int|
                                0 <= t < i + 1 && visits@[t].mesh_index is Some
                                    && visits@[t].node_index == key {
                                let t = choose|t: int|
                                    0 <= t < i + 1 && visits@[t].mesh_index is Some
                                        && visits@[t].node_index == key;
                                assert(t < i);
                                assert(mv.node_map.contains_key(key));
                            }
                        }
                    }
                }
            },
            None => {
                proof {
                    assert(joint_step_ok(visits@[i as int].node_index, joint_ids@, skin0_ibm_count));
                    assert forall|key: usize| #[trigger] mv.node_map.contains_key(key) <==> exists|t: int|
                        0 <= t < i + 1 && visits@[t].mesh_index is Some && visits@[t].node_index
                            == key by {
                        if exists|t: int|
                            0 <= t < i + 1 && visits@[t].mesh_index is Some && visits@[t].node_index
                                == key {
                            let t = choose|t: int|
                                0 <= t < i + 1 && visits@[t].mesh_index is Some
                                    && visits@[t].node_index == key;
                            assert(t < i);
                        }
                    }
                }
                model_data.joint_data.add_joint_node(
                    visit.node_index,
                    joint_ids,
                    skin0_ibm_count,
                    identity,
                );
                proof {
                    let nj = model_data.joint_data@;
                    assert forall|q: int| 0 <= q < nj.ids.len() implies nj.joint_map.contains_key(
                        #[trigger] nj.ids[q],
                    ) by {
                        if q < jv.ids.len() {
                            assert(nj.ids[q] == jv.ids[q]);
                        }
                    }
                }
            },
        }
        i += 1;
    }
    model_data
}

impl<M: Copy> ModelMeshData<M> {
    /// Appends the local transforms of the model to `local_transform_data`,
    /// group after group.
    pub fn append_local_transforms(&self, local_transform_data: &mut Vec<LocalTransform<M>>)
        ensures
            final(local_transform_data)@ == old(local_transform_data)@ + self@.buckets.flatten_alt(),
    {
        let n = self.mesh_transform_buckets.len();
        let mut i: usize = 0;
        while i < n
            invariant
                i <= n,
                n == self.mesh_transform_buckets@.len(),
                local_transform_data@ == old(local_transform_data)@ + self@.buckets.take(
                    i as int,
                ).flatten_alt(),
            decreases n - i,
        {
            let bucket = &self.mesh_transform_buckets[i];
            let m = bucket.len();
            let mut j: usize = 0;
            let ghost before = local_transform_data@;
            while j < m
                invariant
                    j <= m,
                    m == bucket@.len(),
                    local_transform_data@ == before + bucket@.take(j as int),
                decreases m - j,
            {
                local_transform_data.push(bucket[j]);
                proof {
                    assert(bucket@.take(j + 1) =~= bucket@.take(j as int).push(bucket@[j as int]));
                }
                j += 1;
            }
            proof {
                assert(bucket@.take(m as int) =~= bucket@);
                assert(self@.buckets.take(i + 1).drop_last() =~= self@.buckets.take(i as int));
                assert(self@.buckets[i as int] == bucket@);
            }
            i += 1;
        }
        proof {
            assert(self@.buckets.take(n as int) =~= self@.buckets);
        }
    }
}

/// Whether a model is animated, how many animations it counts, and which
/// of them move its meshes, given for each animation of the file whether it
/// drives a node of the model's tree (`attached`) and whether the tree has a
/// mesh node: the model counts every animation from the first that drives
/// it on, and where it has a mesh node, the list holds the index 0 once.
pub open spec fn model_animations(attached: Seq<bool>, has_mesh: bool) -> (bool, usize, Seq<usize>) {
    match first_position(attached, true) {
        Some(f) => (
            true,
            (attached.len() - f) as usize,
            if has_mesh {
                seq![0usize]
            } else {
                seq![]
            },
        ),
        None => (false, 0, seq![]),
    }
}

/// Counts the animations of a model as [`model_animations`] says: the
/// model is animated from the first animation that drives one of its nodes
/// on, and its first counted animation moves its meshes where it has any.
pub fn count_model_animations(attached: &Vec<bool>, has_mesh: bool) -> (r: (bool, usize, Vec<usize>))
    ensures
        (r.0, r.1, r.2@) == model_animations(attached@, has_mesh),
{
    let ghost fp = first_position(attached@, true);
    proof {
        lemma_first_position_spec(attached@, true);
    }
    let mut animation_count: usize = 0;
    let mut mesh_pending = has_mesh;
    let mut mesh_animations: Vec<usize> = Vec::new();
    let mut is_animated = false;
    let n = attached.len();
    let mut i: usize = 0;
    while i < n
        invariant
            i <= n,
            n == attached@.len(),
            fp == first_position(attached@, true),
            fp matches Some(f) ==> 0 <= f < n && attached@[f] && forall|q: int|
                0 <= q < f ==> !attached@[q],
            fp is None ==> forall|q: int| 0 <= q < n ==> !attached@[q],
            is_animated <==> (fp matches Some(f) && f < i),
            animation_count == (if is_animated {
                i - fp.unwrap()
            } else {
                0
            }),
            mesh_pending == (has_mesh && !is_animated),
            mesh_animations@ == (if has_mesh && is_animated {
                seq![0usize]
            } else {
                seq![]
            }),
        decreases n - i,
    {
        if attached[i] {
            is_animated = true;
        }
        if is_animated {
            animation_count += 1;
        }
        if mesh_pending && is_animated {
            mesh_animations.push(animation_count - 1);
            mesh_pending = false;
        }
        proof {
            assert(mesh_animations@ =~= (if has_mesh && is_animated {
                seq![0usize]
            } else {
                seq![]
            }));
        }
        i += 1;
    }
    if is_animated {
        (true, animation_count, mesh_animations)
    } else {
        (false, 0, mesh_animations)
    }
}

/// The files of a model's directory that hold its glTF document and its
/// binary data, as positions in the directory's listing.
pub struct DataFiles {
    pub gltf: usize,
    pub bin: Option<usize>,
}

/// The entry has the extension `ext` (an entry without a readable extension
/// is `None`).
pub open spec fn has_extension(e: Option<String>, ext: Seq<char>) -> bool {
    e matches Some(s) && s@ == ext
}

/// For each entry, whether it has the extension `ext`.
pub open spec fn extension_flags(exts: Seq<Option<String>>, ext: Seq<char>) -> Seq<bool> {
    exts.map_values(|e: Option<String>| has_extension(e, ext))
}

/// A position as an integer.
pub open spec fn int_position(p: Option<usize>) -> Option<int> {
    match p {
        Some(i) => Some(i as int),
        None => None,
    }
}

fn first_with_extension(extensions: &Vec<Option<String>>, ext: &str) -> (r: Option<usize>)
    ensures
        int_position(r) == first_position(extension_flags(extensions@, ext@), true),
{
    let ghost flags = extension_flags(extensions@, ext@);
    proof {
        lemma_first_position_spec(flags, true);
    }
    let n = extensions.len();
    let mut i: usize = 0;
    while i < n
        invariant
            i <= n,
            n == extensions@.len(),
            flags == extension_flags(extensions@, ext@),
            forall|q: int| 0 <= q < i ==> !flags[q],
        decreases n - i,
    {
        let matches_ext = match &extensions[i] {
            Some(e) => str_eq(e.as_str(), ext),
            None => false,
        };
        if matches_ext {
            proof {
                lemma_first_position_found_at(flags, i as int);
            }
            return Some(i);
        }
        i += 1;
    }
    proof {
        lemma_first_position_absent(flags);
    }
    None
}

proof fn lemma_first_position_found_at(flags: Seq<bool>, i: int)
    requires
        0 <= i < flags.len(),
        flags[i],
        forall|q: int| 0 <= q < i ==> !flags[q],
    ensures
        first_position(flags, true) == Some(i),
{
    lemma_first_position_spec(flags, true);
}

proof fn lemma_first_position_absent(flags: Seq<bool>)
    requires
        forall|q: int| 0 <= q < flags.len() ==> !flags[q],
    ensures
        first_position(flags, true) is None,
{
    lemma_first_position_spec(flags, true);
}

/// Why the data files of a model's directory could not be picked.
#[derive(Debug, Clone, Copy, PartialEq, Eq)]
pub enum DataFilesError {
    /// No entry has the extension `gltf`.
    NoGltfFile,
    /// More than one entry has the extension `bin`.
    MultipleBinaryFiles,
}

/// Two of the flags are set.
pub open spec fn two_set(flags: Seq<bool>) -> bool {
    exists|i: int, j: int| 0 <= i < j < flags.len() && flags[i] && flags[j]
}

fn next_with_extension(extensions: &Vec<Option<String>>, ext: &str, from: usize) -> (r: Option<usize>)
    ensures
        r is None ==> forall|q: int|
            from <= q < extensions@.len() ==> !#[trigger] extension_flags(extensions@, ext@)[q],
        r matches Some(i) ==> from <= i < extensions@.len() && extension_flags(extensions@, ext@)[i as int],
{
    let ghost flags = extension_flags(extensions@, ext@);
    let n = extensions.len();
    let mut i: usize = from;
    while i < n
        invariant
            from <= i || i >= n,
            n == extensions@.len(),
            flags == extension_flags(extensions@, ext@),
            forall|q: int| from <= q < i ==> !#[trigger] flags[q],
        decreases n - i,
    {
        let matches_ext = match &extensions[i] {
            Some(e) => str_eq(e.as_str(), ext),
            None => false,
        };
        if matches_ext {
            return Some(i);
        }
        i += 1;
    }
    None
}

/// Picks the data files of a model's directory from the extensions of its
/// entries, in listing order: the first `gltf` entry, which must exist, and
/// the `bin` entry, if there is one; a second `bin` entry is refused.
pub fn get_data_files(extensions: &Vec<Option<String>>) -> (r: Result<DataFiles, DataFilesError>)
    ensures
        ({
            let gltfs = extension_flags(extensions@, "gltf"@);
            let bins = extension_flags(extensions@, "bin"@);
            &&& first_position(gltfs, true) is None <==> r == Err::<DataFiles, DataFilesError>(
                DataFilesError::NoGltfFile,
            )
            &&& (first_position(gltfs, true) is Some && two_set(bins)) <==> r == Err::<
                DataFiles,
                DataFilesError,
            >(DataFilesError::MultipleBinaryFiles)
            &&& r matches Ok(f) ==> Some(f.gltf as int) == first_position(gltfs, true) && int_position(
                f.bin,
            ) == first_position(bins, true)
        }),
{
    let ghost bins = extension_flags(extensions@, "bin"@);
    let gltf = match first_with_extension(extensions, "gltf") {
        Some(g) => g,
        None => {
            return Err(DataFilesError::NoGltfFile);
        },
    };
    let bin = first_with_extension(extensions, "bin");
    proof {
        lemma_first_position_spec(bins, true);
        assert(bins.len() == extensions@.len());
    }
    let n = extensions.len();
    match bin {
        Some(b) => {
            if b < n - 1 {
                match next_with_extension(extensions, "bin", b + 1) {
                    Some(second) => {
                        proof {
                            assert(bins[b as int] && bins[second as int]);
                        }
                        return Err(DataFilesError::MultipleBinaryFiles);
                    },
                    None => {},
                }
            }
            proof {
                assert(!two_set(bins)) by {
                    if two_set(bins) {
                        let (i, j) = choose|i: int, j: int| 0 <= i < j < bins.len() && bins[i] && bins[j];
                        assert(i >= b);
                        assert(j > b);
                        assert(!bins[j]);
                    }
                }
            }
        },
        None => {
            proof {
                assert(!two_set(bins)) by {
                    if two_set(bins) {
                        let (i, j) = choose|i: int, j: int| 0 <= i < j < bins.len() && bins[i] && bins[j];
                        assert(!bins[i]);
                    }
                }
            }
        },
    }
    Ok(DataFiles { gltf, bin })
}

} // verus!
