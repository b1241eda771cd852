//! Error types, attribute kinds and the copying of accessor data out of the
//! main binary buffer of a glTF file.
use crate::model::loader::util::{first_position, lemma_first_position_spec};
use crate::model::model::{mesh_data_of, mesh_has_views, mesh_readable, GMesh, MeshLayout};
use crate::model::primitive::{GPrimitive, PrimitiveData};
use vstd::prelude::*;

verus! {

#[derive(Debug)]
pub enum GltfErrors {
    NoIndices,
    NoView,
    NoPrimitive,
    IndicesError(String),
    VericesError(String),
    NormalsError(String),
}

#[derive(Debug)]
pub enum InitializationError {
    InstanceDataInitializationError(Box<String>),
    SceneMergeError(Box<String>),
    SceneInitializationError,
}

#[derive(PartialEq, Eq, Debug, Clone, Copy)]
pub enum AttributeType {
    Position,
    Normal,
    Index,
    Joints,
    Weights,
    IBMS,
    Times,
    RotationT,
    TranslationT,
    ScaleT,
}

/// The property of a node that an animation channel drives.
#[derive(PartialEq, Eq, Debug, Clone, Copy)]
pub enum AnimationProperty {
    Translation,
    Rotation,
    Scale,
    MorphTargetWeights,
}

impl AttributeType {
    /// The attribute kind of the transforms of a channel that drives
    /// `property`; morph target weights are not supported.
    pub fn from_animation_channel(property: &AnimationProperty) -> (r: Self)
        requires
            *property != AnimationProperty::MorphTargetWeights,
        ensures
            *property == AnimationProperty::Translation ==> r == AttributeType::TranslationT,
            *property == AnimationProperty::Rotation ==> r == AttributeType::RotationT,
            *property == AnimationProperty::Scale ==> r == AttributeType::ScaleT,
    {
        match property {
            AnimationProperty::Translation => AttributeType::TranslationT,
            AnimationProperty::Rotation => AttributeType::RotationT,
            AnimationProperty::Scale => AttributeType::ScaleT,
            AnimationProperty::MorphTargetWeights => {
                proof {
                    assert(false);
                }
                AttributeType::ScaleT
            },
        }
    }
}

/// The component type of an accessor.
#[derive(PartialEq, Eq, Debug, Clone, Copy)]
pub enum ComponentType {
    I8,
    U8,
    I16,
    U16,
    U32,
    F32,
}

/// The shape of one element of an accessor.
#[derive(PartialEq, Eq, Debug, Clone, Copy)]
pub enum Dimensions {
    Scalar,
    Vec2,
    Vec3,
    Vec4,
    Mat2,
    Mat3,
    Mat4,
}

/// Where a buffer view lies: its buffer, its byte offset in that buffer and
/// the byte stride between its elements, if it has one.
#[derive(Debug, Clone, Copy)]
pub struct BufferViewLayout {
    pub buffer_index: usize,
    pub offset: usize,
    pub stride: Option<usize>,
}

/// What the copying reads of an accessor: its buffer view, its byte offset
/// within the view, its element count and element type.
#[derive(Debug, Clone, Copy)]
pub struct AccessorLayout {
    pub view: Option<BufferViewLayout>,
    pub offset: usize,
    pub count: usize,
    pub data_type: ComponentType,
    pub dimensions: Dimensions,
}

/// The component types that are copied.
pub open spec fn supported_component(t: ComponentType) -> bool {
    t == ComponentType::U8 || t == ComponentType::U16 || t == ComponentType::F32
}

/// The dimensions that are copied.
pub open spec fn supported_dimensions(d: Dimensions) -> bool {
    d != Dimensions::Mat2 && d != Dimensions::Mat3
}

/// Bytes per component.
pub open spec fn component_size(t: ComponentType) -> int {
    match t {
        ComponentType::U8 => 1,
        ComponentType::U16 => 2,
        ComponentType::F32 => 4,
        _ => 0,
    }
}

/// Components per element.
pub open spec fn component_count(d: Dimensions) -> int {
    match d {
        Dimensions::Scalar => 1,
        Dimensions::Vec2 => 2,
        Dimensions::Vec3 => 3,
        Dimensions::Vec4 => 4,
        Dimensions::Mat4 => 16,
        _ => 0,
    }
}

/// Bytes per element.
pub open spec fn element_size(a: AccessorLayout) -> int {
    component_size(a.data_type) * component_count(a.dimensions)
}

/// Bytes from the start of one element to the start of the next.
pub open spec fn element_step(a: AccessorLayout) -> int {
    match a.view {
        Some(v) => match v.stride {
            Some(s) => s as int,
            None => element_size(a),
        },
        None => element_size(a),
    }
}

/// Byte offset of the accessor's first element in the main buffer.
pub open spec fn accessor_start(a: AccessorLayout, buffer_offsets: Seq<u64>) -> int {
    let v = a.view.unwrap();
    v.offset + a.offset + (buffer_offsets[v.buffer_index as int] as usize)
}

/// The accessor can be copied out of `binary_data` without failing: its
/// types are supported, its buffer is known, a stride is no shorter than an
/// element, and every byte read, as well as the position after the last
/// element, is within bounds.
pub open spec fn copy_is_defined(a: AccessorLayout, buffer_offsets: Seq<u64>, len: int) -> bool {
    a.view is Some ==> {
        let v = a.view.unwrap();
        &&& v.buffer_index < buffer_offsets.len()
        &&& v.offset + a.offset <= usize::MAX
        &&& accessor_start(a, buffer_offsets) <= usize::MAX
        &&& supported_component(a.data_type)
        &&& supported_dimensions(a.dimensions)
        &&& element_size(a) * a.count <= usize::MAX
        &&& (v.stride matches Some(s) ==> s >= element_size(a))
        &&& (a.count > 0 ==> accessor_start(a, buffer_offsets) + (a.count - 1) * element_step(a)
            + element_size(a) <= len)
        &&& accessor_start(a, buffer_offsets) + a.count * element_step(a) <= usize::MAX
    }
}

/// The bytes of the accessor's elements, one after the other, without the
/// padding that a stride leaves between them.
pub open spec fn accessor_bytes(a: AccessorLayout, buffer_offsets: Seq<u64>, data: Seq<u8>) -> Seq<
    u8,
> {
    Seq::new(
        (element_size(a) * a.count) as nat,
        |t: int|
            data[accessor_start(a, buffer_offsets) + (t / element_size(a)) * element_step(a) + t
                % element_size(a)],
    )
}

fn component_byte_size(t: ComponentType) -> (r: usize)
    requires
        supported_component(t),
    ensures
        r == component_size(t),
{
    match t {
        ComponentType::U8 => 1,
        ComponentType::U16 => 2,
        ComponentType::F32 => 4,
        _ => {
            proof {
                assert(false);
            }
            0
        },
    }
}

fn dimension_component_count(d: Dimensions) -> (r: usize)
    requires
        supported_dimensions(d),
    ensures
        r == component_count(d),
{
    match d {
        Dimensions::Scalar => 1,
        Dimensions::Vec2 => 2,
        Dimensions::Vec3 => 3,
        Dimensions::Vec4 => 4,
        Dimensions::Mat4 => 16,
        _ => {
            proof {
                assert(false);
            }
            0
        },
    }
}

proof fn lemma_element_position(t: int, size: int, step: int, k: int, e: int)
    requires
        size > 0,
        step >= size,
        0 <= e < size,
        t == k * size + e,
        0 <= k,
    ensures
        t / size == k,
        t % size == e,
        (t / size) * step + t % size == k * step + e,
{
    vstd::arithmetic::div_mod::lemma_fundamental_div_mod_converse(t, size, k, e);
}

/// Byte `e` of element `i` of a run of elements `size` bytes long.
pub open spec fn element_byte(bytes: Seq<u8>, size: int, i: int, e: int) -> u8 {
    bytes[i * size + e]
}

/// Where an accessor's elements are read from: element `i` of the copy
/// starts `i` elements after the accessor's first byte when its view has no
/// byte stride, so the copy is the contiguous run of `count` elements from
/// there; with a stride `s` it starts `i * s` bytes after the first byte.
/// Every element keeps its bytes in order.
pub proof fn lemma_accessor_layout(a: AccessorLayout, buffer_offsets: Seq<u64>, data: Seq<u8>)
    requires
        a.view is Some,
        copy_is_defined(a, buffer_offsets, data.len() as int),
    ensures
        ({
            let v = a.view.unwrap();
            let start = v.offset + a.offset + (buffer_offsets[v.buffer_index as int] as usize);
            let size = component_size(a.data_type) * component_count(a.dimensions);
            let copy = accessor_bytes(a, buffer_offsets, data);
            &&& copy.len() == a.count * size
            &&& v.stride is None && a.count > 0 ==> copy == data.subrange(start, start + a.count * size)
            &&& forall|i: int, e: int|
                0 <= i < a.count && 0 <= e < size ==> #[trigger] element_byte(copy, size, i, e)
                    == data[start + i * (match v.stride {
                    Some(s) => s as int,
                    None => size,
                }) + e]
        }),
{
    let v = a.view.unwrap();
    let start = v.offset + a.offset + (buffer_offsets[v.buffer_index as int] as usize);
    let size = component_size(a.data_type) * component_count(a.dimensions);
    let step = match v.stride {
        Some(s) => s as int,
        None => size,
    };
    let copy = accessor_bytes(a, buffer_offsets, data);
    assert(size > 0) by (nonlinear_arith)
        requires
            size == component_size(a.data_type) * component_count(a.dimensions),
            component_size(a.data_type) >= 1,
            component_count(a.dimensions) >= 1,
    ;
    assert(element_step(a) == step);
    assert(element_size(a) == size);
    assert(accessor_start(a, buffer_offsets) == start);
    assert(copy.len() == a.count * size) by (nonlinear_arith)
        requires
            copy.len() == (element_size(a) * a.count) as nat,
            element_size(a) == size,
            size > 0,
            a.count >= 0,
    ;
    assert forall|t: int| 0 <= t < copy.len() implies #[trigger] copy[t] == data[start + (t / size) * step + t
        % size] by {}
    assert forall|i: int, e: int| 0 <= i < a.count && 0 <= e < size implies #[trigger] element_byte(
        copy,
        size,
        i,
        e,
    ) == data[start + i * step + e] by {
        let t = i * size + e;
        assert(0 <= t < a.count * size) by (nonlinear_arith)
            requires
                0 <= i < a.count,
                0 <= e < size,
                t == i * size + e,
        ;
        vstd::arithmetic::div_mod::lemma_fundamental_div_mod_converse(t, size, i, e);
        assert(copy[t] == data[start + (t / size) * step + t % size]);
    }
    if v.stride is None && a.count > 0 {
        assert(step == size);
        assert(start + (a.count - 1) * size + size == start + a.count * size) by (nonlinear_arith);
        assert(start + a.count * size <= data.len());
        assert forall|t: int| 0 <= t < a.count * size implies copy[t] == data.subrange(
            start,
            start + a.count * size,
        )[t] by {
            vstd::arithmetic::div_mod::lemma_fundamental_div_mod(t, size);
            let i = t / size;
            let e = t % size;
            assert(t == size * i + e);
            assert(0 <= i) by {
                vstd::arithmetic::div_mod::lemma_div_pos_is_pos(t, size);
            }
            assert(i * size + e == t) by (nonlinear_arith)
                requires
                    t == size * i + e,
            ;
            assert(copy[t] == data[start + i * size + e]);
        }
        assert(copy =~= data.subrange(start, start + a.count * size));
    }
}

/// Copies the elements of `accessor` out of the main buffer `binary_data`,
/// in order, dropping the padding that a byte stride leaves between them.
/// `buffer_offsets[i]` is where buffer `i` starts in the main buffer.
/// Fails with `NoView` for an accessor without a buffer view.
pub fn copy_binary_data_from_gltf(
    accessor: &AccessorLayout,
    accessor_type: AttributeType,
    buffer_offsets: &Vec<u64>,
    binary_data: &Vec<u8>,
) -> (r: Result<Vec<u8>, GltfErrors>)
    requires
        copy_is_defined(*accessor, buffer_offsets@, binary_data@.len() as int),
    ensures
        accessor.view is None <==> r matches Err(GltfErrors::NoView),
        accessor.view is Some ==> (r matches Ok(bytes) && bytes@ == accessor_bytes(
            *accessor,
            buffer_offsets@,
            binary_data@,
        )),
        ({
            let v = accessor.view.unwrap();
            let start = v.offset + accessor.offset + (buffer_offsets@[v.buffer_index as int] as usize);
            let size = component_size(accessor.data_type) * component_count(accessor.dimensions);
            accessor.view is Some && v.stride is None && accessor.count > 0 ==> (r matches Ok(bytes)
                && bytes@ == binary_data@.subrange(start, start + accessor.count * size))
        }),
{
    let view = match &accessor.view {
        Some(v) => v,
        None => {
            return Err(GltfErrors::NoView);
        },
    };
    let byte_offset = view.offset + accessor.offset + buffer_offsets[view.buffer_index] as usize;
    let count = accessor.count;
    let byte_size = component_byte_size(accessor.data_type);
    let num_elements = dimension_component_count(accessor.dimensions);
    assert(byte_size * num_elements <= 64) by (nonlinear_arith)
        requires
            1 <= byte_size <= 4,
            1 <= num_elements <= 16,
    ;
    let element_bytes = byte_size * num_elements;
    let data_len = binary_data.len();
    let mut copy_dest: Vec<u8> = Vec::new();
    let mut byte_loc = byte_offset;
    let extra_stride = match view.stride {
        Some(stride) => stride - element_bytes,
        None => 0,
    };
    let ghost size = element_bytes as int;
    let ghost step = element_step(*accessor);
    let ghost start = byte_offset as int;
    let ghost expected = accessor_bytes(*accessor, buffer_offsets@, binary_data@);
    assert(step == size + extra_stride);
    assert(size * count == count * size) by (nonlinear_arith);
    assert(size > 0) by (nonlinear_arith)
        requires
            size == byte_size * num_elements,
            byte_size >= 1,
            num_elements >= 1,
    ;
    let mut k: usize = 0;
    while k < count
        invariant
            0 <= k <= count,
            count == accessor.count,
            size == element_bytes,
            size > 0,
            step == size + extra_stride,
            start == byte_offset,
            start == accessor_start(*accessor, buffer_offsets@),
            expected == accessor_bytes(*accessor, buffer_offsets@, binary_data@),
            byte_loc == start + k * step,
            copy_dest@.len() == k * size,
            forall|t: int| 0 <= t < k * size ==> #[trigger] copy_dest@[t] == expected[t],
            element_bytes * count <= usize::MAX,
            count > 0 ==> start + (count - 1) * step + size <= binary_data@.len(),
            start + count * step <= usize::MAX,
            byte_size * num_elements == element_bytes,
            expected.len() == size * count,
            size * count == count * size,
            step == element_step(*accessor),
            step >= size,
            data_len == binary_data@.len(),
            size == element_size(*accessor),
        decreases count - k,
    {
        assert(k * step + step == (k + 1) * step) by (nonlinear_arith);
        assert(k * size + size == (k + 1) * size) by (nonlinear_arith);
        assert((k + 1) * step <= count * step) by (nonlinear_arith)
            requires
                k + 1 <= count,
                step >= 0,
        ;
        assert(k * step <= (count - 1) * step) by (nonlinear_arith)
            requires
                k <= count - 1,
                step >= 0,
        ;
        assert((k + 1) * size <= count * size) by (nonlinear_arith)
            requires
                k + 1 <= count,
                size >= 0,
        ;
        let ghost elem_start = byte_loc as int;
        let mut e: usize = 0;
        while e < element_bytes
            invariant
                0 <= e <= element_bytes,
                size == element_bytes,
                size > 0,
                k < count,
                elem_start == start + k * step,
                byte_loc == elem_start + e,
                elem_start + size <= binary_data@.len(),
                copy_dest@.len() == k * size + e,
                forall|t: int| 0 <= t < k * size + e ==> #[trigger] copy_dest@[t] == expected[t],
                expected == accessor_bytes(*accessor, buffer_offsets@, binary_data@),
                start == accessor_start(*accessor, buffer_offsets@),
                step == element_step(*accessor),
                step >= size,
                expected.len() == size * count,
                (k + 1) * size <= count * size,
                k * size + size == (k + 1) * size,
                size * count == count * size,
                data_len == binary_data@.len(),
                size == element_size(*accessor),
            decreases element_bytes - e,
        {
            proof {
                let t = k * size + e;
                lemma_element_position(t, size, step, k as int, e as int);
                assert(t < expected.len());
                assert(expected[t] == binary_data@[start + k * step + e]);
            }
            copy_dest.push(binary_data[byte_loc]);
            byte_loc += 1;
            e += 1;
        }
        byte_loc += extra_stride;
        k += 1;
    }
    proof {
        assert(copy_dest@ =~= expected);
        lemma_accessor_layout(*accessor, buffer_offsets@, binary_data@);
    }
    Ok(copy_dest)
}

/// The byte offset and byte length of an index accessor in the main buffer,
/// or `None` where the primitive has no indices. Fails with `NoView` for an
/// accessor without a buffer view.
pub fn get_index_offset_len(maybe_accessor: Option<&AccessorLayout>, buffer_offsets: &Vec<u64>) -> (r:
    Result<Option<(usize, usize)>, GltfErrors>)
    requires
        maybe_accessor matches Some(a) ==> {
            &&& supported_component(a.data_type)
            &&& supported_dimensions(a.dimensions)
            &&& element_size(*a) * a.count <= usize::MAX
            &&& (a.view matches Some(v) ==> {
                &&& v.buffer_index < buffer_offsets@.len()
                &&& v.offset + a.offset <= usize::MAX
                &&& accessor_start(*a, buffer_offsets@) <= usize::MAX
            })
        },
    ensures
        maybe_accessor is None ==> r == Ok::<Option<(usize, usize)>, GltfErrors>(None),
        maybe_accessor matches Some(a) ==> (a.view is None <==> r matches Err(GltfErrors::NoView)),
        maybe_accessor matches Some(a) ==> (a.view is Some ==> (r matches Ok(Some((offset, length)))
            && offset == accessor_start(*a, buffer_offsets@) && length == element_size(*a)
            * a.count)),
{
    match maybe_accessor {
        Some(accessor) => {
            let byte_size = component_byte_size(accessor.data_type);
            let num_elements = dimension_component_count(accessor.dimensions);
            assert(1 <= byte_size <= 4 && 1 <= num_elements <= 16);
            assert(byte_size * num_elements <= 64) by (nonlinear_arith)
                requires
                    1 <= byte_size <= 4,
                    1 <= num_elements <= 16,
            ;
            let element_bytes = byte_size * num_elements;
            assert(element_bytes * accessor.count <= usize::MAX);
            let length = element_bytes * accessor.count;
            let buffer_view = match &accessor.view {
                Some(v) => v,
                None => {
                    return Err(GltfErrors::NoView);
                },
            };
            let buffer_offset = buffer_offsets[buffer_view.buffer_index];
            let offset = buffer_view.offset + accessor.offset + buffer_offset as usize;
            Ok(Some((offset, length)))
        },
        None => Ok(None),
    }
}

/// The node instances the mesh with id `id`.
pub open spec fn node_has_mesh(o: Option<usize>, id: u32) -> bool {
    o matches Some(m) && m as u32 == id
}

/// For each node, whether it instances the mesh with id `id`.
pub open spec fn mesh_node_flags(node_meshes: Seq<Option<usize>>, id: u32) -> Seq<bool> {
    node_meshes.map_values(|o: Option<usize>| node_has_mesh(o, id))
}

/// The mesh with id `id`: that of the first node that instances it.
pub open spec fn mesh_of_id(node_meshes: Seq<Option<usize>>, id: u32) -> int {
    node_meshes[first_position(mesh_node_flags(node_meshes, id), true).unwrap()].unwrap() as int
}

/// Each mesh id is instanced by a node, whose mesh is one of `meshes`, and
/// each of those meshes can be read out of a main buffer of `len` bytes.
pub open spec fn model_meshes_readable(
    mesh_ids: Seq<u32>,
    node_meshes: Seq<Option<usize>>,
    meshes: Seq<MeshLayout>,
    buffer_offsets: Seq<u64>,
    len: int,
) -> bool {
    forall|i: int|
        0 <= i < mesh_ids.len() ==> {
            &&& first_position(mesh_node_flags(node_meshes, #[trigger] mesh_ids[i]), true) is Some
            &&& mesh_of_id(node_meshes, mesh_ids[i]) < meshes.len()
            &&& mesh_readable(meshes[mesh_of_id(node_meshes, mesh_ids[i])], buffer_offsets, len)
        }
}

/// The meshes that the ids name, in order.
pub open spec fn meshes_of_ids(mesh_ids: Seq<u32>, node_meshes: Seq<Option<usize>>, meshes: Seq<MeshLayout>) -> Seq<MeshLayout> {
    Seq::new(mesh_ids.len(), |i: int| meshes[mesh_of_id(node_meshes, mesh_ids[i])])
}

/// The number of primitives of the first `k` meshes.
pub open spec fn primitives_before(layouts: Seq<MeshLayout>, k: int) -> int
    decreases k,
{
    if k <= 0 {
        0
    } else {
        primitives_before(layouts, k - 1) + layouts[k - 1].primitives@.len()
    }
}

/// `gm` holds a mesh for each layout, with its index and as many primitives
/// not placed yet, and `pd` the data of their primitives, mesh after mesh.
pub open spec fn model_meshes_of(
    gm: Seq<GMesh>,
    pd: Seq<PrimitiveData>,
    layouts: Seq<MeshLayout>,
    buffer_offsets: Seq<u64>,
    data: Seq<u8>,
) -> bool {
    &&& gm.len() == layouts.len()
    &&& pd.len() == primitives_before(layouts, layouts.len() as int)
    &&& forall|i: int|
        0 <= i < layouts.len() ==> {
            &&& (#[trigger] gm[i]).mesh_id == layouts[i].index
            &&& gm[i].primitives@.len() == layouts[i].primitives@.len()
            &&& forall|j: int|
                0 <= j < gm[i].primitives@.len() ==> (#[trigger] gm[i].primitives@[j])
                    == (GPrimitive {
                    initialized_vertex_offset_len: None,
                    initialized_index_offset_len: None,
                })
            &&& mesh_data_of(
                pd.subrange(primitives_before(layouts, i), primitives_before(layouts, i + 1)),
                layouts[i],
                buffer_offsets,
                data,
            )
        }
}

proof fn lemma_primitives_before_monotone(layouts: Seq<MeshLayout>, i: int, j: int)
    requires
        0 <= i <= j,
    ensures
        0 <= primitives_before(layouts, i) <= primitives_before(layouts, j),
    decreases j,
{
    if j > 0 {
        let k = if i < j {
            i
        } else {
            j - 1
        };
        lemma_primitives_before_monotone(layouts, k, j - 1);
    }
}

/// The mesh of the first node that instances the mesh with id `id`.
fn find_mesh_node(node_meshes: &Vec<Option<usize>>, id: u32) -> (r: usize)
    requires
        first_position(mesh_node_flags(node_meshes@, id), true) is Some,
    ensures
        r == mesh_of_id(node_meshes@, id),
{
    let ghost flags = mesh_node_flags(node_meshes@, id);
    proof {
        lemma_first_position_spec(flags, true);
    }
    let n = node_meshes.len();
    let mut i: usize = 0;
    while i < n
        invariant
            i <= n,
            n == node_meshes@.len(),
            flags == mesh_node_flags(node_meshes@, id),
            first_position(flags, true) is Some,
            first_position(flags, true) matches Some(f) ==> i <= f < n && flags[f] && forall|q: int|
                0 <= q < f ==> !flags[q],
        decreases n - i,
    {
        match node_meshes[i] {
            Some(m) => {
                if #[verifier::truncate] (m as u32) == id {
                    proof {
                        assert(flags[i as int]);
                    }
                    return m;
                }
            },
            None => {},
        }
        i += 1;
    }
    proof {
        assert(false);
    }
    0
}

/// The meshes of a model and the data of their primitives: for each mesh
/// id, in order, the mesh of the first node (of `node_meshes`, the mesh of
/// each node) that instances it, as a mesh whose primitives are not placed
/// yet, and the data of its primitives read out of the main buffer. Fails
/// with `NoView` when an accessor of one of them has no buffer view.
pub fn get_model_meshes(
    mesh_ids: &Vec<u32>,
    node_meshes: &Vec<Option<usize>>,
    meshes: &Vec<MeshLayout>,
    buffer_offsets: &Vec<u64>,
    binary_data: &Vec<u8>,
) -> (r: Result<(Vec<GMesh>, Vec<PrimitiveData>), GltfErrors>)
    requires
        model_meshes_readable(
            mesh_ids@,
            node_meshes@,
            meshes@,
            buffer_offsets@,
            binary_data@.len() as int,
        ),
    ensures
        ({
            let layouts = meshes_of_ids(mesh_ids@, node_meshes@, meshes@);
            &&& (forall|i: int| 0 <= i < layouts.len() ==> mesh_has_views(#[trigger] layouts[i]))
                <==> r is Ok
            &&& r is Err ==> (r matches Err(GltfErrors::NoView))
            &&& r matches Ok((gm, pd)) ==> model_meshes_of(
                gm@,
                pd@,
                layouts,
                buffer_offsets@,
                binary_data@,
            )
        }),
{
    let ghost layouts = meshes_of_ids(mesh_ids@, node_meshes@, meshes@);
    let mut mesh_primitive_data: Vec<PrimitiveData> = Vec::new();
    let mut g_meshes: Vec<GMesh> = Vec::new();
    let n = mesh_ids.len();
    let mut i: usize = 0;
    while i < n
        invariant
            i <= n,
            n == mesh_ids@.len(),
            layouts == meshes_of_ids(mesh_ids@, node_meshes@, meshes@),
            model_meshes_readable(
                mesh_ids@,
                node_meshes@,
                meshes@,
                buffer_offsets@,
                binary_data@.len() as int,
            ),
            forall|k: int| 0 <= k < i ==> mesh_has_views(#[trigger] layouts[k]),
            model_meshes_of(
                g_meshes@,
                mesh_primitive_data@,
                layouts.take(i as int),
                buffer_offsets@,
                binary_data@,
            ),
        decreases n - i,
    {
        let id = mesh_ids[i];
        let mesh_index = find_mesh_node(node_meshes, id);
        let mesh = &meshes[mesh_index];
        proof {
            assert(layouts[i as int] == *mesh);
        }
        let data = match GMesh::get_primitive_data(mesh, buffer_offsets, binary_data) {
            Ok(d) => d,
            Err(e) => {
                return Err(e);
            },
        };
        let g_mesh = match GMesh::new(mesh.index, mesh.primitives.len()) {
            Ok(m) => m,
            Err(e) => {
                return Err(e);
            },
        };
        let ghost before_meshes = g_meshes@;
        let ghost before_data = mesh_primitive_data@;
        let ghost prev = layouts.take(i as int);
        let ghost next = layouts.take(i + 1);
        g_meshes.push(g_mesh);
        let mut data = data;
        let ghost added = data@;
        mesh_primitive_data.append(&mut data);
        proof {
            assert(next.drop_last() =~= prev);
            assert forall|k: int| 0 <= k <= i implies primitives_before(next, k) == primitives_before(
                prev,
                k,
            ) || k == i + 1 by {
                lemma_primitives_before_prefix(prev, next, k);
            }
            lemma_primitives_before_prefix(prev, next, i as int);
            assert(primitives_before(next, i + 1) == primitives_before(prev, i as int)
                + added.len());
            lemma_primitives_before_monotone(prev, 0, i as int);
            assert forall|k: int| 0 <= k < i + 1 implies {
                &&& (#[trigger] g_meshes@[k]).mesh_id == next[k].index
                &&& g_meshes@[k].primitives@.len() == next[k].primitives@.len()
                &&& forall|j: int|
                    0 <= j < g_meshes@[k].primitives@.len() ==> (#[trigger] g_meshes@[k].primitives@[j])
                        == (GPrimitive {
                        initialized_vertex_offset_len: None,
                        initialized_index_offset_len: None,
                    })
                &&& mesh_data_of(
                    mesh_primitive_data@.subrange(
                        primitives_before(next, k),
                        primitives_before(next, k + 1),
                    ),
                    next[k],
                    buffer_offsets@,
                    binary_data@,
                )
            } by {
                if k < i {
                    lemma_primitives_before_prefix(prev, next, k);
                    lemma_primitives_before_prefix(prev, next, k + 1);
                    lemma_primitives_before_monotone(prev, k, k + 1);
                    lemma_primitives_before_monotone(prev, k + 1, i as int);
                    assert(mesh_primitive_data@.subrange(
                        primitives_before(next, k),
                        primitives_before(next, k + 1),
                    ) =~= before_data.subrange(
                        primitives_before(prev, k),
                        primitives_before(prev, k + 1),
                    ));
                } else {
                    assert(mesh_primitive_data@.subrange(
                        primitives_before(next, k),
                        primitives_before(next, k + 1),
                    ) =~= added);
                }
            }
        }
        i += 1;
    }
    proof {
        assert(layouts.take(n as int) =~= layouts);
    }
    Ok((g_meshes, mesh_primitive_data))
}

proof fn lemma_primitives_before_prefix(a: Seq<MeshLayout>, b: Seq<MeshLayout>, k: int)
    requires
        0 <= k <= a.len(),
        k <= b.len(),
        forall|t: int| 0 <= t < k ==> a[t] == b[t],
    ensures
        primitives_before(a, k) == primitives_before(b, k),
    decreases k,
{
    if k > 0 {
        lemma_primitives_before_prefix(a, b, k - 1);
    }
}

} // verus!
