//! Primitives of a mesh: where their vertices and indices end up in the scene
//! buffers, and the raw attribute data read for them out of the main buffer.
use crate::model::util::{
    accessor_bytes, copy_binary_data_from_gltf, copy_is_defined, element_size,
    get_index_offset_len, supported_component, supported_dimensions, accessor_start,
    AccessorLayout, AttributeType, GltfErrors, InitializationError,
};
use std::ops::Range;
use vstd::prelude::*;
use vstd::slice::{slice_subrange, slice_to_vec};

verus! {

/// Where a primitive's vertices and indices lie in the scene's vertex and
/// index buffers, as (offset, length) pairs, once they are known.
#[derive(Debug, Clone, Copy)]
pub struct GPrimitive {
    pub initialized_vertex_offset_len: Option<(u32, u32)>,
    pub initialized_index_offset_len: Option<(u32, u32)>,
}

/// The raw data of one primitive: its mesh, its position bytes, where its
/// indices lie in the main buffer, and its optional normal, joint and weight
/// bytes.
pub struct PrimitiveData {
    pub mesh_id: usize,
    pub positions: Vec<u8>,
    pub indices_offset: usize,
    pub indices_len: usize,
    pub normals: Option<Vec<u8>>,
    pub joints: Option<Vec<u8>>,
    pub weights: Option<Vec<u8>>,
}

/// The number of indices of a range (zero for an empty or reversed one).
pub open spec fn range_len(r: Range<usize>) -> int {
    if r.end > r.start {
        r.end - r.start
    } else {
        0
    }
}

/// The scan over the index ranges from position `i` on, for a primitive
/// whose indices start at byte `offset` and are `len` bytes long: every range
/// that ends before the offset adds its length; the first one that does not
/// adds the distance from its start to the offset and ends the scan. The
/// second component tells whether the primitive's indices run past the end
/// of that range.
pub open spec fn relative_offset_from(ranges: Seq<Range<usize>>, offset: int, len: int, i: int) -> (
    int,
    bool,
)
    decreases ranges.len() - i,
{
    if i < 0 || i >= ranges.len() {
        (0, false)
    } else if offset > ranges[i].end {
        let rest = relative_offset_from(ranges, offset, len, i + 1);
        (range_len(ranges[i]) + rest.0, rest.1)
    } else {
        (offset - ranges[i].start, offset + len > ranges[i].end)
    }
}

/// The scan can be made with machine integers: the range where it stops
/// starts at or before the offset, the offset plus the length fits, and the
/// running sum fits.
pub open spec fn relative_offset_defined(ranges: Seq<Range<usize>>, offset: int, len: int, i: int) -> bool
    decreases ranges.len() - i,
{
    if i < 0 || i >= ranges.len() {
        true
    } else if offset > ranges[i].end {
        relative_offset_from(ranges, offset, len, i).0 <= usize::MAX && relative_offset_defined(
            ranges,
            offset,
            len,
            i + 1,
        )
    } else {
        ranges[i].start <= offset && offset + len <= usize::MAX
    }
}

proof fn lemma_relative_offset_nonneg(ranges: Seq<Range<usize>>, offset: int, len: int, i: int)
    requires
        relative_offset_defined(ranges, offset, len, i),
    ensures
        relative_offset_from(ranges, offset, len, i).0 >= 0,
    decreases ranges.len() - i,
{
    if 0 <= i < ranges.len() && offset > ranges[i].end {
        lemma_relative_offset_nonneg(ranges, offset, len, i + 1);
    }
}

/// `r` holds the `u16`s of `bytes`, two bytes each, all read in one byte
/// order: every one with its low byte first, or every one with its high byte
/// first.
pub open spec fn u16s_in_one_order(r: Seq<u16>, bytes: Seq<u8>) -> bool {
    &&& 2 * r.len() == bytes.len()
    &&& (forall|j: int| 0 <= j < r.len() ==> #[trigger] r[j] == bytes[2 * j] + 256 * bytes[2 * j + 1])
        || (forall|j: int| 0 <= j < r.len() ==> #[trigger] r[j] == bytes[2 * j + 1] + 256 * bytes[2 * j])
}

/// Reads the bytes as `u16`s, two bytes each, with
/// `bytemuck::pod_collect_to_vec`: the bytes are copied into `u16`s, so all
/// of them are read in the machine's byte order. This contract does not fix
/// which order that is, only that it is one order for all of them.
#[verifier::external_body]
fn collect_u16s(bytes: &Vec<u8>) -> (r: Vec<u16>)
    requires
        bytes@.len() % 2 == 0,
    ensures
        u16s_in_one_order(r@, bytes@),
{
    bytemuck::pod_collect_to_vec::<u8, u16>(bytes.as_slice())
}

/// The bytes of the main buffer that the ranges select, one range after the
/// other.
pub open spec fn selected_bytes(data: Seq<u8>, ranges: Seq<Range<usize>>) -> Seq<u8>
    decreases ranges.len(),
{
    if ranges.len() == 0 {
        Seq::empty()
    } else {
        selected_bytes(data, ranges.drop_last()) + data.subrange(
            ranges.last().start as int,
            ranges.last().end as int,
        )
    }
}

/// Every range lies within the data, and has an even length.
pub open spec fn ranges_select_u16s(data_len: int, ranges: Seq<Range<usize>>) -> bool {
    forall|k: int|
        0 <= k < ranges.len() ==> #[trigger] ranges[k].start <= ranges[k].end <= data_len && (
        ranges[k].end - ranges[k].start) % 2 == 0
}

/// The total length of the first `k` ranges.
pub open spec fn ranges_len_before(ranges: Seq<Range<usize>>, k: int) -> int
    decreases k,
{
    if k <= 0 {
        0
    } else {
        ranges_len_before(ranges, k - 1) + range_len(ranges[k - 1])
    }
}

/// Every range lies within the data.
pub open spec fn ranges_within(data_len: int, ranges: Seq<Range<usize>>) -> bool {
    forall|k: int| 0 <= k < ranges.len() ==> #[trigger] ranges[k].start <= ranges[k].end <= data_len
}

proof fn lemma_selected_take(data: Seq<u8>, ranges: Seq<Range<usize>>, k: int)
    requires
        0 <= k <= ranges.len(),
        ranges_within(data.len() as int, ranges),
    ensures
        selected_bytes(data, ranges.take(k)).len() == ranges_len_before(ranges, k),
        selected_bytes(data, ranges.take(k)).len() <= selected_bytes(data, ranges).len(),
        forall|t: int|
            0 <= t < selected_bytes(data, ranges.take(k)).len() ==> #[trigger] selected_bytes(
                data,
                ranges.take(k),
            )[t] == selected_bytes(data, ranges)[t],
    decreases ranges.len() - k,
{
    if k == ranges.len() {
        assert(ranges.take(k) =~= ranges);
        lemma_selected_len(data, ranges, k);
    } else {
        lemma_selected_take(data, ranges, k + 1);
        assert(ranges.take(k + 1).drop_last() =~= ranges.take(k));
        assert(ranges.take(k + 1).last() == ranges[k]);
        lemma_selected_len(data, ranges, k);
        let small = selected_bytes(data, ranges.take(k));
        let big = selected_bytes(data, ranges.take(k + 1));
        assert(big == small + data.subrange(ranges[k].start as int, ranges[k].end as int));
        assert forall|t: int| 0 <= t < small.len() implies #[trigger] small[t] == selected_bytes(
            data,
            ranges,
        )[t] by {
            assert(big[t] == small[t]);
        }
    }
}

proof fn lemma_selected_len(data: Seq<u8>, ranges: Seq<Range<usize>>, k: int)
    requires
        0 <= k <= ranges.len(),
        ranges_within(data.len() as int, ranges),
    ensures
        selected_bytes(data, ranges.take(k)).len() == ranges_len_before(ranges, k),
    decreases k,
{
    if k > 0 {
        lemma_selected_len(data, ranges, k - 1);
        assert(ranges.take(k).drop_last() =~= ranges.take(k - 1));
        assert(ranges.take(k).last() == ranges[k - 1]);
    }
}

proof fn lemma_scan_from(ranges: Seq<Range<usize>>, offset: int, len: int, i: int, k: int)
    requires
        0 <= i <= k < ranges.len(),
        forall|j: int| i <= j < k ==> offset > #[trigger] ranges[j].end,
        offset <= ranges[k].end,
    ensures
        relative_offset_from(ranges, offset, len, i) == (
            ranges_len_before(ranges, k) - ranges_len_before(ranges, i) + offset - ranges[k].start,
            offset + len > ranges[k].end,
        ),
    decreases k - i,
{
    if i < k {
        lemma_scan_from(ranges, offset, len, i + 1, k);
    }
}

proof fn lemma_first_holding(ranges: Seq<Range<usize>>, offset: int, i: int, k: int) -> (f: int)
    requires
        0 <= i <= k < ranges.len(),
        offset <= ranges[k].end,
    ensures
        i <= f <= k,
        offset <= ranges[f].end,
        forall|j: int| i <= j < f ==> offset > #[trigger] ranges[j].end,
    decreases k - i,
{
    if offset <= ranges[i].end {
        i
    } else {
        lemma_first_holding(ranges, offset, i + 1, k)
    }
}

/// Where a primitive's bytes lie within one of the ranges, the bytes at its
/// relative offset in the concatenation of the ranges are its own bytes: the
/// composed index buffer gives back the primitive's indices.
pub proof fn lemma_relative_offset_reads_back(
    data: Seq<u8>,
    ranges: Seq<Range<usize>>,
    offset: int,
    len: int,
)
    requires
        ranges_within(data.len() as int, ranges),
        relative_offset_defined(ranges, offset, len, 0),
        !relative_offset_from(ranges, offset, len, 0).1,
        exists|k: int| 0 <= k < ranges.len() && offset <= #[trigger] ranges[k].end,
        0 <= len,
    ensures
        0 <= relative_offset_from(ranges, offset, len, 0).0,
        relative_offset_from(ranges, offset, len, 0).0 + len <= selected_bytes(data, ranges).len(),
        forall|t: int|
            0 <= t < len ==> #[trigger] selected_bytes(data, ranges)[relative_offset_from(
                ranges,
                offset,
                len,
                0,
            ).0 + t] == data[offset + t],
{
    let k = choose|k: int| 0 <= k < ranges.len() && offset <= #[trigger] ranges[k].end;
    let f = lemma_first_holding(ranges, offset, 0, k);
    lemma_scan_from(ranges, offset, len, 0, f);
    lemma_relative_offset_stop(ranges, offset, len, 0, f);
    let rel = relative_offset_from(ranges, offset, len, 0).0;
    let before = selected_bytes(data, ranges.take(f));
    let upto = selected_bytes(data, ranges.take(f + 1));
    lemma_selected_take(data, ranges, f);
    lemma_selected_take(data, ranges, f + 1);
    assert(ranges.take(f + 1).drop_last() =~= ranges.take(f));
    assert(ranges.take(f + 1).last() == ranges[f]);
    let r = ranges[f];
    assert(upto == before + data.subrange(r.start as int, r.end as int));
    assert forall|t: int| 0 <= t < len implies #[trigger] selected_bytes(data, ranges)[rel + t]
        == data[offset + t] by {
        assert(upto[rel + t] == data[offset + t]);
    }
}

proof fn lemma_relative_offset_stop(ranges: Seq<Range<usize>>, offset: int, len: int, i: int, f: int)
    requires
        0 <= i <= f < ranges.len(),
        forall|j: int| i <= j < f ==> offset > #[trigger] ranges[j].end,
        offset <= ranges[f].end,
        relative_offset_defined(ranges, offset, len, i),
    ensures
        ranges[f].start <= offset,
    decreases f - i,
{
    if i < f {
        lemma_relative_offset_stop(ranges, offset, len, i + 1, f);
    }
}

impl GPrimitive {
    /// A primitive whose place in the scene buffers is not known yet.
    pub fn new() -> (r: Self)
        ensures
            r.initialized_vertex_offset_len is None,
            r.initialized_index_offset_len is None,
    {
        Self { initialized_vertex_offset_len: None, initialized_index_offset_len: None }
    }

    /// The `u16` indices that the byte ranges select from the main buffer,
    /// one range after the other.
    pub fn get_index_data(main_buffer_data: &Vec<u8>, indices_ranges: &Vec<Range<usize>>) -> (r:
        Vec<u16>)
        requires
            ranges_select_u16s(main_buffer_data@.len() as int, indices_ranges@),
        ensures
            u16s_in_one_order(r@, selected_bytes(main_buffer_data@, indices_ranges@)),
    {
        let mut index_bytes: Vec<u8> = Vec::new();
        let n = indices_ranges.len();
        let ghost data = main_buffer_data@;
        let ghost ranges = indices_ranges@;
        let mut k: usize = 0;
        while k < n
            invariant
                n == ranges.len(),
                ranges == indices_ranges@,
                data == main_buffer_data@,
                ranges_select_u16s(data.len() as int, ranges),
                k <= n,
                index_bytes@ == selected_bytes(data, ranges.subrange(0, k as int)),
                index_bytes@.len() % 2 == 0,
            decreases n - k,
        {
            let range = &indices_ranges[k];
            let start = range.start;
            let end = range.end;
            proof {
                assert(ranges.subrange(0, k + 1).drop_last() =~= ranges.subrange(0, k as int));
                assert(ranges.subrange(0, k + 1).last() == ranges[k as int]);
                assert(ranges[k as int].start <= ranges[k as int].end <= data.len());
            }
            let mut part = slice_to_vec(slice_subrange(main_buffer_data.as_slice(), start, end));
            index_bytes.append(&mut part);
            k += 1;
        }
        proof {
            assert(ranges.subrange(0, n as int) =~= ranges);
        }
        collect_u16s(&index_bytes)
    }

    /// Records where the primitive's indices lie in the index buffer that is
    /// composed of the given byte ranges of the main buffer: the byte offset
    /// relative to that buffer and the byte length, both halved to count
    /// `u16` indices. Fails, leaving the primitive as it was, when the
    /// primitive's indices run past the end of the range that holds their
    /// start.
    pub fn set_relative_indices_offset(
        &mut self,
        data: &PrimitiveData,
        index_ranges: &Vec<Range<usize>>,
    ) -> (r: Result<(), InitializationError>)
        requires
            relative_offset_defined(
                index_ranges@,
                data.indices_offset as int,
                data.indices_len as int,
                0,
            ),
        ensures
            ({
                let scan = relative_offset_from(
                    index_ranges@,
                    data.indices_offset as int,
                    data.indices_len as int,
                    0,
                );
                &&& scan.1 <==> (r matches Err(InitializationError::SceneInitializationError))
                &&& scan.1 ==> *final(self) == *old(self)
                &&& !scan.1 ==> r is Ok && final(self).initialized_vertex_offset_len == old(
                    self,
                ).initialized_vertex_offset_len && final(self).initialized_index_offset_len
                    == Some(((scan.0 / 2) as u32, (data.indices_len as u32) / 2))
            }),
    {
        let mut relative_buffer_offset: usize = 0;
        let offset = data.indices_offset;
        let len = data.indices_len;
        let n = index_ranges.len();
        let ghost ranges = index_ranges@;
        let mut i: usize = 0;
        proof {
            lemma_relative_offset_nonneg(ranges, offset as int, len as int, 0);
        }
        while i < n
            invariant_except_break
                relative_offset_defined(ranges, offset as int, len as int, i as int),
                relative_offset_from(ranges, offset as int, len as int, 0).0 == relative_buffer_offset
                    + relative_offset_from(ranges, offset as int, len as int, i as int).0,
                relative_offset_from(ranges, offset as int, len as int, 0).1 == relative_offset_from(
                    ranges,
                    offset as int,
                    len as int,
                    i as int,
                ).1,
            invariant
                i <= n,
                n == ranges.len(),
                ranges == index_ranges@,
                offset == data.indices_offset,
                len == data.indices_len,
                relative_offset_from(ranges, offset as int, len as int, 0).0 <= usize::MAX,
            ensures
                relative_offset_from(ranges, offset as int, len as int, 0).0
                    == relative_buffer_offset,
                relative_offset_from(ranges, offset as int, len as int, 0).1 == false,
            decreases n - i,
        {
            let index_range = &index_ranges[i];
            if offset > index_range.end {
                proof {
                    lemma_relative_offset_nonneg(ranges, offset as int, len as int, i + 1);
                }
                let range_len = if index_range.end > index_range.start {
                    index_range.end - index_range.start
                } else {
                    0
                };
                relative_buffer_offset += range_len;
            } else {
                relative_buffer_offset += offset - index_range.start;
                if offset + len > index_range.end {
                    return Err(InitializationError::SceneInitializationError);
                }
                break;
            }
            i += 1;
        }
        self.initialized_index_offset_len = Some(
            (
                #[verifier::truncate]
                ((relative_buffer_offset / 2) as u32),
                (#[verifier::truncate]
                (len as u32)) / 2,
            ),
        );
        Ok(())
    }
}

/// What [`PrimitiveData::from_data`] reads of a glTF primitive: the accessor
/// of its positions, and those of its normals, indices, first joints and
/// first weights where it has them.
#[derive(Debug, Clone, Copy)]
pub struct PrimitiveLayout {
    pub positions: AccessorLayout,
    pub normals: Option<AccessorLayout>,
    pub indices: Option<AccessorLayout>,
    pub joints: Option<AccessorLayout>,
    pub weights: Option<AccessorLayout>,
}

/// The bytes of an optional accessor.
pub open spec fn optional_bytes(
    a: Option<AccessorLayout>,
    buffer_offsets: Seq<u64>,
    data: Seq<u8>,
) -> Option<Seq<u8>> {
    match a {
        Some(acc) => Some(accessor_bytes(acc, buffer_offsets, data)),
        None => None,
    }
}

/// An optional accessor can be copied (or is absent).
pub open spec fn optional_copy_defined(a: Option<AccessorLayout>, buffer_offsets: Seq<u64>, len: int) -> bool {
    a matches Some(acc) ==> copy_is_defined(acc, buffer_offsets, len)
}

/// The bytes of an optional copy.
pub open spec fn bytes_of(o: Option<Vec<u8>>) -> Option<Seq<u8>> {
    match o {
        Some(v) => Some(v@),
        None => None,
    }
}

/// An optional accessor is absent or has a buffer view.
pub open spec fn has_view_if_present(a: Option<AccessorLayout>) -> bool {
    a matches Some(acc) ==> acc.view is Some
}

/// The index accessor's offset and length can be computed (or it is absent).
pub open spec fn index_layout_defined(a: Option<AccessorLayout>, buffer_offsets: Seq<u64>) -> bool {
    a matches Some(acc) ==> {
        &&& supported_component(acc.data_type)
        &&& supported_dimensions(acc.dimensions)
        &&& element_size(acc) * acc.count <= usize::MAX
        &&& (acc.view matches Some(v) ==> {
            &&& v.buffer_index < buffer_offsets.len()
            &&& v.offset + acc.offset <= usize::MAX
            &&& accessor_start(acc, buffer_offsets) <= usize::MAX
        })
    }
}

/// Every accessor of the primitive can be read out of a main buffer of `len`
/// bytes.
pub open spec fn primitive_readable(p: PrimitiveLayout, buffer_offsets: Seq<u64>, len: int) -> bool {
    &&& copy_is_defined(p.positions, buffer_offsets, len)
    &&& index_layout_defined(p.indices, buffer_offsets)
    &&& optional_copy_defined(p.normals, buffer_offsets, len)
    &&& optional_copy_defined(p.joints, buffer_offsets, len)
    &&& optional_copy_defined(p.weights, buffer_offsets, len)
}

/// Every accessor of the primitive has a buffer view.
pub open spec fn primitive_has_views(p: PrimitiveLayout) -> bool {
    &&& p.positions.view is Some
    &&& has_view_if_present(p.indices)
    &&& has_view_if_present(p.normals)
    &&& has_view_if_present(p.joints)
    &&& has_view_if_present(p.weights)
}

/// `d` is the data of primitive `p` of mesh `mesh_id`: the bytes of its
/// positions and of its optional normals, joints and weights, and the byte
/// offset and length of its indices (zero and zero when it has none).
pub open spec fn primitive_data_of(
    d: PrimitiveData,
    mesh_id: usize,
    p: PrimitiveLayout,
    buffer_offsets: Seq<u64>,
    data: Seq<u8>,
) -> bool {
    &&& d.mesh_id == mesh_id
    &&& d.positions@ == accessor_bytes(p.positions, buffer_offsets, data)
    &&& (p.indices matches Some(acc) ==> d.indices_offset == accessor_start(acc, buffer_offsets)
        && d.indices_len == element_size(acc) * acc.count)
    &&& (p.indices is None ==> d.indices_offset == 0 && d.indices_len == 0)
    &&& bytes_of(d.normals) == optional_bytes(p.normals, buffer_offsets, data)
    &&& bytes_of(d.joints) == optional_bytes(p.joints, buffer_offsets, data)
    &&& bytes_of(d.weights) == optional_bytes(p.weights, buffer_offsets, data)
}

fn copy_optional(
    a: &Option<AccessorLayout>,
    kind: AttributeType,
    buffer_offsets: &Vec<u64>,
    binary_data: &Vec<u8>,
) -> (r: Result<Option<Vec<u8>>, GltfErrors>)
    requires
        optional_copy_defined(*a, buffer_offsets@, binary_data@.len() as int),
    ensures
        has_view_if_present(*a) <==> r is Ok,
        !has_view_if_present(*a) ==> r matches Err(GltfErrors::NoView),
        r matches Ok(o) ==> bytes_of(o) == optional_bytes(*a, buffer_offsets@, binary_data@),
{
    match a {
        Some(acc) => {
            match copy_binary_data_from_gltf(acc, kind, buffer_offsets, binary_data) {
                Ok(bytes) => Ok(Some(bytes)),
                Err(e) => Err(e),
            }
        },
        None => Ok(None),
    }
}

impl PrimitiveData {
    /// Reads the data of primitive `primitive` of mesh `mesh_id` out of the
    /// main buffer, as [`primitive_data_of`] says. Fails with `NoView` when
    /// one of its accessors has no buffer view.
    pub fn from_data(
        mesh_id: usize,
        primitive: &PrimitiveLayout,
        buffer_offsets: &Vec<u64>,
        binary_data: &Vec<u8>,
    ) -> (r: Result<Self, GltfErrors>)
        requires
            primitive_readable(*primitive, buffer_offsets@, binary_data@.len() as int),
        ensures
            primitive_has_views(*primitive) <==> r is Ok,
            !primitive_has_views(*primitive) ==> (r matches Err(GltfErrors::NoView)),
            r matches Ok(d) ==> primitive_data_of(d, mesh_id, *primitive, buffer_offsets@, binary_data@),
    {
        let positions_bytes = match copy_binary_data_from_gltf(
            &primitive.positions,
            AttributeType::Position,
            buffer_offsets,
            binary_data,
        ) {
            Ok(b) => b,
            Err(e) => {
                return Err(e);
            },
        };
        let (indices_offset, indices_len) = match get_index_offset_len(
            primitive.indices.as_ref(),
            buffer_offsets,
        ) {
            Ok(Some(pair)) => pair,
            Ok(None) => (0, 0),
            Err(e) => {
                return Err(e);
            },
        };
        let normals_bytes = match copy_optional(
            &primitive.normals,
            AttributeType::Normal,
            buffer_offsets,
            binary_data,
        ) {
            Ok(b) => b,
            Err(e) => {
                return Err(e);
            },
        };
        let joints_bytes = match copy_optional(
            &primitive.joints,
            AttributeType::Joints,
            buffer_offsets,
            binary_data,
        ) {
            Ok(b) => b,
            Err(e) => {
                return Err(e);
            },
        };
        let weights_bytes = match copy_optional(
            &primitive.weights,
            AttributeType::Weights,
            buffer_offsets,
            binary_data,
        ) {
            Ok(b) => b,
            Err(e) => {
                return Err(e);
            },
        };
        Ok(Self {
            mesh_id,
            positions: positions_bytes,
            indices_offset,
            indices_len,
            normals: normals_bytes,
            joints: joints_bytes,
            weights: weights_bytes,
        })
    }
}

} // verus!
