//! Texture sampling settings taken from glTF samplers, and the bytes of an
//! image embedded in the main buffer.
use vstd::prelude::*;

verus! {

/// How a glTF sampler wraps texture coordinates.
#[derive(Debug, Clone, Copy, PartialEq, Eq)]
pub enum WrappingMode {
    ClampToEdge,
    MirroredRepeat,
    Repeat,
}

/// How a glTF sampler magnifies.
#[derive(Debug, Clone, Copy, PartialEq, Eq)]
pub enum MagFilter {
    Nearest,
    Linear,
}

/// How a glTF sampler minifies, and between which mipmap levels.
#[derive(Debug, Clone, Copy, PartialEq, Eq)]
pub enum MinFilter {
    Nearest,
    Linear,
    NearestMipmapNearest,
    LinearMipmapNearest,
    NearestMipmapLinear,
    LinearMipmapLinear,
}

/// How the renderer addresses a texture outside its bounds.
#[derive(Debug, Clone, Copy, PartialEq, Eq)]
pub enum AddressMode {
    ClampToEdge,
    Repeat,
    MirrorRepeat,
}

/// How the renderer filters a texture.
#[derive(Debug, Clone, Copy, PartialEq, Eq)]
pub enum FilterMode {
    Nearest,
    Linear,
}

/// The address mode for a wrapping mode.
pub fn address_mode_from_gltf(wrap_mode: WrappingMode) -> (r: AddressMode)
    ensures
        wrap_mode == WrappingMode::ClampToEdge ==> r == AddressMode::ClampToEdge,
        wrap_mode == WrappingMode::MirroredRepeat ==> r == AddressMode::MirrorRepeat,
        wrap_mode == WrappingMode::Repeat ==> r == AddressMode::Repeat,
{
    match wrap_mode {
        WrappingMode::ClampToEdge => AddressMode::ClampToEdge,
        WrappingMode::MirroredRepeat => AddressMode::MirrorRepeat,
        WrappingMode::Repeat => AddressMode::Repeat,
    }
}

/// The magnification filter: as the sampler says, nearest where it says
/// nothing.
pub fn mag_filter_from_gltf(filter_mode: Option<MagFilter>) -> (r: FilterMode)
    ensures
        filter_mode == Some(MagFilter::Linear) ==> r == FilterMode::Linear,
        filter_mode != Some(MagFilter::Linear) ==> r == FilterMode::Nearest,
{
    match filter_mode {
        Some(fm) => match fm {
            MagFilter::Nearest => FilterMode::Nearest,
            MagFilter::Linear => FilterMode::Linear,
        },
        None => FilterMode::Nearest,
    }
}

/// The minification filter and the mipmap filter, if any: the first word of
/// the sampler's filter, and the one after `Mipmap`; linear without mipmap
/// filter where the sampler says nothing.
pub fn min_filter_from_gltf(filter_mode: Option<MinFilter>) -> (r: (FilterMode, Option<FilterMode>))
    ensures
        filter_mode == Some(MinFilter::Nearest) ==> r == (FilterMode::Nearest, None::<FilterMode>),
        filter_mode == Some(MinFilter::Linear) ==> r == (FilterMode::Linear, None::<FilterMode>),
        filter_mode == Some(MinFilter::NearestMipmapNearest) ==> r == (
            FilterMode::Nearest,
            Some(FilterMode::Nearest),
        ),
        filter_mode == Some(MinFilter::LinearMipmapNearest) ==> r == (
            FilterMode::Linear,
            Some(FilterMode::Nearest),
        ),
        filter_mode == Some(MinFilter::NearestMipmapLinear) ==> r == (
            FilterMode::Nearest,
            Some(FilterMode::Linear),
        ),
        filter_mode == Some(MinFilter::LinearMipmapLinear) ==> r == (
            FilterMode::Linear,
            Some(FilterMode::Linear),
        ),
        filter_mode is None ==> r == (FilterMode::Linear, None::<FilterMode>),
{
    match filter_mode {
        Some(fm) => match fm {
            MinFilter::Nearest => (FilterMode::Nearest, None),
            MinFilter::Linear => (FilterMode::Linear, None),
            MinFilter::NearestMipmapNearest => (FilterMode::Nearest, Some(FilterMode::Nearest)),
            MinFilter::LinearMipmapNearest => (FilterMode::Linear, Some(FilterMode::Nearest)),
            MinFilter::NearestMipmapLinear => (FilterMode::Nearest, Some(FilterMode::Linear)),
            MinFilter::LinearMipmapLinear => (FilterMode::Linear, Some(FilterMode::Linear)),
        },
        None => (FilterMode::Linear, None),
    }
}

/// The bytes of an image embedded in the main buffer through a buffer view
/// of byte offset `view_offset` and byte length `view_length`.
pub fn get_image_bytes_from_view(view_offset: usize, view_length: usize, main_buffer_data: &Vec<u8>) -> (r: Vec<u8>)
    requires
        view_offset + view_length <= main_buffer_data@.len(),
    ensures
        r@ == main_buffer_data@.subrange(view_offset as int, view_offset + view_length),
{
    let data_len = main_buffer_data.len();
    let end = view_offset + view_length;
    let mut bytes: Vec<u8> = Vec::new();
    let mut i: usize = view_offset;
    while i < end
        invariant
            view_offset <= i <= end,
            end <= main_buffer_data@.len(),
            bytes@ == main_buffer_data@.subrange(view_offset as int, i as int),
        decreases end - i,
    {
        bytes.push(main_buffer_data[i]);
        proof {
            assert(bytes@ =~= main_buffer_data@.subrange(view_offset as int, i + 1));
        }
        i += 1;
    }
    bytes
}

} // verus!
