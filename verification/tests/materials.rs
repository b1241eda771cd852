use code_notes::model::materials::util::{
    address_mode_from_gltf, get_image_bytes_from_view, mag_filter_from_gltf, min_filter_from_gltf, AddressMode,
    FilterMode, MagFilter, MinFilter, WrappingMode,
};

#[test]
fn address_modes() {
    assert_eq!(address_mode_from_gltf(WrappingMode::ClampToEdge), AddressMode::ClampToEdge);
    assert_eq!(address_mode_from_gltf(WrappingMode::MirroredRepeat), AddressMode::MirrorRepeat);
    assert_eq!(address_mode_from_gltf(WrappingMode::Repeat), AddressMode::Repeat);
}

#[test]
fn mag_filters_default_to_nearest() {
    assert_eq!(mag_filter_from_gltf(None), FilterMode::Nearest);
    assert_eq!(mag_filter_from_gltf(Some(MagFilter::Linear)), FilterMode::Linear);
    assert_eq!(mag_filter_from_gltf(Some(MagFilter::Nearest)), FilterMode::Nearest);
}

#[test]
fn min_filters_split_into_mipmap_filter() {
    assert_eq!(min_filter_from_gltf(None), (FilterMode::Linear, None));
    assert_eq!(min_filter_from_gltf(Some(MinFilter::Nearest)), (FilterMode::Nearest, None));
    assert_eq!(
        min_filter_from_gltf(Some(MinFilter::LinearMipmapNearest)),
        (FilterMode::Linear, Some(FilterMode::Nearest))
    );
    assert_eq!(
        min_filter_from_gltf(Some(MinFilter::NearestMipmapLinear)),
        (FilterMode::Nearest, Some(FilterMode::Linear))
    );
}

#[test]
fn image_bytes_are_the_view_slice() {
    let data: Vec<u8> = (0..10).collect();
    assert_eq!(get_image_bytes_from_view(3, 4, &data), vec![3, 4, 5, 6]);
    assert!(get_image_bytes_from_view(10, 0, &data).is_empty());
}
