use calibraw_core::tiff::{
    inspect_tiff_container, is_tiff_path, normalize_icc_profile, read_embedded_icc_profile,
    walk_tiff_fields, TiffContainerKind, TiffError, TiffQuery,
};

fn put_u16(bytes: &mut [u8], offset: usize, value: u16) {
    bytes[offset..offset + 2].copy_from_slice(&value.to_le_bytes());
}

fn put_u32(bytes: &mut [u8], offset: usize, value: u32) {
    bytes[offset..offset + 4].copy_from_slice(&value.to_le_bytes());
}

fn classic_ifd_chain_with_subifd() -> Vec<u8> {
    let mut bytes = vec![0; 80];
    bytes[0..2].copy_from_slice(b"II");
    put_u16(&mut bytes, 2, 42);
    put_u32(&mut bytes, 4, 8);

    // The first IFD points to both a chained IFD and a SubIFD.
    put_u16(&mut bytes, 8, 1);
    put_u16(&mut bytes, 10, 330);
    put_u16(&mut bytes, 12, 4);
    put_u32(&mut bytes, 14, 1);
    put_u32(&mut bytes, 18, 56);
    put_u32(&mut bytes, 22, 32);

    // The chained IFD is a normal raster IFD.
    put_u16(&mut bytes, 32, 1);
    put_u16(&mut bytes, 34, 256);
    put_u16(&mut bytes, 36, 3);
    put_u32(&mut bytes, 38, 1);
    put_u16(&mut bytes, 42, 1);
    put_u32(&mut bytes, 46, 0);

    // The SubIFD identifies the container as a sensor TIFF.
    put_u16(&mut bytes, 56, 1);
    put_u16(&mut bytes, 58, 33421);
    put_u16(&mut bytes, 60, 3);
    put_u32(&mut bytes, 62, 1);
    put_u16(&mut bytes, 66, 1);
    put_u32(&mut bytes, 70, 0);
    bytes
}

fn big_tiff_with_sensor_ifd() -> Vec<u8> {
    let mut bytes = vec![0; 64];
    bytes[0..2].copy_from_slice(b"II");
    put_u16(&mut bytes, 2, 43);
    put_u16(&mut bytes, 4, 8);
    put_u16(&mut bytes, 6, 0);
    bytes[8..16].copy_from_slice(&16u64.to_le_bytes());
    bytes[16..24].copy_from_slice(&1u64.to_le_bytes());
    put_u16(&mut bytes, 24, 33422);
    put_u16(&mut bytes, 26, 3);
    bytes[28..36].copy_from_slice(&1u64.to_le_bytes());
    bytes[36..44].copy_from_slice(&1u64.to_le_bytes());
    bytes[44..52].copy_from_slice(&0u64.to_le_bytes());
    bytes
}

fn single_entry_tiff(tag: u16, field_type: u16, count: u32, value: u32) -> Vec<u8> {
    let mut bytes = Vec::new();
    bytes.extend_from_slice(b"II");
    bytes.extend_from_slice(&42u16.to_le_bytes());
    bytes.extend_from_slice(&8u32.to_le_bytes());
    bytes.extend_from_slice(&1u16.to_le_bytes());
    bytes.extend_from_slice(&tag.to_le_bytes());
    bytes.extend_from_slice(&field_type.to_le_bytes());
    bytes.extend_from_slice(&count.to_le_bytes());
    bytes.extend_from_slice(&value.to_le_bytes());
    bytes.extend_from_slice(&0u32.to_le_bytes());
    bytes
}

#[test]
fn cfa_photometric_tiff_routes_to_sensor_loader() {
    let mut bytes = Vec::new();
    bytes.extend_from_slice(b"II");
    bytes.extend_from_slice(&42u16.to_le_bytes());
    bytes.extend_from_slice(&8u32.to_le_bytes());
    bytes.extend_from_slice(&1u16.to_le_bytes());
    bytes.extend_from_slice(&262u16.to_le_bytes());
    bytes.extend_from_slice(&3u16.to_le_bytes());
    bytes.extend_from_slice(&1u32.to_le_bytes());
    bytes.extend_from_slice(&32803u16.to_le_bytes());
    bytes.extend_from_slice(&0u16.to_le_bytes());
    bytes.extend_from_slice(&0u32.to_le_bytes());
    assert_eq!(inspect_tiff_container(&bytes).unwrap(), TiffContainerKind::Sensor);
}

#[test]
fn inspect_walks_chained_and_sub_ifds_before_returning_sensor_kind() {
    assert_eq!(
        inspect_tiff_container(&classic_ifd_chain_with_subifd()).unwrap(),
        TiffContainerKind::Sensor
    );
}

#[test]
fn inspect_supports_bigtiff_ifd_entries() {
    assert_eq!(
        inspect_tiff_container(&big_tiff_with_sensor_ifd()).unwrap(),
        TiffContainerKind::Sensor
    );
}

#[test]
fn inspect_rejects_ifd_offsets_outside_the_file() {
    let mut bytes = vec![0; 32];
    bytes[0..2].copy_from_slice(b"II");
    put_u16(&mut bytes, 2, 42);
    put_u32(&mut bytes, 4, 4096);
    let error = inspect_tiff_container(&bytes).unwrap_err();
    assert_eq!(error, TiffError::IfdOffsetOutsideFile);
    assert!(error.message().contains("IFD offset is outside the file"), "{}", error.message());
}

#[test]
fn rendered_rgb_with_copied_color_matrix_metadata_stays_on_raster_path() {
    let mut bytes = Vec::new();
    bytes.extend_from_slice(b"II");
    bytes.extend_from_slice(&42u16.to_le_bytes());
    bytes.extend_from_slice(&8u32.to_le_bytes());
    bytes.extend_from_slice(&3u16.to_le_bytes());

    bytes.extend_from_slice(&262u16.to_le_bytes());
    bytes.extend_from_slice(&3u16.to_le_bytes());
    bytes.extend_from_slice(&1u32.to_le_bytes());
    bytes.extend_from_slice(&2u16.to_le_bytes());
    bytes.extend_from_slice(&0u16.to_le_bytes());

    bytes.extend_from_slice(&50706u16.to_le_bytes());
    bytes.extend_from_slice(&1u16.to_le_bytes());
    bytes.extend_from_slice(&4u32.to_le_bytes());
    bytes.extend_from_slice(&[1, 6, 0, 0]);

    bytes.extend_from_slice(&50721u16.to_le_bytes());
    bytes.extend_from_slice(&1u16.to_le_bytes());
    bytes.extend_from_slice(&1u32.to_le_bytes());
    bytes.extend_from_slice(&0u32.to_le_bytes());
    bytes.extend_from_slice(&0u32.to_le_bytes());

    assert_eq!(inspect_tiff_container(&bytes).unwrap(), TiffContainerKind::Raster);
}

#[test]
fn icc_payload_is_trimmed_to_its_declared_profile_size() {
    let mut bytes = vec![0u8; 148];
    bytes[0..4].copy_from_slice(&132u32.to_be_bytes());
    bytes[36..40].copy_from_slice(b"acsp");
    let normalized = normalize_icc_profile(bytes).unwrap();
    assert_eq!(normalized.len(), 132);
}

#[test]
fn icc_payload_rejects_a_declared_size_beyond_the_tag() {
    let mut bytes = vec![0u8; 132];
    bytes[0..4].copy_from_slice(&4096u32.to_be_bytes());
    bytes[36..40].copy_from_slice(b"acsp");
    assert!(normalize_icc_profile(bytes).is_err());
}

#[test]
fn reads_embedded_icc_profile_tag() {
    let mut icc = vec![0u8; 132];
    icc[0..4].copy_from_slice(&132u32.to_be_bytes());
    icc[8] = 4;
    icc[12..16].copy_from_slice(b"spac");
    icc[16..20].copy_from_slice(b"RGB ");
    icc[20..24].copy_from_slice(b"XYZ ");
    icc[36..40].copy_from_slice(b"acsp");

    let payload_offset = 8 + 2 + 12 + 4;
    let mut bytes = Vec::new();
    bytes.extend_from_slice(b"II");
    bytes.extend_from_slice(&42u16.to_le_bytes());
    bytes.extend_from_slice(&8u32.to_le_bytes());
    bytes.extend_from_slice(&1u16.to_le_bytes());
    bytes.extend_from_slice(&34675u16.to_le_bytes());
    bytes.extend_from_slice(&7u16.to_le_bytes());
    bytes.extend_from_slice(&(icc.len() as u32).to_le_bytes());
    bytes.extend_from_slice(&(payload_offset as u32).to_le_bytes());
    bytes.extend_from_slice(&0u32.to_le_bytes());
    bytes.extend_from_slice(&icc);

    assert_eq!(read_embedded_icc_profile(&bytes).unwrap(), Some(icc));
}

#[test]
fn tiff_without_icc_tag_has_no_profile() {
    let bytes = single_entry_tiff(256, 3, 1, 1);
    assert_eq!(read_embedded_icc_profile(&bytes).unwrap(), None);
}

#[test]
fn icc_tag_with_wrong_field_type_is_refused() {
    let bytes = single_entry_tiff(34675, 3, 132, 26);
    assert_eq!(read_embedded_icc_profile(&bytes), Err(TiffError::IccFieldType(3)));
}

#[test]
fn icc_tag_with_small_count_is_refused() {
    let bytes = single_entry_tiff(34675, 7, 100, 26);
    assert_eq!(read_embedded_icc_profile(&bytes), Err(TiffError::IccInvalidSize));
}

#[test]
fn icc_tag_past_the_end_is_refused() {
    let bytes = single_entry_tiff(34675, 7, 200, 26);
    assert_eq!(read_embedded_icc_profile(&bytes), Err(TiffError::IccOutsideFile));
}

#[test]
fn icc_payload_without_signature_is_refused() {
    let bytes = vec![0u8; 140];
    assert_eq!(normalize_icc_profile(bytes), Err(TiffError::IccInvalidHeader));
}

#[test]
fn icc_normalisation_is_idempotent() {
    let mut bytes = vec![7u8; 200];
    bytes[0..4].copy_from_slice(&150u32.to_be_bytes());
    bytes[36..40].copy_from_slice(b"acsp");
    let once = normalize_icc_profile(bytes).unwrap();
    let twice = normalize_icc_profile(once.clone()).unwrap();
    assert_eq!(once.len(), 150);
    assert_eq!(once, twice);
}

#[test]
fn header_errors_are_reported() {
    assert_eq!(inspect_tiff_container(b"II*"), Err(TiffError::TruncatedHeader));
    assert_eq!(inspect_tiff_container(b"XX*\0\x08\0\0\0"), Err(TiffError::NotTiff));
    assert_eq!(inspect_tiff_container(b"II\x07\0\x08\0\0\0"), Err(TiffError::InvalidMagic));
    let mut big = vec![0u8; 16];
    big[0..2].copy_from_slice(b"II");
    put_u16(&mut big, 2, 43);
    put_u16(&mut big, 4, 4);
    assert_eq!(inspect_tiff_container(&big), Err(TiffError::UnsupportedBigTiffHeader));
}

#[test]
fn big_endian_header_is_read() {
    let mut bytes = vec![0u8; 26];
    bytes[0..2].copy_from_slice(b"MM");
    bytes[2..4].copy_from_slice(&42u16.to_be_bytes());
    bytes[4..8].copy_from_slice(&8u32.to_be_bytes());
    bytes[8..10].copy_from_slice(&1u16.to_be_bytes());
    bytes[10..12].copy_from_slice(&33422u16.to_be_bytes());
    bytes[12..14].copy_from_slice(&1u16.to_be_bytes());
    assert_eq!(inspect_tiff_container(&bytes).unwrap(), TiffContainerKind::Sensor);
}

#[test]
fn ifd_entries_past_the_end_are_refused() {
    let mut bytes = vec![0u8; 16];
    bytes[0..2].copy_from_slice(b"II");
    put_u16(&mut bytes, 2, 42);
    put_u32(&mut bytes, 4, 8);
    put_u16(&mut bytes, 8, 5);
    assert_eq!(inspect_tiff_container(&bytes), Err(TiffError::IfdOutsideFile));
}

#[test]
fn ifd_with_too_many_entries_is_refused() {
    let mut bytes = vec![0u8; 16];
    bytes[0..2].copy_from_slice(b"II");
    put_u16(&mut bytes, 2, 42);
    put_u32(&mut bytes, 4, 8);
    put_u16(&mut bytes, 8, 5000);
    assert_eq!(inspect_tiff_container(&bytes), Err(TiffError::TooManyIfdEntries));
}

#[test]
fn ifd_cycles_are_walked_once() {
    // The only IFD links back to itself.
    let mut bytes = vec![0u8; 32];
    bytes[0..2].copy_from_slice(b"II");
    put_u16(&mut bytes, 2, 42);
    put_u32(&mut bytes, 4, 8);
    put_u16(&mut bytes, 8, 1);
    put_u16(&mut bytes, 10, 256);
    put_u16(&mut bytes, 12, 3);
    put_u32(&mut bytes, 14, 1);
    put_u32(&mut bytes, 22, 8);
    assert_eq!(inspect_tiff_container(&bytes).unwrap(), TiffContainerKind::Raster);
    assert_eq!(walk_tiff_fields(&bytes, TiffQuery::SensorMarker).unwrap(), None);
}

#[test]
fn long_ifd_chains_are_refused() {
    // Forty chained IFDs of one entry each.
    let mut bytes = vec![0u8; 8 + 40 * 18];
    bytes[0..2].copy_from_slice(b"II");
    put_u16(&mut bytes, 2, 42);
    put_u32(&mut bytes, 4, 8);
    for i in 0..40usize {
        let at = 8 + i * 18;
        put_u16(&mut bytes, at, 1);
        put_u16(&mut bytes, at + 2, 256);
        put_u16(&mut bytes, at + 4, 3);
        put_u32(&mut bytes, at + 6, 1);
        let next = if i + 1 < 40 { (at + 18) as u32 } else { 0 };
        put_u32(&mut bytes, at + 14, next);
    }
    assert_eq!(inspect_tiff_container(&bytes), Err(TiffError::TooManyIfds));
}

#[test]
fn tiff_paths_are_recognised_by_extension() {
    assert!(is_tiff_path("/photos/scan.tif"));
    assert!(is_tiff_path("/photos/scan.TIFF"));
    assert!(!is_tiff_path("/photos/scan.dng"));
    assert!(!is_tiff_path("/photos/scan"));
}
