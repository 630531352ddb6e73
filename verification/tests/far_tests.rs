use sims_far::{Far, FarError, ManifestEntry};

fn push_u32(v: &mut Vec<u8>, x: u32) {
    v.extend_from_slice(&x.to_le_bytes());
}

/// The archive from the format's reference scenario: a 144-byte file named
/// `test.bmp` stored at offset 16, with the manifest at offset 160.
fn sample_archive() -> Vec<u8> {
    let mut v = Vec::new();
    v.extend_from_slice(b"FAR!byAZ");
    push_u32(&mut v, 1);
    push_u32(&mut v, 160);
    for i in 0..144 {
        v.push((i % 251) as u8);
    }
    push_u32(&mut v, 1);
    push_u32(&mut v, 144);
    push_u32(&mut v, 144);
    push_u32(&mut v, 16);
    push_u32(&mut v, 8);
    v.extend_from_slice(b"test.bmp");
    v
}

/// An archive whose manifest sits right after the header and whose body is
/// empty; each entry is (length1, length2, offset, name bytes).
fn archive_with_entries(signature: &[u8; 8], entries: &[(u32, u32, u32, &[u8])]) -> Vec<u8> {
    let mut v = Vec::new();
    v.extend_from_slice(signature);
    push_u32(&mut v, 1);
    push_u32(&mut v, 16);
    push_u32(&mut v, entries.len() as u32);
    for (l1, l2, off, name) in entries {
        push_u32(&mut v, *l1);
        push_u32(&mut v, *l2);
        push_u32(&mut v, *off);
        push_u32(&mut v, name.len() as u32);
        v.extend_from_slice(name);
    }
    v
}

#[test]
fn test_new() {
    let data = sample_archive();
    let far = Far::new(&data).unwrap();
    assert_eq!(far.signature, "FAR!byAZ");
    assert_eq!(far.version, 1);
    assert_eq!(far.manifest_offset, 160);
    assert_eq!(far.manifest.number_of_files, 1);
    assert_eq!(far.manifest.manifest_entries[0].file_length1, 144);
    assert_eq!(far.manifest.manifest_entries[0].file_length2, 144);
    assert_eq!(far.manifest.manifest_entries[0].file_offset, 16);
    assert_eq!(far.manifest.manifest_entries[0].file_name_length, 8);
    assert_eq!(far.manifest.manifest_entries[0].file_name, "test.bmp");
}

#[test]
fn test_get_bytes() {
    let data = sample_archive();
    let far = Far::new(&data).unwrap();
    assert_eq!(
        far.manifest.manifest_entries[0]
            .get_bytes(&data)
            .expect("bad")
            .len(),
        144
    );
}

#[test]
fn test_get_bytes_returns_body_bytes() {
    let data = sample_archive();
    let far = Far::new(&data).unwrap();
    let bytes = far.manifest.manifest_entries[0].get_bytes(&data).unwrap();
    assert_eq!(bytes.as_slice(), &data[16..160]);
}

#[test]
fn test_get_bytes_twice_identical() {
    let data = sample_archive();
    let far = Far::new(&data).unwrap();
    let first = far.manifest.manifest_entries[0].get_bytes(&data).unwrap();
    let second = far.manifest.manifest_entries[0].get_bytes(&data).unwrap();
    assert_eq!(first, second);
}

#[test]
fn test_get_bytes_out_of_range() {
    let data = sample_archive();
    let entry = ManifestEntry {
        file_length1: 144,
        file_length2: 144,
        file_offset: 100,
        file_name_length: 0,
        file_name: String::new(),
    };
    assert_eq!(entry.get_bytes(&data).unwrap_err(), FarError::FileError);
}

#[test]
fn test_entries_in_order() {
    let data = archive_with_entries(
        b"FAR!byAZ",
        &[
            (1, 1, 16, b"first"),
            (2, 2, 17, b"second"),
            (3, 3, 19, b"third"),
        ],
    );
    let far = Far::new(&data).unwrap();
    assert_eq!(far.manifest.number_of_files, 3);
    assert_eq!(far.manifest.manifest_entries.len(), 3);
    assert_eq!(far.manifest.manifest_entries[0].file_name, "first");
    assert_eq!(far.manifest.manifest_entries[1].file_name, "second");
    assert_eq!(far.manifest.manifest_entries[2].file_name, "third");
    assert_eq!(far.manifest.manifest_entries[2].file_offset, 19);
}

#[test]
fn test_zero_name_length() {
    let data = archive_with_entries(b"FAR!byAZ", &[(4, 4, 16, b""), (5, 5, 20, b"after")]);
    let far = Far::new(&data).unwrap();
    assert_eq!(far.manifest.manifest_entries[0].file_name_length, 0);
    assert_eq!(far.manifest.manifest_entries[0].file_name, "");
    assert_eq!(far.manifest.manifest_entries[1].file_name, "after");
    assert_eq!(far.manifest.manifest_entries[1].file_length1, 5);
}

#[test]
fn test_non_utf8_name() {
    let data = archive_with_entries(b"FAR!byAZ", &[(1, 1, 16, &[0xff, 0xfe])]);
    assert_eq!(Far::new(&data).unwrap_err(), FarError::Utf8Error);
}

#[test]
fn test_multibyte_name_decoded() {
    let name = "\u{3b1}\u{3b2}";
    assert_eq!(name.len(), 4);
    let data = archive_with_entries(b"FAR!byAZ", &[(1, 1, 16, name.as_bytes())]);
    let far = Far::new(&data).unwrap();
    assert_eq!(far.manifest.manifest_entries[0].file_name_length, 4);
    assert_eq!(far.manifest.manifest_entries[0].file_name, "\u{3b1}\u{3b2}");
    assert_eq!(far.manifest.manifest_entries[0].file_name.chars().count(), 2);
}

#[test]
fn test_manifest_offset_beyond_eof() {
    let mut data = Vec::new();
    data.extend_from_slice(b"FAR!byAZ");
    push_u32(&mut data, 1);
    push_u32(&mut data, 10_000);
    assert_eq!(Far::new(&data).unwrap_err(), FarError::FileError);
}

#[test]
fn test_truncated_header() {
    let data = vec![b'F', b'A', b'R', b'!', b'b'];
    assert_eq!(Far::new(&data).unwrap_err(), FarError::FileError);
}

#[test]
fn test_truncated_manifest() {
    let mut data = archive_with_entries(b"FAR!byAZ", &[(1, 1, 16, b"only")]);
    // Claim two entries while storing one: the second record's read falls
    // off the end of the file.
    data[16] = 2;
    assert_eq!(Far::new(&data).unwrap_err(), FarError::FileError);
}

#[test]
fn test_version_little_endian() {
    let mut data = sample_archive();
    data[8] = 0x04;
    data[9] = 0x03;
    data[10] = 0x02;
    data[11] = 0x01;
    let far = Far::new(&data).unwrap();
    assert_eq!(far.version, 0x0102_0304);
}

#[test]
fn test_mismatched_signature_is_kept() {
    let data = archive_with_entries(b"NOTAFAR!", &[(1, 1, 16, b"x")]);
    let far = Far::new(&data).unwrap();
    assert_eq!(far.signature, "NOTAFAR!");
}

#[test]
fn test_non_utf8_signature() {
    let mut data = sample_archive();
    data[0] = 0xff;
    assert_eq!(Far::new(&data).unwrap_err(), FarError::Utf8Error);
}

#[test]
fn test_validate_accepts_expected_header() {
    let data = sample_archive();
    let far = Far::new(&data).unwrap();
    assert!(far.validate().is_ok());
}

#[test]
fn test_validate_rejects_wrong_signature() {
    let data = archive_with_entries(b"NOTAFAR!", &[]);
    let far = Far::new(&data).unwrap();
    assert_eq!(far.validate().unwrap_err(), FarError::UnsupportedFormat);
}

#[test]
fn test_validate_rejects_wrong_version() {
    let mut data = sample_archive();
    data[8] = 2;
    let far = Far::new(&data).unwrap();
    assert_eq!(far.version, 2);
    assert_eq!(far.validate().unwrap_err(), FarError::UnsupportedFormat);
}

#[test]
fn test_empty_archive_has_no_entries() {
    let data = archive_with_entries(b"FAR!byAZ", &[]);
    let far = Far::new(&data).unwrap();
    assert_eq!(far.manifest.number_of_files, 0);
    assert_eq!(far.manifest.manifest_entries.len(), 0);
}
