use apfs_fastindex::extent_ref::ExtentRefStorage;
use apfs_fastindex::object::ExpectedStorage;
use apfs_fastindex::ScanError;

#[test]
fn storage_class_decodes_physical_and_virtual() {
    assert_eq!(ExtentRefStorage::from_type_raw(0x4000_0002).unwrap(), ExtentRefStorage::Physical);
    assert_eq!(ExtentRefStorage::from_type_raw(0x0000_0002).unwrap(), ExtentRefStorage::Virtual);
}

#[test]
fn storage_class_rejects_ephemeral_or_unknown() {
    assert!(ExtentRefStorage::from_type_raw(0x8000_0002).is_err());
    assert!(ExtentRefStorage::from_type_raw(0x1234_0002).is_err());
}

#[test]
fn storage_class_refusal_names_the_class() {
    let err = ExtentRefStorage::from_type_raw(0x8000_0002).unwrap_err();
    assert!(matches!(
        err,
        ScanError::InvalidObject(ref m)
            if m == "extent-reference tree storage class 0x80 is not supported (expected 0x00 virtual or 0x40 physical)"
    ));
    assert_eq!(ExtentRefStorage::Physical.expected_storage(), ExpectedStorage::Physical);
    assert_eq!(ExtentRefStorage::Virtual.expected_storage(), ExpectedStorage::Virtual);
}
