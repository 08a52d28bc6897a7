use hidshift::{FIRMWARE_VERSION_MAJOR, FIRMWARE_VERSION_MINOR, FIRMWARE_VERSION_PATCH};

#[test]
fn firmware_version_comes_from_the_package_version() {
    assert_eq!(FIRMWARE_VERSION_MAJOR, 0);
    assert_eq!(FIRMWARE_VERSION_MINOR, 1);
    assert_eq!(FIRMWARE_VERSION_PATCH, 0);
}
