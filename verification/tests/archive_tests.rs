use ezz::archive::Archive;
use ezz::archive::VolumeType;

#[test]
fn classify_numbered_volume() {
    let a = Archive::new("dir/archive.7z.001".to_string(), false);
    assert!(matches!(a.get_volume(), VolumeType::Num));
    assert!(!a.is_hidden());
}

#[test]
fn classify_rar_parts() {
    let a = Archive::new("dir/name.part1.rar".to_string(), false);
    assert!(matches!(a.get_volume(), VolumeType::Rar));
}

#[test]
fn classify_plain_rar_is_single() {
    let a = Archive::new("dir/name.rar".to_string(), false);
    assert!(matches!(a.get_volume(), VolumeType::Single));
}

#[test]
fn classify_zip_depends_on_sibling_probe() {
    let with = Archive::new("dir/a.zip".to_string(), true);
    assert!(matches!(with.get_volume(), VolumeType::Zip));
    let without = Archive::new("dir/a.zip".to_string(), false);
    assert!(matches!(without.get_volume(), VolumeType::Single));
}

#[test]
fn classify_stego_extensions_case_insensitive() {
    assert!(Archive::new("f.mp4".to_string(), false).is_hidden());
    assert!(Archive::new("f.MP4".to_string(), false).is_hidden());
    assert!(Archive::new("f.Mkv".to_string(), false).is_hidden());
    assert!(!Archive::new("f.avi".to_string(), false).is_hidden());
    assert!(ezz::archive::is_stego("f.mkv"));
    assert!(!ezz::archive::is_stego("f.zip"));
}

#[test]
fn derive_dir_strips_one_extension_for_single_and_zip() {
    let a = Archive::new("dir/archive.zip".to_string(), false);
    assert_eq!(a.derive_dir(), "dir/archive");
    let z = Archive::new("dir/archive.zip".to_string(), true);
    assert_eq!(z.derive_dir(), "dir/archive");
}

#[test]
fn derive_dir_strips_two_extensions_for_volume_sets() {
    let n = Archive::new("dir/archive.7z.001".to_string(), false);
    assert_eq!(n.derive_dir(), "dir/archive");
    let r = Archive::new("dir/name.part1.rar".to_string(), false);
    assert_eq!(r.derive_dir(), "dir/name");
}

#[test]
fn free_derive_dir_joins_parent_and_stem() {
    assert_eq!(ezz::archive::derive_dir("d/a.zip").unwrap(), "d/a");
    assert_eq!(ezz::archive::derive_dir("a.zip").unwrap(), "a");
    assert!(ezz::archive::derive_dir("").is_err());
}

#[test]
fn path_accessors() {
    let a = Archive::new("dir/sub/name.tar.gz".to_string(), false);
    assert_eq!(a.get_path(), "dir/sub/name.tar.gz");
    assert_eq!(a.get_stem().unwrap(), "name.tar");
    assert_eq!(a.get_extension().unwrap(), "gz");
    assert_eq!(a.get_parent().unwrap(), "dir/sub");
}

#[test]
fn with_name_replaces_the_file_name() {
    let a = Archive::new("dir/hidden.mp4".to_string(), false);
    let b = a.with_name("2.zip", false);
    assert_eq!(b.get_path(), "dir/2.zip");
    assert!(!b.is_hidden());
    assert!(matches!(b.get_volume(), VolumeType::Single));
}

#[test]
fn hidden_file_name_has_no_extension() {
    let a = Archive::new("dir/.config".to_string(), false);
    assert!(a.get_extension().is_err());
    assert_eq!(a.get_stem().unwrap(), ".config");
}
