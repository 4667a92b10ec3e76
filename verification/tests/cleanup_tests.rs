use ezz::archive::Archive;
use ezz::cleanup::next_volume_path;
use ezz::cleanup::plan_flatten;
use ezz::cleanup::FlattenPlan;
use ezz::errors::EzzError;

#[test]
fn numbered_volume_sequence() {
    // Deleting the siblings of archive.7z.001 probes .002, .003, .004 in
    // turn; the caller stops at the first name that is not on disk.
    let a = Archive::new("d/archive.7z.001".to_string(), false);
    assert_eq!(next_volume_path(&a, 2).unwrap(), "d/archive.7z.002");
    assert_eq!(next_volume_path(&a, 3).unwrap(), "d/archive.7z.003");
    assert_eq!(next_volume_path(&a, 4).unwrap(), "d/archive.7z.004");
    assert_eq!(next_volume_path(&a, 10).unwrap(), "d/archive.7z.010");
    assert_eq!(next_volume_path(&a, 123).unwrap(), "d/archive.7z.123");
}

#[test]
fn rar_volume_sequence() {
    let a = Archive::new("d/name.part1.rar".to_string(), false);
    assert_eq!(next_volume_path(&a, 2).unwrap(), "d/name.part2.rar");
    assert_eq!(next_volume_path(&a, 11).unwrap(), "d/name.part11.rar");
}

#[test]
fn zip_volume_sequence() {
    let a = Archive::new("d/a.zip".to_string(), true);
    assert_eq!(next_volume_path(&a, 2).unwrap(), "d/a.z01");
    assert_eq!(next_volume_path(&a, 3).unwrap(), "d/a.z02");
    assert_eq!(next_volume_path(&a, 11).unwrap(), "d/a.z10");
}

#[test]
fn single_archive_has_no_siblings() {
    let a = Archive::new("d/a.7z".to_string(), false);
    assert!(next_volume_path(&a, 2).is_none());
}

#[test]
fn flatten_single_file_moves_to_parent() {
    // out/report holds exactly report.txt: the file is hoisted beside
    // the directory, and the now-empty directory is removed.
    let entries = vec!["report.txt".to_string()];
    let plan = plan_flatten("out/report", &entries, false, false).unwrap();
    match plan {
        FlattenPlan::Direct { target, name } => {
            assert_eq!(target, "out/report.txt");
            assert_eq!(name, "report.txt");
        }
        _ => panic!("expected the direct move"),
    }
}

#[test]
fn flatten_collision_with_directory_goes_via_temp() {
    // The single entry's target slot is occupied by a directory (the
    // output directory itself, typically): the entry moves through the
    // temporary name, and the plan ends by renaming the temporary into
    // the directory's slot, so no temporary is left behind.
    let entries = vec!["a.zip".to_string()];
    let plan = plan_flatten("out/a.zip", &entries, true, true).unwrap();
    match plan {
        FlattenPlan::ViaTemp { temp, name } => {
            assert_eq!(temp, "out/a.tmp");
            assert_eq!(name, "a.zip");
        }
        _ => panic!("expected the temporary-rename path"),
    }
}

#[test]
fn flatten_collision_with_file_is_a_conflict() {
    let entries = vec!["inner.zip".to_string()];
    let r = plan_flatten("out/dir", &entries, true, false);
    match r {
        Err(e) => assert_eq!(e, EzzError::PathError),
        Ok(_) => panic!("expected a path conflict"),
    }
}

#[test]
fn flatten_keeps_directory_with_many_entries() {
    let entries = vec!["a".to_string(), "b".to_string()];
    let plan = plan_flatten("out/dir", &entries, false, false).unwrap();
    match plan {
        FlattenPlan::Keep { name } => assert_eq!(name, "dir"),
        _ => panic!("expected no flattening"),
    }
}

#[test]
fn flatten_keeps_empty_directory() {
    let entries: Vec<String> = vec![];
    let plan = plan_flatten("out/dir", &entries, false, false).unwrap();
    assert!(matches!(plan, FlattenPlan::Keep { .. }));
}
