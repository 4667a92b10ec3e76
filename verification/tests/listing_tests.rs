use ezz::listing::find_first_file;

const LISTING: &str = "\
7-Zip (z) 24.07 (x64)\n\
\n\
   Date      Time    Attr         Size   Compressed  Name\n\
------------------- ----- ------------ ------------  ------------------------\n\
2024-01-02 03:04:05 D....            0            0  folder\n\
2024-01-02 03:04:06 ....A       123012       102400  folder/file.txt\n\
2024-01-02 03:04:07 ....A         4096         1024  folder/other.txt\n\
------------------- ----- ------------ ------------  ------------------------\n\
2024-01-02 03:04:05            127108       103424  2 files, 1 folders\n";

#[test]
fn first_real_file_is_found() {
    assert_eq!(find_first_file(true, LISTING), "folder/file.txt");
}

#[test]
fn directories_and_empty_files_are_skipped() {
    let listing = "\
------------------- ----- ------------ ------------  ------------------------\n\
2024-01-02 03:04:05 D....            0            0  folder\n\
2024-01-02 03:04:06 ....A            0            0  folder/empty.txt\n\
2024-01-02 03:04:07 ....A          512          100  folder/real.bin\n\
------------------- ----- ------------ ------------  ------------------------\n";
    assert_eq!(find_first_file(true, listing), "folder/real.bin");
}

#[test]
fn lines_outside_the_fenced_table_are_ignored() {
    let listing = "\
2024-01-02 03:04:06 ....A       123012       102400  not/in/table.txt\n";
    assert_eq!(find_first_file(true, listing), "");
}

#[test]
fn a_failed_listing_yields_the_empty_name() {
    assert_eq!(find_first_file(false, LISTING), "");
}

#[test]
fn a_name_with_spaces_survives() {
    let listing = "\
------------------- ----- ------------ ------------  ------------------------\n\
2024-01-02 03:04:06 ....A         4242         1000  folder/my file name.txt\n\
------------------- ----- ------------ ------------  ------------------------\n";
    assert_eq!(find_first_file(true, listing), "folder/my file name.txt");
}

#[test]
fn missing_compressed_column_still_parses() {
    let listing = "\
------------------- ----- ------------ ------------  ------------------------\n\
2024-01-02 03:04:06 ....A         4242                file.txt\n\
------------------- ----- ------------ ------------  ------------------------\n";
    assert_eq!(find_first_file(true, listing), "file.txt");
}
