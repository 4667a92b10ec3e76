use ezz::vault::Record;
use ezz::vault::Vault;
use ezz::vault::VaultData;

fn data(records: &[(u32, &str)], cache: &[usize]) -> VaultData {
    VaultData {
        cache: cache.to_vec(),
        records: records
            .iter()
            .map(|(f, p)| Record { freq: *f, pwd: p.to_string() })
            .collect(),
    }
}

fn pairs(d: &VaultData) -> Vec<(u32, String)> {
    d.records.iter().map(|r| (r.freq, r.pwd.clone())).collect()
}

#[test]
fn promote_recency_tie_break() {
    // A successful guess of "b" overtakes the equal-frequency "a".
    let mut d = data(&[(5, "a"), (5, "b"), (2, "c")], &[]);
    d.update(1);
    assert_eq!(
        pairs(&d),
        vec![
            (6, "b".to_string()),
            (5, "a".to_string()),
            (2, "c".to_string())
        ]
    );
    assert_eq!(d.cache, vec![0]);
}

#[test]
fn promote_keeps_sorted_and_bumps_by_one() {
    let mut d = data(&[(9, "x"), (4, "y"), (4, "z"), (1, "w")], &[]);
    d.update(2);
    let p = pairs(&d);
    assert_eq!(p[0], (9, "x".to_string()));
    assert_eq!(p[1], (5, "z".to_string()));
    assert_eq!(p[2], (4, "y".to_string()));
    assert_eq!(p[3], (1, "w".to_string()));
    for i in 1..p.len() {
        assert!(p[i - 1].0 >= p[i].0);
    }
}

#[test]
fn promote_last_record_stays_when_lower() {
    let mut d = data(&[(5, "a"), (2, "c")], &[]);
    d.update(1);
    assert_eq!(pairs(&d), vec![(5, "a".to_string()), (3, "c".to_string())]);
    assert_eq!(d.cache, vec![1]);
}

#[test]
fn promote_moves_cached_index_to_front_without_duplicates() {
    let mut d = data(&[(5, "a"), (4, "b"), (3, "c")], &[2, 0, 1]);
    d.update(2);
    // "c" rises to index 1; its index moves to the front and the old
    // entry for 1 is dropped, so no index appears twice.
    assert_eq!(d.cache, vec![1, 2, 0]);
    assert!(d.cache.len() <= 3);
}

#[test]
fn promote_truncates_cache_to_capacity() {
    let mut d = data(&[(9, "a"), (8, "b"), (7, "c"), (1, "d")], &[0, 1, 2]);
    d.update(3);
    assert_eq!(d.cache, vec![3, 0, 1]);
    assert_eq!(d.cache.len(), 3);
}

#[test]
fn parse_reads_cache_and_records() {
    let d = ezz::vault::parse_vault("1 0\n5,alpha\n2,beta\n");
    assert_eq!(d.cache, vec![1, 0]);
    assert_eq!(
        pairs(&d),
        vec![(5, "alpha".to_string()), (2, "beta".to_string())]
    );
}

#[test]
fn parse_skips_invalid_and_duplicate_cache_entries() {
    let d = ezz::vault::parse_vault("7 one 0 0 1\n5,alpha\n2,beta\n");
    // 7 is out of range, "one" unparsable, the second 0 a duplicate,
    // and the trailing 1 lies beyond the three-entry read window.
    assert_eq!(d.cache, vec![0]);
}

#[test]
fn parse_keeps_commas_in_password() {
    let d = ezz::vault::parse_vault("\n3,pa,ss word\n");
    assert_eq!(d.cache, Vec::<usize>::new());
    assert_eq!(pairs(&d), vec![(3, "pa,ss word".to_string())]);
}

#[test]
fn parse_skips_lines_that_are_no_record() {
    let d = ezz::vault::parse_vault("\nnot a record\nx,pw\n7,x\n");
    assert_eq!(pairs(&d), vec![(7, "x".to_string())]);
}

#[test]
fn parse_empty_text_is_empty_vault() {
    let d = ezz::vault::parse_vault("");
    assert_eq!(d.cache, Vec::<usize>::new());
    assert_eq!(d.records.len(), 0);
}

#[test]
fn parse_first_line_is_always_the_cache_line() {
    // A record-shaped first line is still read as the cache line.
    let d = ezz::vault::parse_vault("5,a\n3,b\n");
    assert_eq!(d.cache, Vec::<usize>::new());
    assert_eq!(pairs(&d), vec![(3, "b".to_string())]);
}

#[test]
fn render_writes_cache_line_then_records() {
    let d = data(&[(6, "b"), (5, "a")], &[0]);
    assert_eq!(ezz::vault::render_vault(&d), "0\n6,b\n5,a\n");
}

#[test]
fn render_empty_cache_line() {
    let d = data(&[(5, "a")], &[]);
    assert_eq!(ezz::vault::render_vault(&d), "\n5,a\n");
}

#[test]
fn render_then_parse_round_trips() {
    let d = data(&[(6, "b"), (5, "a l,pha"), (2, "c")], &[1, 0]);
    let text = ezz::vault::render_vault(&d);
    let back = ezz::vault::parse_vault(&text);
    assert_eq!(back.cache, d.cache);
    assert_eq!(pairs(&back), pairs(&d));
}

#[test]
fn add_record_line_appends_a_fresh_record() {
    assert_eq!(ezz::vault::add_record_line("sEcr3t"), "0,sEcr3t\n");
    // Appended to an existing file, it parses back as one more record.
    let text = format!("{}{}", "0\n5,a\n", ezz::vault::add_record_line("b"));
    let d = ezz::vault::parse_vault(&text);
    assert_eq!(d.records.len(), 2);
    assert_eq!(d.records[1].freq, 0);
    assert_eq!(d.records[1].pwd, "b");
}

#[test]
fn vault_handle_keeps_its_path() {
    let v = Vault::new("/home/user/ezz.vault".to_string());
    assert_eq!(v.path(), "/home/user/ezz.vault");
}
