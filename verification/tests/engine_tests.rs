use ezz::engine::Directive;
use ezz::engine::Engine;
use ezz::engine::Event;
use ezz::engine::ExtractionOutcome;
use ezz::errors::EzzError;
use ezz::errors::ExitCode;
use ezz::vault::Record;
use ezz::vault::VaultData;

fn data(records: &[(u32, &str)], cache: &[usize]) -> VaultData {
    VaultData {
        cache: cache.to_vec(),
        records: records
            .iter()
            .map(|(f, p)| Record { freq: *f, pwd: p.to_string() })
            .collect(),
    }
}

fn test_pw(d: &Directive) -> &str {
    match d {
        Directive::Test { pw } => pw,
        _ => panic!("expected a password test"),
    }
}

#[test]
fn explicit_wrong_password_fails_at_once() {
    // An explicit password gets exactly one attempt: the vault is never
    // read or written, and the archive is never deleted.
    let (mut e, d) = Engine::start(false, Some("guess".to_string()), data(&[(5, "a")], &[0]));
    assert!(matches!(d, Directive::List));
    let d = e.step(Event::ListDone { inner: String::new() });
    assert_eq!(test_pw(&d), "guess");
    let d = e.step(Event::TestDone { verdict: Err(EzzError::WrongPassword) });
    match d {
        Directive::Abort { err } => assert_eq!(err, EzzError::WrongPassword),
        _ => panic!("expected the attempt to end"),
    }
    // The vault data is untouched.
    assert_eq!(e.data.records[0].freq, 5);
    assert_eq!(e.data.cache, vec![0]);
}

#[test]
fn explicit_success_skips_the_vault_save() {
    let (mut e, _) = Engine::start(false, Some("pw".to_string()), data(&[], &[]));
    e.step(Event::ListDone { inner: String::new() });
    let d = e.step(Event::TestDone { verdict: Ok(()) });
    assert!(matches!(d, Directive::Extract { .. }));
    let d = e.step(Event::ExtractDone { verdict: Ok(()) });
    assert!(matches!(d, Directive::DeleteArchive));
}

#[test]
fn guided_search_walks_records_and_promotes() {
    // With an empty cache the ranked records are tried in order; the
    // match is promoted and the vault saved before cleanup begins.
    let (mut e, d) = Engine::start(false, None, data(&[(5, "a"), (5, "b"), (2, "c")], &[]));
    assert!(matches!(d, Directive::List));
    let d = e.step(Event::ListDone { inner: "x.txt".to_string() });
    assert_eq!(test_pw(&d), "a");
    let d = e.step(Event::TestDone { verdict: Err(EzzError::WrongPassword) });
    assert_eq!(test_pw(&d), "b");
    let d = e.step(Event::TestDone { verdict: Ok(()) });
    match &d {
        Directive::Extract { pw } => assert_eq!(pw, "b"),
        _ => panic!("expected the extraction"),
    }
    let d = e.step(Event::ExtractDone { verdict: Ok(()) });
    assert!(matches!(d, Directive::SaveVault));
    // The matching record gained a use and overtook its tie.
    let pairs: Vec<(u32, String)> =
        e.data.records.iter().map(|r| (r.freq, r.pwd.clone())).collect();
    assert_eq!(
        pairs,
        vec![(6, "b".to_string()), (5, "a".to_string()), (2, "c".to_string())]
    );
    assert_eq!(e.data.cache, vec![0]);
    let d = e.step(Event::SaveDone { error: None });
    assert!(matches!(d, Directive::DeleteArchive));
    let d = e.step(Event::DeleteDone { error: None });
    assert!(matches!(d, Directive::Flatten));
    let d = e.step(Event::FlattenDone {
        report: Ok(ExtractionOutcome { name: "b.txt".to_string(), count: 1 }),
    });
    match d {
        Directive::Finish { outcome } => {
            assert_eq!(outcome.name, "b.txt");
            assert_eq!(outcome.count, 1);
        }
        _ => panic!("expected the report"),
    }
}

#[test]
fn cache_entries_are_tried_before_the_full_scan() {
    let (mut e, _) = Engine::start(false, None, data(&[(5, "a"), (4, "b"), (3, "c")], &[2, 1]));
    let d = e.step(Event::ListDone { inner: String::new() });
    assert_eq!(test_pw(&d), "c");
    let d = e.step(Event::TestDone { verdict: Err(EzzError::WrongPassword) });
    assert_eq!(test_pw(&d), "b");
    // The cache is exhausted: the full ranked scan starts over at the
    // top, retrying cached entries.
    let d = e.step(Event::TestDone { verdict: Err(EzzError::WrongPassword) });
    assert_eq!(test_pw(&d), "a");
    let d = e.step(Event::TestDone { verdict: Err(EzzError::WrongPassword) });
    assert_eq!(test_pw(&d), "b");
}

#[test]
fn exhausted_vault_asks_the_collaborator_once() {
    let (mut e, _) = Engine::start(false, None, data(&[], &[]));
    let d = e.step(Event::ListDone { inner: String::new() });
    assert!(matches!(d, Directive::Ask));
    let d = e.step(Event::AskDone { password: Some("typed".to_string()) });
    assert_eq!(test_pw(&d), "typed");
    let d = e.step(Event::TestDone { verdict: Ok(()) });
    assert!(matches!(d, Directive::Extract { .. }));
    let d = e.step(Event::ExtractDone { verdict: Ok(()) });
    assert!(matches!(d, Directive::SaveVault));
    // The typed password is appended and promoted to one use.
    assert_eq!(e.data.records.len(), 1);
    assert_eq!(e.data.records[0].freq, 1);
    assert_eq!(e.data.records[0].pwd, "typed");
    assert_eq!(e.data.cache, vec![0]);
}

#[test]
fn declined_prompt_means_no_matched_password() {
    let (mut e, _) = Engine::start(false, None, data(&[], &[]));
    let d = e.step(Event::ListDone { inner: String::new() });
    assert!(matches!(d, Directive::Ask));
    let d = e.step(Event::AskDone { password: None });
    match d {
        Directive::Abort { err } => assert_eq!(err, EzzError::NoMatchedPassword),
        _ => panic!("expected the attempt to end"),
    }
}

#[test]
fn hidden_archive_is_revealed_first() {
    let (mut e, d) = Engine::start(true, None, data(&[], &[]));
    assert!(matches!(d, Directive::Reveal));
    let d = e.step(Event::RevealDone { error: None });
    assert!(matches!(d, Directive::List));
}

#[test]
fn failed_reveal_aborts() {
    let (mut e, _) = Engine::start(true, None, data(&[], &[]));
    let d = e.step(Event::RevealDone { error: Some(EzzError::Io) });
    match d {
        Directive::Abort { err } => assert_eq!(err, EzzError::Io),
        _ => panic!("expected the attempt to end"),
    }
}

#[test]
fn fatal_error_during_search_aborts_the_whole_operation() {
    let (mut e, _) = Engine::start(false, None, data(&[(1, "a"), (1, "b")], &[]));
    e.step(Event::ListDone { inner: String::new() });
    let d = e.step(Event::TestDone {
        verdict: Err(EzzError::Sevenzip(ExitCode::NotEnoughMem)),
    });
    match d {
        Directive::Abort { err } => assert_eq!(err, EzzError::Sevenzip(ExitCode::NotEnoughMem)),
        _ => panic!("expected the attempt to end"),
    }
}

#[test]
fn failed_extraction_removes_the_partial_output_first() {
    let (mut e, _) = Engine::start(false, Some("pw".to_string()), data(&[], &[]));
    e.step(Event::ListDone { inner: String::new() });
    e.step(Event::TestDone { verdict: Ok(()) });
    let d = e.step(Event::ExtractDone {
        verdict: Err(EzzError::Sevenzip(ExitCode::FatalError)),
    });
    assert!(matches!(d, Directive::RemoveDir));
    let d = e.step(Event::RemoveDirDone);
    match d {
        Directive::Abort { err } => assert_eq!(err, EzzError::Sevenzip(ExitCode::FatalError)),
        _ => panic!("expected the attempt to end"),
    }
}
