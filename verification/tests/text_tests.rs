use ezz::cli::Action;
use ezz::cli::Args;
use ezz::errors::EzzError;
use ezz::text::parse_u32;
use ezz::text::u32_to_string;
use ezz::text::u32_to_string_pad2;
use ezz::text::u32_to_string_pad3;

#[test]
fn parse_u32_accepts_plain_decimals() {
    assert_eq!(parse_u32("0"), Some(0));
    assert_eq!(parse_u32("42"), Some(42));
    assert_eq!(parse_u32("007"), Some(7));
    assert_eq!(parse_u32("4294967295"), Some(u32::MAX));
}

#[test]
fn parse_u32_rejects_junk_and_overflow() {
    assert_eq!(parse_u32(""), None);
    assert_eq!(parse_u32("12a"), None);
    assert_eq!(parse_u32("-1"), None);
    assert_eq!(parse_u32(" 1"), None);
    assert_eq!(parse_u32("4294967296"), None);
    assert_eq!(parse_u32("99999999999999999999"), None);
}

#[test]
fn formatting_numbers() {
    assert_eq!(u32_to_string(0), "0");
    assert_eq!(u32_to_string(1175741), "1175741");
    assert_eq!(u32_to_string_pad3(7), "007");
    assert_eq!(u32_to_string_pad3(42), "042");
    assert_eq!(u32_to_string_pad3(421), "421");
    assert_eq!(u32_to_string_pad3(1421), "1421");
    assert_eq!(u32_to_string_pad2(3), "03");
    assert_eq!(u32_to_string_pad2(30), "30");
}

#[test]
fn extract_request_uses_subcommand_or_bare_path() {
    let a = Args {
        action: Some(Action::Extract {
            archive: "a.zip".to_string(),
            pwd: Some("p".to_string()),
            db: None,
        }),
        archive: None,
    };
    let (path, pwd, db) = a.extract_request().unwrap().unwrap();
    assert_eq!(path, "a.zip");
    assert_eq!(pwd.as_deref(), Some("p"));
    assert!(db.is_none());

    let bare = Args { action: None, archive: Some("b.7z".to_string()) };
    let (path, pwd, db) = bare.extract_request().unwrap().unwrap();
    assert_eq!(path, "b.7z");
    assert!(pwd.is_none() && db.is_none());

    let none = Args { action: None, archive: None };
    assert_eq!(none.extract_request().unwrap().unwrap_err(), EzzError::PathError);

    let add = Args {
        action: Some(Action::Add { pwd: "p".to_string(), db: None }),
        archive: None,
    };
    assert!(add.extract_request().is_none());
}
