use ezz::archive::Archive;
use ezz::errors::EzzError;
use ezz::errors::ExitCode;
use ezz::sevenz::decode_7z_output;
use ezz::sevenz::handle_output;
use ezz::sevenz::needs_refresh;
use ezz::sevenz::normalize_stderr;
use ezz::sevenz::Sevenzz;

#[test]
fn normalize_trims_and_joins_lines() {
    let s = "  ERROR: archive.7z  \n\n  Wrong password?\r\n\n".to_string();
    assert_eq!(normalize_stderr(s), "ERROR: archive.7z Wrong password?");
}

#[test]
fn normalize_empty_input() {
    assert_eq!(normalize_stderr(String::new()), "");
    assert_eq!(normalize_stderr("\n\n \n".to_string()), "");
}

#[test]
fn exit_zero_and_warning_succeed() {
    assert!(handle_output(Some(0), String::new()).is_ok());
    assert!(handle_output(Some(1), "some warning".to_string()).is_ok());
}

#[test]
fn fatal_with_marker_is_wrong_password() {
    let stderr = "ERROR: Data Error in encrypted file. Wrong password?\n".to_string();
    assert_eq!(
        handle_output(Some(2), stderr).unwrap_err(),
        EzzError::WrongPassword
    );
}

#[test]
fn fatal_without_marker_is_a_decoder_error() {
    let stderr = "ERROR: Data Error\n".to_string();
    assert_eq!(
        handle_output(Some(2), stderr).unwrap_err(),
        EzzError::Sevenzip(ExitCode::FatalError)
    );
}

#[test]
fn marker_is_matched_on_the_raw_text() {
    // The substring must occur in the diagnostics as printed: a line
    // break inside it is not the recoverable signal.
    let split = "ERROR: Wrong \npassword?\n".to_string();
    assert_eq!(
        handle_output(Some(2), split).unwrap_err(),
        EzzError::Sevenzip(ExitCode::FatalError)
    );
    // On its own line, surrounded by other lines, it still counts.
    let multi = "ERROR: Data Error\n  Wrong password?  \nmore text\n".to_string();
    assert_eq!(
        handle_output(Some(2), multi).unwrap_err(),
        EzzError::WrongPassword
    );
}

#[test]
fn marker_is_case_sensitive() {
    let stderr = "wrong password\n".to_string();
    assert_eq!(
        handle_output(Some(2), stderr).unwrap_err(),
        EzzError::Sevenzip(ExitCode::FatalError)
    );
}

#[test]
fn other_documented_codes_map_to_their_variant() {
    assert_eq!(
        handle_output(Some(7), String::new()).unwrap_err(),
        EzzError::Sevenzip(ExitCode::CmdLineError)
    );
    assert_eq!(
        handle_output(Some(8), String::new()).unwrap_err(),
        EzzError::Sevenzip(ExitCode::NotEnoughMem)
    );
    assert_eq!(
        handle_output(Some(255), String::new()).unwrap_err(),
        EzzError::Sevenzip(ExitCode::UserStopped)
    );
}

#[test]
fn undocumented_code_violates_the_contract() {
    assert_eq!(
        handle_output(Some(3), String::new()).unwrap_err(),
        EzzError::InvalidExitCode
    );
    assert_eq!(
        handle_output(Some(-1), String::new()).unwrap_err(),
        EzzError::InvalidExitCode
    );
}

#[test]
fn killed_process_counts_as_user_stopped() {
    assert_eq!(
        handle_output(None, String::new()).unwrap_err(),
        EzzError::Sevenzip(ExitCode::UserStopped)
    );
}

#[test]
fn from_code_maps_each_documented_value() {
    assert_eq!(ExitCode::from_code(0).unwrap(), ExitCode::NoError);
    assert_eq!(ExitCode::from_code(1).unwrap(), ExitCode::Warning);
    assert_eq!(ExitCode::from_code(2).unwrap(), ExitCode::FatalError);
    assert_eq!(ExitCode::from_code(7).unwrap(), ExitCode::CmdLineError);
    assert_eq!(ExitCode::from_code(8).unwrap(), ExitCode::NotEnoughMem);
    assert_eq!(ExitCode::from_code(255).unwrap(), ExitCode::UserStopped);
    assert_eq!(ExitCode::from_code(9).unwrap_err(), EzzError::InvalidExitCode);
}

#[test]
fn decode_handles_ascii_and_invalid_bytes() {
    assert_eq!(decode_7z_output(b"Wrong password"), "Wrong password");
    assert_eq!(decode_7z_output(&[0xFF, 0x41]), "\u{FFFD}A");
}

#[test]
fn digest_check_tells_equal_from_different() {
    let a = b"embedded decoder bytes".to_vec();
    let b = b"embedded decoder bytes!".to_vec();
    assert!(!needs_refresh(&a, &a));
    assert!(needs_refresh(&a, &b));
}

#[test]
fn test_command_arguments() {
    let zz = Sevenzz::construct("/tmp/7zz".to_string());
    let a = Archive::new("d/a.7z".to_string(), false);
    let args = zz.command_t_args(&a, "secret", "inner.txt");
    assert_eq!(
        args,
        vec![
            "t", "-psecret", "-bso0", "-bsp0", "-sccUTF-8", "-scsUTF-8", "d/a.7z", "inner.txt"
        ]
    );
    let no_inner = zz.command_t_args(&a, "secret", "");
    assert_eq!(no_inner.len(), 7);
}

#[test]
fn extract_command_targets_the_derived_directory() {
    let zz = Sevenzz::construct("/tmp/7zz".to_string());
    let a = Archive::new("d/archive.7z.001".to_string(), false);
    let args = zz.command_x_args(&a, "pw");
    assert_eq!(
        args,
        vec![
            "x",
            "-od/archive",
            "-ppw",
            "-aot",
            "-spe",
            "-bso0",
            "-bsp0",
            "-sccUTF-8",
            "-scsUTF-8",
            "d/archive.7z.001"
        ]
    );
}

#[test]
fn listing_command_arguments() {
    let zz = Sevenzz::construct("/tmp/7zz".to_string());
    let a = Archive::new("d/a.zip".to_string(), false);
    let args = zz.command_l_args(&a);
    assert_eq!(
        args,
        vec!["l", "-p", "-bse0", "-bsp0", "-sccUTF-8", "-scsUTF-8", "d/a.zip"]
    );
}

#[test]
fn demux_command_extracts_beside_the_video() {
    let zz = Sevenzz::construct("/tmp/7zz".to_string());
    let a = Archive::new("d/film.mp4".to_string(), false);
    let args = zz.command_stego_args(&a).unwrap();
    assert_eq!(
        args,
        vec![
            "x", "-od", "-t#", "-aot", "-bso0", "-bsp0", "-sccUTF-8", "-scsUTF-8", "d/film.mp4",
            "2.zip"
        ]
    );
}
