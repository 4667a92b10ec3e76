use ezz::disguise::reveal_scheme1;
use ezz::errors::EzzError;

const L: usize = 0x11F0BD;

const SIG: [u8; 16] = [
    0x00, 0x00, 0x00, 0x18, 0x66, 0x74, 0x79, 0x70, 0x6D, 0x70, 0x34, 0x32, 0x00, 0x00, 0x00,
    0x00,
];

/// The forward disguise: the mask covers the original's start, the
/// covered bytes move to the end reversed, then the 4-byte trailer.
fn disguise(orig: &[u8], mask: &[u8]) -> Vec<u8> {
    assert_eq!(mask.len(), L);
    assert!(orig.len() >= L);
    let mut d = Vec::new();
    d.extend_from_slice(mask);
    d.extend_from_slice(&orig[L..]);
    let mut covered: Vec<u8> = orig[..L].to_vec();
    covered.reverse();
    d.extend_from_slice(&covered);
    d.extend_from_slice(&(L as u32).to_le_bytes());
    d
}

fn sample_mask() -> Vec<u8> {
    let mut mask = vec![0u8; L];
    mask[..16].copy_from_slice(&SIG);
    for (i, b) in mask.iter_mut().enumerate().skip(16) {
        *b = (i % 251) as u8;
    }
    mask
}

#[test]
fn reveal_undoes_the_disguise() {
    let orig: Vec<u8> = (0..L + 1000).map(|i| (i % 253) as u8).collect();
    let disguised = disguise(&orig, &sample_mask());
    let revealed = reveal_scheme1(&disguised).unwrap().unwrap();
    assert_eq!(revealed, orig);
}

#[test]
fn reveal_skips_a_short_file() {
    let r = reveal_scheme1(&vec![0u8; 10]).unwrap();
    assert!(r.is_none());
}

#[test]
fn reveal_skips_a_wrong_signature() {
    let mut d = vec![0u8; 64];
    d[0] = 0xFF;
    let end = d.len();
    d[end - 4..].copy_from_slice(&(L as u32).to_le_bytes());
    assert!(reveal_scheme1(&d).unwrap().is_none());
}

#[test]
fn reveal_skips_a_wrong_trailer() {
    let mut d = vec![0u8; 64];
    d[..16].copy_from_slice(&SIG);
    let end = d.len();
    d[end - 4..].copy_from_slice(&7u32.to_le_bytes());
    assert!(reveal_scheme1(&d).unwrap().is_none());
}

#[test]
fn reveal_reports_io_error_when_trailer_overstates_payload() {
    // The signature and trailer match, but the file cannot hold the
    // payload the trailer claims.
    let mut d = vec![0u8; 20];
    d[..16].copy_from_slice(&SIG);
    d[16..].copy_from_slice(&(L as u32).to_le_bytes());
    assert_eq!(reveal_scheme1(&d).unwrap_err(), EzzError::Io);
}
