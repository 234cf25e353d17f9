use crustagent::acf::{AcfFile, ACF_SIGNATURE};
use crustagent::error::Error;

fn wstr(s: &str) -> Vec<u8> {
    // ACF strings: u32 char length + UTF-16LE, no NUL terminator.
    let mut v = Vec::new();
    let units: Vec<u16> = s.encode_utf16().collect();
    v.extend_from_slice(&(units.len() as u32).to_le_bytes());
    for u in &units {
        v.extend_from_slice(&u.to_le_bytes());
    }
    v
}

fn synthetic_payload() -> Vec<u8> {
    let mut payload = Vec::new();
    payload.extend_from_slice(&0u16.to_le_bytes()); // version minor
    payload.extend_from_slice(&2u16.to_le_bytes()); // version major
    payload.extend_from_slice(&1u16.to_le_bytes()); // animation count
    payload.extend_from_slice(&wstr("Wave"));
    payload.extend_from_slice(&wstr("wave.aca"));
    payload.extend_from_slice(&wstr("")); // return name
    payload.extend_from_slice(&0xDEAD_BEEFu32.to_le_bytes()); // checksum
    payload.extend_from_slice(&[0u8; 16]); // guid
    // names: 1 entry
    payload.extend_from_slice(&1u16.to_le_bytes());
    payload.extend_from_slice(&0x0409u16.to_le_bytes());
    payload.extend_from_slice(&wstr("genie")); // -> "Genie"
    payload.extend_from_slice(&wstr(""));
    payload.extend_from_slice(&wstr(""));
    // header tail
    payload.extend_from_slice(&128u16.to_le_bytes()); // width
    payload.extend_from_slice(&96u16.to_le_bytes()); // height
    payload.push(5); // transparency
    payload.extend_from_slice(&0x0010_0000u32.to_le_bytes()); // style = Standard
    payload.extend_from_slice(&2u32.to_le_bytes()); // reserved (0x00000002 in samples)
    // palette: 2 entries
    payload.extend_from_slice(&2u32.to_le_bytes());
    payload.extend_from_slice(&[0, 0, 0, 0]);
    payload.extend_from_slice(&[255, 0, 0, 0]);
    payload.push(0); // no icon
    // states: 1
    payload.extend_from_slice(&1u16.to_le_bytes());
    payload.extend_from_slice(&wstr("SHOWING"));
    payload.extend_from_slice(&1u16.to_le_bytes());
    payload.extend_from_slice(&wstr("SHOW"));
    payload
}

fn framed(sig: u32, payload: &[u8]) -> Vec<u8> {
    let mut file = Vec::new();
    file.extend_from_slice(&sig.to_le_bytes());
    file.extend_from_slice(&(payload.len() as u32).to_le_bytes()); // uncompressed
    file.extend_from_slice(&0u32.to_le_bytes()); // compressed = 0 (raw)
    file.extend_from_slice(payload);
    file
}

#[test]
fn parses_synthetic_acf_header() {
    let payload = synthetic_payload();
    let file = framed(ACF_SIGNATURE, &payload);

    let acf = AcfFile::parse(file).expect("parse acf");
    assert_eq!(acf.header.version_major, 2);
    assert_eq!(acf.header.image_size, (128, 96));
    assert_eq!(acf.header.transparency, 5);
    assert_eq!(acf.header.palette.len(), 2);
    assert!(acf.tts.is_none());
    assert_eq!(acf.default_name().unwrap().name, "Genie");
    assert_eq!(acf.animations.len(), 1);
    assert_eq!(acf.animations[0].name, "Wave");
    assert_eq!(acf.animations[0].file_name, "wave.aca");
    assert_eq!(acf.animations[0].checksum, 0xDEAD_BEEF);
    assert_eq!(acf.states.len(), 1);
    assert_eq!(acf.states[0].name, "SHOWING");
    assert_eq!(acf.states[0].animations, vec!["SHOW".to_string()]);
}

#[test]
fn animation_lookup_ignores_case() {
    let acf = AcfFile::parse(framed(0xABCD_ABC2, &synthetic_payload())).expect("alt signature");
    assert_eq!(acf.animation("WAVE").map(|a| a.file_name.as_str()), Some("wave.aca"));
    assert!(acf.animation("Bow").is_none());
}

#[test]
fn signature_errors() {
    match AcfFile::parse(vec![1, 2]) {
        Err(Error::UnexpectedEof { context, needed, available, .. }) => {
            assert_eq!(context, "signature");
            assert_eq!((needed, available), (4, 2));
        }
        _ => panic!("expected end of file"),
    }
    match AcfFile::parse(vec![1, 2, 3, 4]) {
        Err(Error::BadSignature { found }) => assert_eq!(found, 0x0403_0201),
        _ => panic!("expected a bad signature"),
    }
}

#[test]
fn an_unreadable_compound_document_is_invalid_data() {
    let mut file = vec![0xD0u8, 0xCF, 0x11, 0xE0];
    file.extend_from_slice(&[0u8; 60]);
    assert!(matches!(AcfFile::parse(file), Err(Error::InvalidData(_))));
}

#[test]
fn unknown_versions_and_short_payloads_are_refused() {
    let mut payload = synthetic_payload();
    payload[2] = 9; // major 9
    assert!(matches!(AcfFile::parse(framed(ACF_SIGNATURE, &payload)), Err(Error::InvalidData(_))));
    let short = synthetic_payload()[..20].to_vec();
    assert!(matches!(
        AcfFile::parse(framed(ACF_SIGNATURE, &short)),
        Err(Error::UnexpectedEof { .. })
    ));
}

#[test]
fn compressed_envelopes_need_the_decoder() {
    let mut file = Vec::new();
    file.extend_from_slice(&ACF_SIGNATURE.to_le_bytes());
    file.extend_from_slice(&10u32.to_le_bytes());
    file.extend_from_slice(&3u32.to_le_bytes());
    file.extend_from_slice(&[1, 2, 3]);
    assert!(matches!(AcfFile::parse(file), Err(Error::DecodeFailed { got: 0, expected: 10 })));
}
