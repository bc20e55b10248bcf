use ttygif::assembler::AnimationAssembler;
use ttygif::coordinator::Frame;
use ttygif::replay::replay;
use ttygif::utf8::validate_utf8;

#[test]
fn encoder_args_for_one_frame() {
    let mut assembler = AnimationAssembler::new();
    assembler.push_frame(Frame { delay: b"0.5".to_vec(), image_path: b"output/img-1.xwd".to_vec() });
    let args = assembler.encoder_args();
    let expected: Vec<Vec<u8>> = vec![
        b"convert".to_vec(),
        b"-delay".to_vec(),
        b"0.5".to_vec(),
        b"output/img-1.xwd".to_vec(),
        b"-layers".to_vec(),
        b"Optimize".to_vec(),
        b"output/output.gif".to_vec(),
    ];
    assert_eq!(args, expected);
}

#[test]
fn encoder_args_keep_display_order() {
    let timing = b"0.5 1\n1.25 1\n2 1\n".to_vec();
    let body = b"abc".to_vec();
    let out = replay(&timing, &body).unwrap();
    let mut assembler = AnimationAssembler::new();
    for f in out.frames {
        assembler.push_frame(f);
    }
    let args = assembler.encoder_args();
    let expected: Vec<Vec<u8>> = vec![
        b"convert".to_vec(),
        b"-delay".to_vec(),
        b"0.5".to_vec(),
        b"output/img-1.xwd".to_vec(),
        b"-delay".to_vec(),
        b"1.25".to_vec(),
        b"output/img-2.xwd".to_vec(),
        b"-layers".to_vec(),
        b"Optimize".to_vec(),
        b"output/output.gif".to_vec(),
    ];
    assert_eq!(args, expected);
}

#[test]
fn encoder_args_without_frames() {
    let assembler = AnimationAssembler::new();
    let args = assembler.encoder_args();
    let expected: Vec<Vec<u8>> = vec![
        b"convert".to_vec(),
        b"-layers".to_vec(),
        b"Optimize".to_vec(),
        b"output/output.gif".to_vec(),
    ];
    assert_eq!(args, expected);
}

#[test]
fn utf8_accepts_well_formed_text() {
    assert!(validate_utf8(&b"hello".to_vec()));
    assert!(validate_utf8(&Vec::new()));
    assert!(validate_utf8(&"héllo ☃".as_bytes().to_vec()));
    assert!(validate_utf8(&"😀".as_bytes().to_vec()));
    assert!(validate_utf8(&vec![0xF0u8, 0x90, 0x80, 0x80]));
}

#[test]
fn utf8_rejects_ill_formed_bytes() {
    // A lone continuation byte, a lone lead byte, an overlong encoding, a
    // surrogate encoding, and a value above 0x10FFFF.
    assert!(!validate_utf8(&vec![0x80u8]));
    assert!(!validate_utf8(&vec![0xC2u8]));
    assert!(!validate_utf8(&vec![0xC0u8, 0x80]));
    assert!(!validate_utf8(&vec![0xEDu8, 0xA0, 0x80]));
    assert!(!validate_utf8(&vec![0xF5u8, 0x80, 0x80, 0x80]));
    assert!(!validate_utf8(&vec![0xFFu8]));
}

#[test]
fn utf8_agrees_with_std_on_samples() {
    let samples: Vec<Vec<u8>> = vec![
        b"plain".to_vec(),
        vec![0xE0, 0x9F, 0x80],
        vec![0xE0, 0xA0, 0x80],
        vec![0xF4, 0x90, 0x80, 0x80],
        vec![0xF4, 0x8F, 0xBF, 0xBF],
        vec![0xC2, 0xA9, 0x64],
        vec![0xE2, 0x82, 0xAC],
        vec![0x61, 0xC2],
    ];
    for s in samples {
        assert_eq!(validate_utf8(&s), std::str::from_utf8(&s).is_ok());
    }
}
