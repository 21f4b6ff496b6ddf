use titans::args::{set_bitcoin, Args, Instruction};

#[test]
fn default_is_empty() {
    assert!(matches!(Args::default(), Args::Empty));
}

#[test]
fn text_of_each_variant() {
    assert_eq!(Args::Byte(b"hi".to_vec()).to_string(), "hi");
    assert_eq!(Args::Bit("é!".as_bytes()).to_string(), "é!");
    assert_eq!(Args::String(String::from("s")).to_string(), "s");
    assert_eq!(Args::Str("\"Backs\"").to_string(), "\"Backs\"");
    assert_eq!(Args::Empty.to_string(), "");
}

#[test]
fn bytes_of_each_variant() {
    assert_eq!(&Args::Byte(vec![0, 255]).into_bytes_mut()[..], &[0u8, 255][..]);
    assert_eq!(&Args::Bit(&[7, 8]).into_bytes_mut()[..], &[7u8, 8][..]);
    assert_eq!(&Args::String(String::from("é")).into_bytes_mut()[..], &[0xC3u8, 0xA9][..]);
    assert_eq!(&Args::Str("ok").into_bytes_mut()[..], b"ok");
    assert!(Args::Empty.into_bytes_mut().is_empty());
}

#[test]
fn text_encodes_to_the_bytes() {
    let cases = vec![
        Args::Byte("日本".as_bytes().to_vec()),
        Args::Bit(b"abc"),
        Args::String(String::from("ü")),
        Args::Str("x y"),
        Args::Empty,
    ];
    for a in cases {
        let text = a.to_string();
        let bytes = a.into_bytes_mut();
        assert_eq!(text.as_bytes(), &bytes[..]);
    }
}

#[test]
fn wire_buffer_holds_the_utf8_bytes() {
    let b = set_bitcoin(String::from("{\"a\":\"ä\"}"));
    assert_eq!(&b[..], "{\"a\":\"ä\"}".as_bytes());
    assert!(b.capacity() >= 1024);
}

#[test]
fn instructions_compare() {
    assert_eq!(Instruction::Backs, Instruction::Backs);
    assert_ne!(Instruction::Backs, Instruction::Start);
    assert_ne!(Instruction::Pause, Instruction::Start);
}
