use dcmfree::util::wide_nul;

#[test]
fn wide_nul_is_terminated() {
    let w = wide_nul("hi");
    assert_eq!(w, vec![u16::from(b'h'), u16::from(b'i'), 0]);
}

#[test]
fn wide_nul_empty_string() {
    assert_eq!(wide_nul(""), vec![0]);
}

#[test]
fn wide_nul_unicode() {
    let w = wide_nul("é");
    assert_eq!(w.last(), Some(&0));
    // 'é' is U+00E9, fits in a single UTF-16 code unit.
    assert_eq!(w.len(), 2);
    assert_eq!(w[0], 0x00E9);
}

#[test]
fn wide_nul_matches_std_encoding() {
    for s in ["C:\\ProgramData\\Layers", "a\u{1F600}b", "\u{10FFFF}", "x\u{FFFF}"] {
        let expected: Vec<u16> = s.encode_utf16().chain(Some(0)).collect();
        assert_eq!(wide_nul(s), expected);
    }
}

#[test]
fn wide_nul_surrogate_pair() {
    assert_eq!(wide_nul("\u{1F600}"), vec![0xD83D, 0xDE00, 0]);
}

#[test]
fn wide_string_decodes_back() {
    for s in ["", "C:\\Layers", "d\u{e9}j\u{e0}", "\u{1F600} x \u{10FFFF}"] {
        let w = dcmfree::util::wide_nul(s);
        assert_eq!(w[w.len() - 1], 0);
        assert_eq!(String::from_utf16(&w[..w.len() - 1]).unwrap(), s);
    }
}
