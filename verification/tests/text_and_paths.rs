use mactranscribe::paths::{app_data_dir, join_path, replace_extension, temp_dir};
use mactranscribe::text::{chars_of, is_white_space, push_decimal, push_padded_decimal, push_signed_decimal, str_equal, trim};

#[test]
fn decimal_rendering() {
    let mut s = String::new();
    push_decimal(&mut s, 0);
    assert_eq!(s, "0");
    let mut s = String::from("n=");
    push_decimal(&mut s, 18446744073709551615);
    assert_eq!(s, "n=18446744073709551615");
    let mut s = String::new();
    push_padded_decimal(&mut s, 7, 3);
    assert_eq!(s, "007");
    let mut s = String::new();
    push_padded_decimal(&mut s, 12345, 2);
    assert_eq!(s, "12345");
    let mut s = String::new();
    push_signed_decimal(&mut s, -1);
    assert_eq!(s, "-1");
    let mut s = String::new();
    push_signed_decimal(&mut s, i32::MIN);
    assert_eq!(s, "-2147483648");
    let mut s = String::new();
    push_signed_decimal(&mut s, 255);
    assert_eq!(s, "255");
}

#[test]
fn trimming_follows_str_trim() {
    assert_eq!(trim("  hello world \n"), "hello world");
    assert_eq!(trim("\t\r\n"), "");
    assert_eq!(trim(""), "");
    assert_eq!(trim("\u{a0}x\u{3000}"), "x");
    assert_eq!(trim("a b"), "a b");
    for s in ["  ", " é ", "x\u{2028}", "\u{85}y z\u{200a}"] {
        assert_eq!(trim(s), s.trim());
    }
}

#[test]
fn chars_and_equality() {
    assert_eq!(chars_of("héllo"), vec!['h', 'é', 'l', 'l', 'o']);
    assert!(str_equal("tokens", "tokens"));
    assert!(!str_equal("tokens", "token"));
    assert!(!str_equal("abc", "abd"));
    assert!(str_equal("", ""));
}

#[test]
fn joining_paths() {
    assert_eq!(join_path("/data", "models"), "/data/models");
    assert_eq!(join_path("/data/", "models"), "/data/models");
    assert_eq!(join_path("", "models"), "models");
    assert_eq!(join_path("/data", "/etc"), "/etc");
    for (b, s) in [("/a/b", "c.txt"), ("rel", "x"), ("/", "y"), ("a", "")] {
        let expected = std::path::Path::new(b).join(s);
        assert_eq!(join_path(b, s), expected.to_str().unwrap());
    }
}

#[test]
fn replacing_extensions() {
    assert_eq!(replace_extension("encoder-model.onnx", "part"), "encoder-model.part");
    assert_eq!(replace_extension("encoder-model.onnx.data", "part"), "encoder-model.onnx.part");
    assert_eq!(replace_extension("vocab.txt", "part"), "vocab.part");
    assert_eq!(replace_extension("noext", "part"), "noext.part");
    assert_eq!(replace_extension(".hidden", "part"), ".hidden.part");
    for name in ["decoder_joint-model.onnx", "a.b.c", "x."] {
        let expected = std::path::Path::new(name).with_extension("part");
        assert_eq!(replace_extension(name, "part"), expected.to_str().unwrap());
    }
}

#[test]
fn application_directories() {
    assert_eq!(app_data_dir(None), "./com.mactranscribe.app");
    assert_eq!(
        app_data_dir(Some("/home/u/.local/share")),
        "/home/u/.local/share/com.mactranscribe.app"
    );
    assert_eq!(temp_dir("/d/com.mactranscribe.app"), "/d/com.mactranscribe.app/temp");
}

#[test]
fn white_space_is_char_is_whitespace() {
    for c in (0u32..=0x10ffff).filter_map(char::from_u32) {
        assert_eq!(is_white_space(c), c.is_whitespace(), "{:?}", c);
    }
}
