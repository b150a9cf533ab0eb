use diamond::vformat::{int_to_decimal, mrb_format, mrb_vformat, FormatArg, FormatError, Rendered};

fn chars(s: &[u8]) -> FormatArg {
    FormatArg::Chars(Rendered { to_s: s.to_vec(), inspected: s.to_vec() })
}

fn value(to_s: &[u8], inspected: &[u8], class: &[u8], special: bool) -> FormatArg {
    FormatArg::Value {
        obj: Rendered { to_s: to_s.to_vec(), inspected: inspected.to_vec() },
        class: Rendered { to_s: class.to_vec(), inspected: class.to_vec() },
        real_class: Rendered { to_s: class.to_vec(), inspected: class.to_vec() },
        special,
    }
}

#[test]
fn decimal_text() {
    assert_eq!(int_to_decimal(0), b"0".to_vec());
    assert_eq!(int_to_decimal(42), b"42".to_vec());
    assert_eq!(int_to_decimal(-7), b"-7".to_vec());
    assert_eq!(int_to_decimal(i64::MIN), b"-9223372036854775808".to_vec());
}

#[test]
fn integers_and_strings() {
    let args = vec![FormatArg::Int(-12), chars(b"xyz")];
    assert_eq!(mrb_vformat(b"a%db%s!", &args), Ok(b"a-12bxyz!".to_vec()));
    assert_eq!(mrb_vformat(b"no directives", &vec![]), Ok(b"no directives".to_vec()));
}

#[test]
fn objects_use_to_s_or_inspect() {
    let args = vec![value(b"hi", b"\"hi\"", b"String", false)];
    assert_eq!(mrb_vformat(b"<%v>", &args), Ok(b"<hi>".to_vec()));
    assert_eq!(mrb_vformat(b"<%!v>", &args), Ok(b"<\"hi\">".to_vec()));
    assert_eq!(mrb_vformat(b"%t", &args), Ok(b"String".to_vec()));
    assert_eq!(mrb_vformat(b"%Y", &args), Ok(b"String".to_vec()));
    let special = vec![value(b"", b"nil", b"NilClass", true)];
    assert_eq!(mrb_vformat(b"%Y", &special), Ok(b"nil".to_vec()));
}

#[test]
fn percent_and_escapes() {
    assert_eq!(mrb_vformat(b"100%%", &vec![]), Ok(b"100%".to_vec()));
    assert_eq!(mrb_vformat(b"%!%", &vec![]), Ok(b"\"%\"".to_vec()));
    assert_eq!(mrb_vformat(b"a\\%d", &vec![]), Ok(b"a%d".to_vec()));
    assert_eq!(mrb_vformat(b"trailing %", &vec![]), Ok(b"trailing %".to_vec()));
}

#[test]
fn unknown_specifier_is_malformed() {
    assert_eq!(mrb_vformat(b"%q", &vec![]), Err(FormatError::Malformed(b'q')));
    assert_eq!(mrb_format(b"x%!z", &vec![]), Err(FormatError::Malformed(b'z')));
}

#[test]
fn format_is_vformat() {
    let args = vec![FormatArg::Int(3), FormatArg::Int(4)];
    assert_eq!(mrb_format(b"%d+%i", &args), mrb_vformat(b"%d+%i", &args));
    assert_eq!(mrb_format(b"%d+%i", &args), Ok(b"3+4".to_vec()));
}

#[test]
fn c_strings_stop_at_nul_and_spans_take_their_length() {
    let args = vec![
        FormatArg::CStr { bytes: b"ab\0zz".to_vec(), inspected: b"\"ab\"".to_vec() },
        FormatArg::Span { bytes: b"cdef".to_vec(), len: 2, inspected: b"\"cd\"".to_vec() },
    ];
    assert_eq!(mrb_vformat(b"%s/%l", &args), Ok(b"ab/cd".to_vec()));
    assert_eq!(mrb_vformat(b"%!s %!l", &args), Ok(b"\"ab\" \"cd\"".to_vec()));
    let whole = vec![FormatArg::CStr { bytes: b"xyz".to_vec(), inspected: Vec::new() }];
    assert_eq!(mrb_vformat(b"[%s]", &whole), Ok(b"[xyz]".to_vec()));
}
