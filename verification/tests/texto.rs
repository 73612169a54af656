use analisador_pascal::texto::{caracteres, eh_inteiro_i64, mesmo_texto, texto_i32};

#[test]
fn texto_de_inteiros() {
    assert_eq!(texto_i32(0), "0");
    assert_eq!(texto_i32(7), "7");
    assert_eq!(texto_i32(42), "42");
    assert_eq!(texto_i32(-1), "-1");
    assert_eq!(texto_i32(i32::MAX), "2147483647");
    assert_eq!(texto_i32(i32::MIN), "-2147483648");
}

#[test]
fn inteiros_como_i64_os_le() {
    assert!(eh_inteiro_i64("0"));
    assert!(eh_inteiro_i64("123"));
    assert!(eh_inteiro_i64("007"));
    assert!(eh_inteiro_i64("+5"));
    assert!(eh_inteiro_i64("-5"));
    assert!(eh_inteiro_i64("9223372036854775807"));
    assert!(eh_inteiro_i64("-9223372036854775808"));
    assert!(!eh_inteiro_i64("9223372036854775808"));
    assert!(!eh_inteiro_i64("-9223372036854775809"));
    assert!(!eh_inteiro_i64("99999999999999999999999"));
    assert!(!eh_inteiro_i64(""));
    assert!(!eh_inteiro_i64("+"));
    assert!(!eh_inteiro_i64("-"));
    assert!(!eh_inteiro_i64("12a"));
    assert!(!eh_inteiro_i64("1_000"));
    assert!(!eh_inteiro_i64("٣"));
}

#[test]
fn inteiros_como_a_biblioteca_padrao() {
    for s in ["0", "-0", "+12", "1e3", "", " 1", "922337203685477580", "9223372036854775807", "9223372036854775808"] {
        assert_eq!(eh_inteiro_i64(s), s.parse::<i64>().is_ok(), "{}", s);
    }
}

#[test]
fn textos_iguais() {
    assert!(mesmo_texto("begin", "begin"));
    assert!(!mesmo_texto("begin", "Begin"));
    assert!(!mesmo_texto("beg", "begin"));
    assert!(mesmo_texto("", ""));
    assert!(mesmo_texto("ação", "ação"));
}

#[test]
fn caracteres_do_texto() {
    assert_eq!(caracteres("aç:"), vec!['a', 'ç', ':']);
    assert_eq!(caracteres(""), Vec::<char>::new());
}
