use analisador_pascal::analisador_lexico::{cria_tabela_de_simbolos, match_char};

#[test]
fn tabela_de_simbolos_comeca_vazia() {
    let t = cria_tabela_de_simbolos();
    assert!(t.is_empty());
    assert!(t.capacity() >= 1000);
}

#[test]
fn caracteres_de_controle() {
    assert!(match_char(&'\x01'));
    assert!(match_char(&'\x08'));
    assert!(match_char(&'\u{10FFFE}'));
    assert!(match_char(&'\u{10FFFF}'));
    assert!(!match_char(&'\x00'));
    assert!(!match_char(&'\x09'));
    assert!(!match_char(&'a'));
    assert!(!match_char(&'\u{10FFFD}'));
}
