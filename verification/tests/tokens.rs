use analisador_pascal::tokens::{Token, Tokens};

#[test]
fn token_vazio() {
    let t = Token::new();
    assert_eq!(t.tok, "");
    assert_eq!(t.tipo, Tokens::Comentario);
    assert_eq!(t.lin, 0);
    assert_eq!(t.col, 0);
}

#[test]
fn copia_do_token() {
    let t = Token { tok: "x".to_string(), tipo: Tokens::Identificador, lin: 4, col: 0 };
    assert_eq!(t.copia(), t);
}

#[test]
fn nomes_dos_tipos_de_token() {
    assert_eq!(Tokens::And.nome(), "And");
    assert_eq!(Tokens::Program.nome(), "Program");
    assert_eq!(Tokens::ReservadaSet.nome(), "Set");
    assert_eq!(Tokens::ReservadaString.nome(), "String");
    assert_eq!(Tokens::Identificador.nome(), "Identificador");
    assert_eq!(Tokens::Numero.nome(), "Numero");
    assert_eq!(Tokens::Atribuicao.nome(), ":=");
    assert_eq!(Tokens::Apostrofo.nome(), "'");
    assert_eq!(Tokens::Aspas.nome(), "\"");
    assert_eq!(Tokens::Diferente.nome(), "<>");
    assert_eq!(Tokens::MaiorIgual.nome(), ">=");
    assert_eq!(Tokens::FatorEscala.nome(), "E ou e");
    assert_eq!(Tokens::Comentario.nome(), "");
}
