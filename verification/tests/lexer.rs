use analisador_pascal::lexer::{
    analisaLexico, analisa_texto, classifica, eraseToken, getToken, hasToken, lookahead, lookahead_nextline, size,
    reservada, tabelaSimbolos, tipo_lexema, tipo_lexema_minusculas, tratamento, tratamento_checado,
};
use analisador_pascal::tokens::{Token, Tokens};

fn chars(s: &str) -> Vec<char> {
    s.chars().collect()
}

fn linha(ws: &[&str]) -> Vec<String> {
    ws.iter().map(|w| w.to_string()).collect()
}

fn tok(t: &str, tipo: Tokens, lin: i32) -> Token {
    Token { tok: t.to_string(), tipo, lin, col: 0 }
}

fn tipos(v: &[Token]) -> Vec<Tokens> {
    v.iter().map(|t| t.tipo).collect()
}

fn textos(v: &[Token]) -> Vec<String> {
    v.iter().map(|t| t.tok.clone()).collect()
}

#[test]
fn divide_o_texto_em_linhas_de_lexemas() {
    let r = tabelaSimbolos(&chars("program p;\nvar x: integer;"));
    assert_eq!(r, vec![linha(&["program", "p", ";"]), linha(&["var", "x", ":", "integer", ";"])]);
}

#[test]
fn linhas_vazias_sao_descartadas() {
    assert_eq!(tabelaSimbolos(&chars("a\r\n\r\nb")), vec![linha(&["a"]), linha(&["b"])]);
    assert_eq!(tabelaSimbolos(&chars("  \t \n\n")), Vec::<Vec<String>>::new());
    assert_eq!(tabelaSimbolos(&chars("")), Vec::<Vec<String>>::new());
}

#[test]
fn sublinhado_e_letras_acentuadas_ficam_na_palavra() {
    assert_eq!(tabelaSimbolos(&chars("x_1 := 10")), vec![linha(&["x_1", ":", "=", "10"])]);
    assert_eq!(tabelaSimbolos(&chars("ação+b")), vec![linha(&["ação", "+", "b"])]);
}

#[test]
fn os_lexemas_cobrem_o_texto_sem_brancos() {
    let texto = "x := a+b;\n  y\t(z)";
    let r = tabelaSimbolos(&chars(texto));
    let junto: String = r.iter().flatten().map(|s| s.as_str()).collect();
    let sem_brancos: String = texto.chars().filter(|c| !matches!(c, ' ' | '\t' | '\n' | '\r')).collect();
    assert_eq!(junto, sem_brancos);
}

#[test]
fn palavras_reservadas_sem_distincao_de_caixa() {
    assert_eq!(classifica(&"BeGiN".to_string(), 3), tok("BeGiN", Tokens::Begin, 3));
    assert_eq!(tipo_lexema("while"), Some(Tokens::While));
    assert_eq!(tipo_lexema("PROGRAM"), Some(Tokens::Program));
    assert_eq!(tipo_lexema("set"), Some(Tokens::ReservadaSet));
    assert_eq!(tipo_lexema("String"), Some(Tokens::ReservadaString));
    assert_eq!(tipo_lexema("downto"), Some(Tokens::Downto));
}

#[test]
fn numeros_e_fator_de_escala() {
    assert_eq!(tipo_lexema("123"), Some(Tokens::Numero));
    assert_eq!(tipo_lexema("-5"), Some(Tokens::Numero));
    assert_eq!(tipo_lexema("9223372036854775807"), Some(Tokens::Numero));
    assert_eq!(tipo_lexema("9223372036854775808"), Some(Tokens::Identificador));
    assert_eq!(tipo_lexema("e"), Some(Tokens::FatorEscala));
    assert_eq!(tipo_lexema("E"), Some(Tokens::FatorEscala));
}

#[test]
fn simbolos_e_identificadores() {
    assert_eq!(tipo_lexema("("), Some(Tokens::AbreParenteses));
    assert_eq!(tipo_lexema(")"), Some(Tokens::FechaParenteses));
    assert_eq!(tipo_lexema("["), Some(Tokens::AbreColchete));
    assert_eq!(tipo_lexema("]"), Some(Tokens::FechaColchete));
    assert_eq!(tipo_lexema("."), Some(Tokens::Ponto));
    assert_eq!(tipo_lexema(","), Some(Tokens::Virgula));
    assert_eq!(tipo_lexema(";"), Some(Tokens::PontoVirgula));
    assert_eq!(tipo_lexema(":"), Some(Tokens::DoisPontos));
    assert_eq!(tipo_lexema("'"), Some(Tokens::Apostrofo));
    assert_eq!(tipo_lexema("\""), Some(Tokens::Aspas));
    assert_eq!(tipo_lexema("="), Some(Tokens::Igual));
    assert_eq!(tipo_lexema("<"), Some(Tokens::Menor));
    assert_eq!(tipo_lexema(">"), Some(Tokens::Maior));
    assert_eq!(tipo_lexema("+"), Some(Tokens::Mais));
    assert_eq!(tipo_lexema("-"), Some(Tokens::Menos));
    assert_eq!(tipo_lexema("*"), Some(Tokens::Multiplicacao));
    assert_eq!(tipo_lexema("/"), Some(Tokens::Divisao));
    assert_eq!(tipo_lexema("%"), Some(Tokens::Modulo));
    assert_eq!(tipo_lexema("$"), Some(Tokens::Dolar));
    assert_eq!(tipo_lexema("&"), Some(Tokens::EComercial));
    assert_eq!(tipo_lexema("x"), Some(Tokens::Identificador));
    assert_eq!(tipo_lexema("_"), Some(Tokens::Identificador));
    assert_eq!(tipo_lexema("@"), Some(Tokens::Identificador));
    assert_eq!(tipo_lexema(".."), Some(Tokens::Identificador));
}

#[test]
fn analisa_uma_linha() {
    let r = analisaLexico(&linha(&["x", ":", "=", "1"]), 2);
    assert_eq!(
        r,
        vec![
            tok("x", Tokens::Identificador, 2),
            tok(":", Tokens::DoisPontos, 2),
            tok("=", Tokens::Igual, 2),
            tok("1", Tokens::Numero, 2),
        ]
    );
    assert_eq!(analisaLexico(&Vec::new(), 1), Vec::<Token>::new());
}

#[test]
fn tratamento_junta_simbolos_compostos() {
    let r = tratamento(analisaLexico(&linha(&["x", ":", "=", "1"]), 1));
    assert_eq!(r, vec![tok("x", Tokens::Identificador, 1), tok(":=", Tokens::Atribuicao, 1), tok("1", Tokens::Numero, 1)]);
    let r = tratamento(analisaLexico(&linha(&["a", "<", ">", "b"]), 1));
    assert_eq!(textos(&r), vec!["a", "<>", "b"]);
    assert_eq!(r[1].tipo, Tokens::Diferente);
    let r = tratamento(analisaLexico(&linha(&["a", "<", "=", "b"]), 1));
    assert_eq!(textos(&r), vec!["a", "<=", "b"]);
    assert_eq!(r[1].tipo, Tokens::MenorIgual);
    let r = tratamento(analisaLexico(&linha(&[">", "=", "b"]), 1));
    assert_eq!(textos(&r), vec![">=", "b"]);
    assert_eq!(r[0].tipo, Tokens::MaiorIgual);
}

#[test]
fn tratamento_corta_o_comentario() {
    let r = tratamento(analisaLexico(&linha(&["x", "/", "/", "comentario"]), 1));
    assert_eq!(r, vec![tok("x", Tokens::Identificador, 1)]);
    let r = tratamento(analisaLexico(&linha(&["/", "/", "a"]), 1));
    assert!(r.is_empty());
}

#[test]
fn tratamento_junta_numeros_reais() {
    let r = tratamento(analisaLexico(&linha(&["3", ".", "14", ";"]), 4));
    assert_eq!(r, vec![tok("3.14", Tokens::Numero, 4), tok(";", Tokens::PontoVirgula, 4)]);
    let r = tratamento(analisaLexico(&linha(&["3", ".", "14"]), 4));
    assert_eq!(r, vec![tok("3.14", Tokens::Numero, 4)]);
}

#[test]
fn tratamento_do_fator_de_escala() {
    let r = tratamento(analisaLexico(&linha(&["e", "x"]), 1));
    assert_eq!(tipos(&r), vec![Tokens::Identificador, Tokens::Identificador]);
    let r = tratamento(analisaLexico(&linha(&["1", ".", "e", "5"]), 1));
    assert_eq!(tipos(&r), vec![Tokens::Numero, Tokens::Ponto, Tokens::FatorEscala, Tokens::Numero]);
    let r = tratamento(analisaLexico(&linha(&["a", "e", "b"]), 1));
    assert_eq!(tipos(&r), vec![Tokens::Identificador, Tokens::Identificador, Tokens::Identificador]);
    // the last token of a line is not looked at by the first pass
    let r = tratamento(analisaLexico(&linha(&["a", "e"]), 1));
    assert_eq!(tipos(&r), vec![Tokens::Identificador, Tokens::FatorEscala]);
}

#[test]
fn tratamento_de_textos_entre_aspas() {
    let r = tratamento(analisaLexico(&linha(&["'", "begin", "1", "'"]), 1));
    assert_eq!(tipos(&r), vec![Tokens::Apostrofo, Tokens::Identificador, Tokens::Identificador, Tokens::Apostrofo]);
    assert_eq!(textos(&r), vec!["'", "begin", "1", "'"]);
    let r = tratamento(analisaLexico(&linha(&["\"", "x", "'", ";"]), 1));
    assert_eq!(tipos(&r), vec![Tokens::Aspas, Tokens::Identificador, Tokens::Apostrofo, Tokens::PontoVirgula]);
}

#[test]
fn tratamento_checado_recusa_o_que_leria_alem_da_linha() {
    assert_eq!(tratamento_checado(analisaLexico(&linha(&["3", "."]), 1)), None);
    assert_eq!(tratamento_checado(analisaLexico(&linha(&["'", "abc"]), 1)), None);
    assert_eq!(
        tratamento_checado(analisaLexico(&linha(&["x", "'"]), 1)),
        Some(vec![tok("x", Tokens::Identificador, 1), tok("'", Tokens::Apostrofo, 1)])
    );
}

#[test]
fn analisa_o_texto_inteiro() {
    let t = analisa_texto(&chars("program p;\n\n// comentario\nbegin end.")).unwrap();
    assert_eq!(
        t,
        vec![
            vec![tok("program", Tokens::Program, 1), tok("p", Tokens::Identificador, 1), tok(";", Tokens::PontoVirgula, 1)],
            vec![tok("begin", Tokens::Begin, 3), tok("end", Tokens::End, 3), tok(".", Tokens::Ponto, 3)],
        ]
    );
}

#[test]
fn analisa_texto_indica_a_linha_que_falha() {
    assert_eq!(analisa_texto(&chars("x := 3.")), Err(0));
    assert_eq!(analisa_texto(&chars("a;\n\nx := 'abc")), Err(1));
    assert_eq!(analisa_texto(&chars("")), Ok(Vec::new()));
}

#[test]
fn leitura_da_tabela_de_tokens() {
    let mut t = analisa_texto(&chars("a b c\nd")).unwrap();
    assert!(hasToken(&t, 0));
    assert_eq!(size(&t, 0), 3);
    assert_eq!(getToken(&t, 0), tok("a", Tokens::Identificador, 1));
    assert_eq!(lookahead(&t, 0), tok("b", Tokens::Identificador, 1));
    assert_eq!(lookahead_nextline(&t, 0), tok("a", Tokens::Identificador, 1));
    assert_eq!(lookahead(&t, 1), Token::new());
    assert_eq!(lookahead_nextline(&t, 1), Token::new());
    let seguinte = lookahead(&t, 0);
    eraseToken(&mut t, 0);
    assert_eq!(getToken(&t, 0), seguinte);
    assert_eq!(size(&t, 0), 2);
    assert_eq!(t[1], vec![tok("d", Tokens::Identificador, 2)]);
    eraseToken(&mut t, 0);
    eraseToken(&mut t, 0);
    assert!(!hasToken(&t, 0));
    assert!(hasToken(&t, 1));
}

#[test]
fn numeros_de_linha_crescem_ao_longo_da_tabela() {
    let t = analisa_texto(&chars("a\n\nb c\n// nada\nd")).unwrap();
    let linhas: Vec<Vec<i32>> = t.iter().map(|l| l.iter().map(|x| x.lin).collect()).collect();
    assert_eq!(linhas, vec![vec![1], vec![2, 2], vec![4]]);
}

#[test]
fn cada_lexema_e_um_separador_ou_uma_palavra() {
    let r = tabelaSimbolos(&chars("x_1+(y)  zz\n\n;:=\tfim"));
    assert_eq!(
        r,
        vec![linha(&["x_1", "+", "(", "y", ")", "zz"]), linha(&[";", ":", "=", "fim"])]
    );
    for l in &r {
        assert!(!l.is_empty());
        for w in l {
            let cs: Vec<char> = w.chars().collect();
            let palavra = cs.iter().all(|c| c.is_alphanumeric() || *c == '_');
            let separador = cs.len() == 1 && !palavra && !matches!(cs[0], ' ' | '\t' | '\n' | '\r');
            assert!(!cs.is_empty() && (palavra || separador), "{}", w);
        }
    }
}

#[test]
fn palavras_reservadas_em_minusculas() {
    assert_eq!(reservada("and"), Some(Tokens::And));
    assert_eq!(reservada("set"), Some(Tokens::ReservadaSet));
    assert_eq!(reservada("string"), Some(Tokens::ReservadaString));
    assert_eq!(reservada("downto"), Some(Tokens::Downto));
    assert_eq!(reservada("And"), None);
    assert_eq!(reservada("x"), None);
}

#[test]
fn tipo_do_lexema_dado_em_minusculas() {
    assert_eq!(tipo_lexema_minusculas("BEGIN", "begin"), Some(Tokens::Begin));
    assert_eq!(tipo_lexema_minusculas("Foo", "foo"), Some(Tokens::Identificador));
    assert_eq!(tipo_lexema_minusculas("E", "e"), Some(Tokens::FatorEscala));
    assert_eq!(tipo_lexema_minusculas("42", "42"), Some(Tokens::Numero));
    assert_eq!(tipo_lexema_minusculas(";", ";"), Some(Tokens::PontoVirgula));
    assert_eq!(tipo_lexema_minusculas("<", "<"), Some(Tokens::Menor));
    assert_eq!(tipo_lexema_minusculas("BEGIN", "BEGIN"), Some(Tokens::Identificador));
}

#[test]
fn nome_de_palavra_ou_simbolo_lido_de_volta() {
    let tipos = [
        Tokens::And,
        Tokens::Array,
        Tokens::Asm,
        Tokens::Begin,
        Tokens::Boolean,
        Tokens::Case,
        Tokens::Char,
        Tokens::Const,
        Tokens::Div,
        Tokens::Do,
        Tokens::Downto,
        Tokens::Else,
        Tokens::End,
        Tokens::False,
        Tokens::File,
        Tokens::For,
        Tokens::Forward,
        Tokens::Function,
        Tokens::Goto,
        Tokens::If,
        Tokens::In,
        Tokens::Inline,
        Tokens::Integer,
        Tokens::Label,
        Tokens::Mod,
        Tokens::Nil,
        Tokens::Not,
        Tokens::Object,
        Tokens::Of,
        Tokens::Or,
        Tokens::Packed,
        Tokens::Procedure,
        Tokens::Program,
        Tokens::Read,
        Tokens::Real,
        Tokens::Record,
        Tokens::Repeat,
        Tokens::ReservadaSet,
        Tokens::ReservadaString,
        Tokens::Then,
        Tokens::To,
        Tokens::True,
        Tokens::Type,
        Tokens::Until,
        Tokens::Var,
        Tokens::While,
        Tokens::With,
        Tokens::Write,
        Tokens::AbreParenteses,
        Tokens::FechaParenteses,
        Tokens::AbreColchete,
        Tokens::FechaColchete,
        Tokens::Ponto,
        Tokens::Virgula,
        Tokens::PontoVirgula,
        Tokens::DoisPontos,
        Tokens::Apostrofo,
        Tokens::Aspas,
        Tokens::Igual,
        Tokens::Menor,
        Tokens::Maior,
        Tokens::Mais,
        Tokens::Menos,
        Tokens::Multiplicacao,
        Tokens::Divisao,
        Tokens::Modulo,
        Tokens::Dolar,
        Tokens::EComercial,
    ];
    for k in tipos {
        let w = k.nome().to_string();
        assert_eq!(tipo_lexema(k.nome()), Some(k));
        assert_eq!(analisaLexico(&vec![w.clone()], 1), vec![Token { tok: w, tipo: k, lin: 1, col: 0 }]);
    }
}
