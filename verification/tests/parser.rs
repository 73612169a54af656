use analisador_pascal::lexer::analisa_texto;
use analisador_pascal::parser::{Analisador, ErroSintatico, Simbolo, Variavel};
use analisador_pascal::tokens::{Token, Tokens};

fn analisador(texto: &str) -> Analisador {
    let chars: Vec<char> = texto.chars().collect();
    Analisador::new(analisa_texto(&chars).unwrap())
}

fn simbolo(tok: &str, tipo: Tokens) -> Simbolo {
    Simbolo { tok: tok.to_string(), tipo }
}

const PROGRAMA_A: &str = "program p;\nvar\nx, y : integer;\nbegin\nx := 1 + 2 * 3;\ny := x;\nend.";

#[test]
fn aceita_um_programa_com_variaveis() {
    let mut a = analisador(PROGRAMA_A);
    assert_eq!(a.program(), Ok(()));
    let textos: Vec<&str> = a.tabela_simb.iter().map(|s| s.tok.as_str()).collect();
    assert_eq!(
        textos,
        vec![
            "program", "p", ";", "var", "x", ",", "y", ":", "integer", ";", "begin", "x", ":=", "1", "+", "2", "*",
            "3", ";", "y", ":=", "x", ";", "end", "."
        ]
    );
    assert_eq!(a.tabela_simb[12], simbolo(":=", Tokens::Atribuicao));
    assert_eq!(a.tabela_simb[8], simbolo("integer", Tokens::Integer));
    assert_eq!(
        a.tabela_variaveis,
        vec![Variavel { tok: "x".to_string(), posicao: 0 }, Variavel { tok: "y".to_string(), posicao: 1 }]
    );
    assert_eq!(a.pos_atual, 2);
}

#[test]
fn os_simbolos_seguem_a_ordem_dos_tokens() {
    let chars: Vec<char> = PROGRAMA_A.chars().collect();
    let tabela = analisa_texto(&chars).unwrap();
    let todos: Vec<Simbolo> =
        tabela.iter().flatten().map(|t| Simbolo { tok: t.tok.clone(), tipo: t.tipo }).collect();
    let mut a = Analisador::new(tabela);
    assert_eq!(a.program(), Ok(()));
    assert_eq!(a.tabela_simb, todos);
    assert!(a.tokens.iter().all(|l| l.is_empty()));
}

#[test]
fn aceita_constantes_em_varias_linhas() {
    let mut a = analisador("program p;\nconst\na = 1;\nb = 2;\nbegin end.");
    assert_eq!(a.program(), Ok(()));
    assert_eq!(a.tabela_simb.len(), 15);
    assert!(a.tabela_variaveis.is_empty());
}

#[test]
fn aceita_procedimento_com_parametros() {
    let mut a = analisador("program p;\nprocedure q(a : integer);\nbegin end;\nbegin\nq(1)\nend.");
    assert_eq!(a.program(), Ok(()));
    assert_eq!(a.tabela_simb.last(), Some(&simbolo(".", Tokens::Ponto)));
}

#[test]
fn aceita_if_while_read_e_write() {
    let mut a = analisador(
        "program p;\nvar\nx : integer;\nbegin\nread(x);\nif x > 1 then x := 2 else x := 3;\nwhile x < 5 do x := x + 1;\nwrite(x);\nend.",
    );
    assert_eq!(a.program(), Ok(()));
    assert_eq!(a.tabela_variaveis, vec![Variavel { tok: "x".to_string(), posicao: 0 }]);
}

#[test]
fn programa_deve_comecar_por_program() {
    let mut a = analisador("begin end.");
    assert_eq!(
        a.program(),
        Err(ErroSintatico::TokenInesperado {
            encontrado: Token { tok: "begin".to_string(), tipo: Tokens::Begin, lin: 1, col: 0 },
            esperado: Tokens::Program,
        })
    );
    assert!(a.tabela_simb.is_empty());
}

#[test]
fn fim_inesperado_dos_tokens() {
    let mut a = analisador("program p;");
    assert_eq!(a.program(), Err(ErroSintatico::FimInesperado));
    assert_eq!(a.tabela_simb.len(), 3);
    let mut vazio = Analisador::new(Vec::new());
    assert_eq!(vazio.program(), Err(ErroSintatico::FimInesperado));
}

#[test]
fn tipo_de_variavel_deve_ser_basico() {
    let mut a = analisador("program p;\nvar x : foo;\nbegin end.");
    assert_eq!(a.program(), Err(ErroSintatico::TipoBasicoEsperado("foo".to_string())));
}

#[test]
fn for_sem_to_nem_downto() {
    let mut a = analisador("program p;\nvar i : integer;\nbegin\nfor i := 1 2 do i := 1\nend.");
    assert_eq!(a.program(), Err(ErroSintatico::DirecaoEsperada("2".to_string())));
}

#[test]
fn aceita_for_com_expressao_inicial() {
    let mut a = analisador("program p;\nvar i, x : integer;\nbegin\nfor i := 1 to 10 do x := i;\nfor i := x + 1 downto 2 * 3 do x := i\nend.");
    assert_eq!(a.program(), Ok(()));
    let textos: Vec<&str> = a.tabela_simb.iter().map(|s| s.tok.as_str()).collect();
    assert_eq!(&textos[11..21], &["for", "i", ":=", "1", "to", "10", "do", "x", ":=", "i"]);
}

#[test]
fn aceita_repeat_com_varios_comandos() {
    let mut a = analisador("program p;\nvar x, y : integer;\nbegin\nrepeat x := 1 ; y := 2 until x = y\nend.");
    assert_eq!(a.program(), Ok(()));
    let textos: Vec<&str> = a.tabela_simb.iter().map(|s| s.tok.as_str()).collect();
    assert_eq!(&textos[11..23], &["repeat", "x", ":=", "1", ";", "y", ":=", "2", "until", "x", "=", "y"]);
}

#[test]
fn repeat_sem_until() {
    let mut a = analisador("program p;\nvar x : integer;\nbegin\nrepeat x := 1 x := 2\nend.");
    assert_eq!(
        a.program(),
        Err(ErroSintatico::TokenInesperado {
            encontrado: Token { tok: "x".to_string(), tipo: Tokens::Identificador, lin: 4, col: 0 },
            esperado: Tokens::Until,
        })
    );
}

#[test]
fn aceita_tipo_enumerado() {
    let mut a = analisador("program p;\ntype cor = (red, green);\nbegin end.");
    assert_eq!(a.program(), Ok(()));
    let textos: Vec<&str> = a.tabela_simb.iter().map(|s| s.tok.as_str()).collect();
    assert_eq!(textos, vec!["program", "p", ";", "type", "cor", "=", "(", "red", ",", "green", ")", ";", "begin", "end", "."]);
}

#[test]
fn aceita_seletores_em_sequencia() {
    let mut a = analisador("program p;\nvar x : integer;\nbegin\nx[1][2] := 3;\nx[1, 2].campo := 4\nend.");
    assert_eq!(a.program(), Ok(()));
    let textos: Vec<&str> = a.tabela_simb.iter().map(|s| s.tok.as_str()).collect();
    assert_eq!(&textos[9..19], &["x", "[", "1", "]", "[", "2", "]", ":=", "3", ";"]);
}

#[test]
fn rotulo_deve_ser_inteiro() {
    let mut a = analisador("program p;\nbegin\n3.x: y := 1\nend.");
    assert_eq!(a.program(), Err(ErroSintatico::NumeroInteiroEsperado("3".to_string())));
}

#[test]
fn constante_igual_a_identificador() {
    let mut a = analisador("program p;\nconst a = b;\nc = -d;\nbegin end.");
    assert_eq!(a.program(), Ok(()));
    assert_eq!(a.tabela_simb[6], simbolo("b", Tokens::Identificador));
    assert_eq!(a.tabela_simb[11], simbolo("d", Tokens::Identificador));
}

#[test]
fn constante_com_dois_identificadores() {
    let mut a = analisador("program p;\nconst a = b c;\nbegin end.");
    assert_eq!(
        a.program(),
        Err(ErroSintatico::TokenInesperado {
            encontrado: Token { tok: "c".to_string(), tipo: Tokens::Identificador, lin: 2, col: 0 },
            esperado: Tokens::PontoVirgula,
        })
    );
}

#[test]
fn aceita_varias_declaracoes_na_mesma_linha() {
    let mut a = analisador("program p;\nconst a = 1; b = 2;\nvar x : integer; y, z : char;\nbegin end.");
    assert_eq!(a.program(), Ok(()));
    assert_eq!(a.tabela_simb.len(), 26);
    assert_eq!(
        a.tabela_variaveis,
        vec![
            Variavel { tok: "x".to_string(), posicao: 0 },
            Variavel { tok: "y".to_string(), posicao: 1 },
            Variavel { tok: "z".to_string(), posicao: 2 }
        ]
    );
}
