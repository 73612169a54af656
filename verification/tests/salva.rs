use analisador_pascal::gerador_mepa::ErroGeracao;
use analisador_pascal::lexer::analisa_texto;
use analisador_pascal::parser::{Analisador, Simbolo, Variavel};
use analisador_pascal::salva_gerador::{instrucao, prioridade, GeradorSimples};
use analisador_pascal::tokens::Tokens;

fn s(tok: &str, tipo: Tokens) -> Simbolo {
    Simbolo { tok: tok.to_string(), tipo }
}

fn codigo(g: &GeradorSimples) -> Vec<&str> {
    g.codigo.iter().map(|c| c.as_str()).collect()
}

fn vazio() -> GeradorSimples {
    GeradorSimples::new(Vec::new(), Vec::new(), Vec::new())
}

#[test]
fn instrucoes_do_gerador_simples() {
    let casos = [
        ("+", "SOMA"),
        ("-", "SUB"),
        ("*", "MULT"),
        ("/", "DIV"),
        (">", "CMMA"),
        (">=", "CMAG"),
        ("<", "CMME"),
        ("<=", "CMEG"),
        ("=", "CMIG"),
        ("<>", ""),
        ("and", ""),
        ("div", ""),
    ];
    for (op, inst) in casos {
        assert_eq!(instrucao(&op.to_string()), inst, "{}", op);
    }
}

#[test]
fn prioridade_simples() {
    assert!(prioridade(&"*".to_string(), &"+".to_string()));
    assert!(!prioridade(&"+".to_string(), &"-".to_string()));
    assert!(prioridade(&"+".to_string(), &"(".to_string()));
    assert!(prioridade(&"+".to_string(), &"<>".to_string()));
    assert!(!prioridade(&"/".to_string(), &"*".to_string()));
}

#[test]
fn gera_atribuicoes_como_o_gerador_mepa() {
    let chars: Vec<char> =
        "program p;\nvar\nx, y : integer;\nbegin\nx := 1 + 2 * 3;\ny := x;\nend.".chars().collect();
    let mut a = Analisador::new(analisa_texto(&chars).unwrap());
    assert_eq!(a.program(), Ok(()));
    let mut g = GeradorSimples::new(a.tabela_simb, a.tabela_variaveis, Vec::new());
    assert_eq!(g.inicio_leitura(), Ok(()));
    assert_eq!(
        codigo(&g),
        vec!["INPP", "CRCT 1", "CRCT 2", "CRCT 3", "MULT", "SOMA", "ARMZ 0", "CRVL 0", "ARMZ 1"]
    );
}

#[test]
fn subtracao_simples() {
    let simbolos = vec![
        s("begin", Tokens::Begin),
        s("x", Tokens::Identificador),
        s(":=", Tokens::Atribuicao),
        s("5", Tokens::Numero),
        s("-", Tokens::Menos),
        s("2", Tokens::Numero),
        s(";", Tokens::PontoVirgula),
        s("end", Tokens::End),
    ];
    let mut g = GeradorSimples::new(simbolos, vec![Variavel { tok: "x".to_string(), posicao: 0 }], Vec::new());
    assert_eq!(g.inicio_leitura(), Ok(()));
    assert_eq!(codigo(&g), vec!["INPP", "CRCT 5", "CRCT 2", "SUB", "ARMZ 0"]);
}

#[test]
fn divisao_simples() {
    let mut g = vazio();
    let expr = vec![s("6", Tokens::Numero), s("div", Tokens::Div), s("2", Tokens::Numero), s(";", Tokens::PontoVirgula)];
    assert_eq!(g.expressao_mepa(expr), Ok(()));
    assert_eq!(codigo(&g), vec!["CRCT 6", "CRCT 2", ""]);
    let mut g = vazio();
    let expr = vec![s("6", Tokens::Numero), s("/", Tokens::Divisao), s("2", Tokens::Numero), s(";", Tokens::PontoVirgula)];
    assert_eq!(g.expressao_mepa(expr), Ok(()));
    assert_eq!(codigo(&g), vec!["CRCT 6", "CRCT 2"]);
}

#[test]
fn constantes_logicas_sao_ignoradas() {
    let mut g = vazio();
    let expr = vec![s("true", Tokens::True), s(";", Tokens::PontoVirgula)];
    assert_eq!(g.expressao_mepa(expr), Ok(()));
    assert!(g.codigo.is_empty());
}

#[test]
fn rotulos_do_gerador_simples_vao_para_o_codigo() {
    let mut g = vazio();
    g.cria_rotulo("if".to_string());
    g.cria_rotulo("while".to_string());
    assert_eq!(codigo(&g), vec!["R0", "R1"]);
    assert_eq!(g.rotulos.len(), 2);
    assert_eq!(g.rotulos[1].tok, "while");
    assert_eq!(g.rotulos[1].numero, 1);
    assert_eq!(g.contador_rotulo, 2);
}

#[test]
fn pilha_simples() {
    let mut g = vazio();
    assert_eq!(g.desempilha(), "None");
    g.empilha("(".to_string());
    g.empilha("+".to_string());
    assert_eq!(g.desempilha(), "+");
    assert_eq!(g.desempilha(), "(");
    assert_eq!(g.desempilha(), "None");
}

#[test]
fn leitura_simples() {
    let mut g = GeradorSimples::new(vec![s("x", Tokens::Identificador)], Vec::new(), Vec::new());
    assert_eq!(g.consome(), Ok(()));
    assert_eq!(g.pos, 1);
    assert_eq!(g.consome(), Err(ErroGeracao::FimInesperado));
    g.gera_mepa("NADA".to_string());
    assert_eq!(codigo(&g), vec!["NADA"]);
}

#[test]
fn comando_simples_desconhecido_nao_termina() {
    let simbolos = vec![s("begin", Tokens::Begin), s("if", Tokens::If), s("end", Tokens::End)];
    let mut g = GeradorSimples::new(simbolos, Vec::new(), Vec::new());
    assert_eq!(g.inicio_leitura(), Err(ErroGeracao::SemFim));
}
