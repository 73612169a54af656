use analisador_pascal::gerador_mepa::{instrucao, instrucao_minusculas, prioridade, prioridade_minusculas, ErroGeracao, GeradorMEPA};
use analisador_pascal::lexer::analisa_texto;
use analisador_pascal::parser::{Analisador, Simbolo, Variavel};
use analisador_pascal::tokens::Tokens;

fn s(tok: &str, tipo: Tokens) -> Simbolo {
    Simbolo { tok: tok.to_string(), tipo }
}

fn var(tok: &str, posicao: i32) -> Variavel {
    Variavel { tok: tok.to_string(), posicao }
}

fn gerador_de(texto: &str) -> GeradorMEPA {
    let chars: Vec<char> = texto.chars().collect();
    let mut a = Analisador::new(analisa_texto(&chars).unwrap());
    assert_eq!(a.program(), Ok(()));
    GeradorMEPA::new(a.tabela_simb, a.tabela_variaveis, Vec::new())
}

fn codigo(g: &GeradorMEPA) -> Vec<&str> {
    g.codigo.iter().map(|c| c.as_str()).collect()
}

#[test]
fn instrucoes_dos_operadores() {
    let casos = [
        ("+", "SOMA"),
        ("-", "SUBT"),
        ("*", "MULT"),
        ("/", "DIVI"),
        (">", "CMMA"),
        (">=", "CMAG"),
        ("<", "CMME"),
        ("<=", "CMEG"),
        ("=", "CMIG"),
        ("<>", "CMDG"),
        ("and", "CONJ"),
        ("AND", "CONJ"),
        ("x", ""),
        ("(", ""),
    ];
    for (op, inst) in casos {
        assert_eq!(instrucao(&op.to_string()), inst, "{}", op);
    }
}

#[test]
fn prioridade_dos_operadores() {
    assert!(prioridade(&"(".to_string(), &"*".to_string()));
    assert!(prioridade(&"*".to_string(), &"+".to_string()));
    assert!(!prioridade(&"+".to_string(), &"*".to_string()));
    assert!(!prioridade(&"+".to_string(), &"+".to_string()));
    assert!(!prioridade(&"*".to_string(), &"/".to_string()));
    assert!(prioridade(&"+".to_string(), &"(".to_string()));
    assert!(prioridade(&"+".to_string(), &"x".to_string()));
    assert!(!prioridade(&"<".to_string(), &"AND".to_string()));
}

#[test]
fn expressao_com_precedencia() {
    let mut g = GeradorMEPA::new(Vec::new(), Vec::new(), Vec::new());
    let expr = vec![
        s("1", Tokens::Numero),
        s("+", Tokens::Mais),
        s("2", Tokens::Numero),
        s("*", Tokens::Multiplicacao),
        s("3", Tokens::Numero),
        s(";", Tokens::PontoVirgula),
    ];
    assert_eq!(g.expressao_mepa(expr), Ok(()));
    assert_eq!(codigo(&g), vec!["CRCT 1", "CRCT 2", "CRCT 3", "MULT", "SOMA"]);
    assert!(g.pilha.is_empty());
}

#[test]
fn expressao_com_parenteses() {
    let mut g = GeradorMEPA::new(Vec::new(), Vec::new(), Vec::new());
    let expr = vec![
        s("(", Tokens::AbreParenteses),
        s("1", Tokens::Numero),
        s("+", Tokens::Mais),
        s("2", Tokens::Numero),
        s(")", Tokens::FechaParenteses),
        s("*", Tokens::Multiplicacao),
        s("3", Tokens::Numero),
        s(";", Tokens::PontoVirgula),
    ];
    assert_eq!(g.expressao_mepa(expr), Ok(()));
    assert_eq!(codigo(&g), vec!["CRCT 1", "CRCT 2", "SOMA", "CRCT 3", "MULT"]);
}

#[test]
fn subtracao_associa_a_esquerda() {
    let mut g = GeradorMEPA::new(Vec::new(), Vec::new(), Vec::new());
    let expr = vec![
        s("5", Tokens::Numero),
        s("-", Tokens::Menos),
        s("2", Tokens::Numero),
        s("-", Tokens::Menos),
        s("1", Tokens::Numero),
        s(";", Tokens::PontoVirgula),
    ];
    assert_eq!(g.expressao_mepa(expr), Ok(()));
    assert_eq!(codigo(&g), vec!["CRCT 5", "CRCT 2", "SUBT", "CRCT 1", "SUBT"]);
}

#[test]
fn constantes_logicas_e_variaveis() {
    let mut g = GeradorMEPA::new(Vec::new(), vec![var("a", 0), var("b", 1)], Vec::new());
    let expr = vec![
        s("true", Tokens::True),
        s("AND", Tokens::And),
        s("false", Tokens::False),
        s("and", Tokens::And),
        s("b", Tokens::Identificador),
        s("and", Tokens::And),
        s("z", Tokens::Identificador),
        s("do", Tokens::Do),
    ];
    assert_eq!(g.expressao_mepa(expr), Ok(()));
    assert_eq!(codigo(&g), vec!["CRCT 1", "CRCT 0", "CONJ", "CRVL 1", "CONJ", "CRVL -1", "CONJ"]);
}

#[test]
fn expressao_sem_abertura_nao_termina() {
    let mut g = GeradorMEPA::new(Vec::new(), Vec::new(), Vec::new());
    let expr = vec![s(")", Tokens::FechaParenteses), s(";", Tokens::PontoVirgula)];
    assert_eq!(g.expressao_mepa(expr), Err(ErroGeracao::SemFim));
}

#[test]
fn gera_atribuicoes() {
    let mut g = gerador_de("program p;\nvar\nx, y : integer;\nbegin\nx := 1 + 2 * 3;\ny := x;\nend.");
    assert_eq!(g.inicio_leitura(), Ok(()));
    assert_eq!(
        codigo(&g),
        vec!["INPP", "CRCT 1", "CRCT 2", "CRCT 3", "MULT", "SOMA", "ARMZ 0", "CRVL 0", "ARMZ 1"]
    );
    assert!(g.pilha.is_empty());
    assert!(g.rotulos.is_empty());
}

#[test]
fn gera_if_else_e_while() {
    let mut g = gerador_de(
        "program p;\nvar\nx : integer;\nbegin\nif x > 1 then x := 2 else x := 3;\nwhile x < 5 do x := x + 1;\nend.",
    );
    assert_eq!(g.inicio_leitura(), Ok(()));
    assert_eq!(
        codigo(&g),
        vec![
            "INPP", "CRVL 0", "CRCT 1", "CMMA", "DSVF L0", "CRCT 2", "ARMZ 0", "DSVS L1", "L0 NADA", "CRCT 3",
            "ARMZ 0", "L1 NADA", "L2 NADA", "CRVL 0", "CRCT 5", "CMME", "DSVF L3", "CRVL 0", "CRCT 1", "SOMA",
            "ARMZ 0", "DSVS L2", "L3 NADA"
        ]
    );
    let rotulos: Vec<(&str, &str, i32)> =
        g.rotulos.iter().map(|r| (r.tok.as_str(), r.rotulo.as_str(), r.numero)).collect();
    assert_eq!(rotulos, vec![("if", "L0", 0), ("else", "L1", 1), ("while", "L2", 2), ("do", "L3", 3)]);
    assert_eq!(g.contador_rotulo, 4);
}

#[test]
fn gera_read_e_write() {
    let mut g = gerador_de("program p;\nvar\nx : integer;\nbegin\nread(x);\nwrite(x);\nend.");
    assert_eq!(g.inicio_leitura(), Ok(()));
    assert_eq!(codigo(&g), vec!["INPP", "LEIT", "ARMZ x", "CRVL 0", "IMPR"]);
}

#[test]
fn gera_for() {
    let simbolos = vec![
        s("begin", Tokens::Begin),
        s("for", Tokens::For),
        s("i", Tokens::Identificador),
        s(":=", Tokens::Atribuicao),
        s("1", Tokens::Numero),
        s("to", Tokens::To),
        s("3", Tokens::Numero),
        s("do", Tokens::Do),
        s("x", Tokens::Identificador),
        s(":=", Tokens::Atribuicao),
        s("i", Tokens::Identificador),
        s(";", Tokens::PontoVirgula),
        s("end", Tokens::End),
    ];
    let mut g = GeradorMEPA::new(simbolos, vec![var("i", 0), var("x", 1)], Vec::new());
    assert_eq!(g.inicio_leitura(), Ok(()));
    assert_eq!(
        codigo(&g),
        vec![
            "INPP", "CRCT 1", "AMRZ i", "L0 NADA", "CRVL 0", "CRCT 3", "CMEG", "DSVF L1", "CRVL 0", "ARMZ 1", "CRVL 0",
            "CRCT 1", "SOMA", "ARMZ 0", "DSVS L0", "L1 NADA"
        ]
    );
    assert_eq!(g.pilha, vec!["(".to_string()]);
}

#[test]
fn gera_repeat() {
    let simbolos = vec![
        s("begin", Tokens::Begin),
        s("repeat", Tokens::Repeat),
        s("x", Tokens::Identificador),
        s(":=", Tokens::Atribuicao),
        s("1", Tokens::Numero),
        s(";", Tokens::PontoVirgula),
        s("until", Tokens::Until),
        s("x", Tokens::Identificador),
        s("=", Tokens::Igual),
        s("1", Tokens::Numero),
        s(";", Tokens::PontoVirgula),
        s("end", Tokens::End),
    ];
    let mut g = GeradorMEPA::new(simbolos, vec![var("x", 0)], Vec::new());
    assert_eq!(g.inicio_leitura(), Ok(()));
    assert_eq!(
        codigo(&g),
        vec!["INPP", "L0  NADA", "CRCT 1", "ARMZ 0", "CRVL 0", "CRCT 1", "CMIG", "DSVF L0", "L1 NADA"]
    );
}

#[test]
fn reservas_de_memoria_vao_para_o_codigo() {
    let simbolos = vec![
        s("begin", Tokens::Begin),
        s("x", Tokens::Identificador),
        s(":=", Tokens::Atribuicao),
        s("7", Tokens::Numero),
        s(";", Tokens::PontoVirgula),
        s("end", Tokens::End),
    ];
    let mut g = GeradorMEPA::new(simbolos, vec![var("x", 0)], vec!["AMEM 1".to_string()]);
    assert_eq!(g.inicio_leitura(), Ok(()));
    assert_eq!(codigo(&g), vec!["INPP", "AMEM 1", "CRCT 7", "ARMZ 0"]);
}

#[test]
fn comando_que_nada_le_nao_termina() {
    let simbolos = vec![s("begin", Tokens::Begin), s(";", Tokens::PontoVirgula), s("end", Tokens::End)];
    let mut g = GeradorMEPA::new(simbolos, Vec::new(), Vec::new());
    assert_eq!(g.inicio_leitura(), Err(ErroGeracao::SemFim));
}

#[test]
fn sem_begin_o_fim_e_inesperado() {
    let simbolos = vec![s("x", Tokens::Identificador), s(":=", Tokens::Atribuicao), s("1", Tokens::Numero)];
    let mut g = GeradorMEPA::new(simbolos, vec![var("x", 0)], Vec::new());
    assert_eq!(g.inicio_leitura(), Err(ErroGeracao::FimInesperado));
    assert_eq!(codigo(&g), vec!["INPP"]);
}

#[test]
fn codigo_anterior_fica_no_inicio() {
    let simbolos = vec![
        s("begin", Tokens::Begin),
        s("x", Tokens::Identificador),
        s(":=", Tokens::Atribuicao),
        s("2", Tokens::Numero),
        s(";", Tokens::PontoVirgula),
        s("end", Tokens::End),
    ];
    let mut g = GeradorMEPA::new(simbolos, vec![var("x", 0)], Vec::new());
    g.codigo.push("AMEM 1".to_string());
    assert_eq!(g.inicio_leitura(), Ok(()));
    assert_eq!(codigo(&g), vec!["AMEM 1", "INPP", "CRCT 2", "ARMZ 0"]);
}

#[test]
fn rotulo_criado_e_encontrado_pelo_numero() {
    let mut g = GeradorMEPA::new(Vec::new(), Vec::new(), Vec::new());
    g.cria_rotulo("if".to_string());
    assert_eq!(g.procura_rotulo_numero(0), "L0");
    assert_eq!(g.procura_rotulo_numero(1), "");
    g.cria_rotulo("while".to_string());
    assert_eq!(g.contador_rotulo, 2);
    assert_eq!(g.rotulos[1].tok, "while");
    assert_eq!(g.procura_rotulo_numero(1), "L1");
    assert_eq!(g.procura_rotulo_numero(0), "L0");
    assert_eq!(g.procura_rotulo_numero(2), "");
    assert_eq!(g.procura_rotulo_numero(-1), "");
    assert_eq!(g.rotulos.len(), 2);
}

#[test]
fn instrucao_de_texto_em_minusculas() {
    assert_eq!(instrucao_minusculas("and"), "CONJ");
    assert_eq!(instrucao_minusculas("<>"), "CMDG");
    assert_eq!(instrucao_minusculas(">="), "CMAG");
    assert_eq!(instrucao_minusculas("AND"), "");
    assert_eq!(instrucao_minusculas("x"), "");
    assert_eq!(instrucao(&"AnD".to_string()), "CONJ");
}

#[test]
fn prioridade_de_texto_em_minusculas() {
    assert!(prioridade_minusculas("(", "+"));
    assert!(!prioridade_minusculas("+", "*"));
    assert!(prioridade_minusculas("*", "+"));
    assert!(prioridade_minusculas("and", "("));
    assert!(!prioridade_minusculas("+", "and"));
    assert!(prioridade_minusculas("+", "AND"));
    assert!(!prioridade(&"+".to_string(), &"AND".to_string()));
}

#[test]
fn expressao_em_ordem_posfixa_e_pilha_restaurada() {
    let mut g = GeradorMEPA::new(Vec::new(), vec![var("a", 0), var("b", 1), var("c", 2)], Vec::new());
    g.pilha.push("x".to_string());
    let expr = vec![
        s("a", Tokens::Identificador),
        s("-", Tokens::Menos),
        s("b", Tokens::Identificador),
        s("-", Tokens::Menos),
        s("c", Tokens::Identificador),
        s("*", Tokens::Multiplicacao),
        s("(", Tokens::AbreParenteses),
        s("2", Tokens::Numero),
        s("+", Tokens::Mais),
        s("3", Tokens::Numero),
        s(")", Tokens::FechaParenteses),
        s("/", Tokens::Divisao),
        s("4", Tokens::Numero),
        s("<", Tokens::Menor),
        s("a", Tokens::Identificador),
        s("then", Tokens::Then),
    ];
    assert_eq!(g.expressao_mepa(expr), Ok(()));
    assert_eq!(
        codigo(&g),
        vec![
            "CRVL 0", "CRVL 1", "SUBT", "CRVL 2", "CRCT 2", "CRCT 3", "SOMA", "MULT", "CRCT 4", "DIVI", "SUBT",
            "CRVL 0", "CMME"
        ]
    );
    assert_eq!(g.pilha, vec!["x".to_string()]);
}
