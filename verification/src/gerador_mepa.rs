//! The MEPA code generator: it reads the symbols that the parser
//! accepted, from the first `begin` on, and writes the instructions of the
//! MEPA machine for assignments, conditionals, loops, reading and writing,
//! compiling expressions to postfix with a stack of operators.
use vstd::prelude::*;
use crate::parser::{Simbolo, Variavel, vista_simbolos, vista_variaveis};
use crate::texto::{decimal, minusculas, para_minusculas, texto_i32, mesmo_texto};
use crate::tokens::Tokens;

verus! {

/// A label of the generated code: the construct that made it, its name
/// (`L` and its number) and its number.
#[derive(Debug, PartialEq, Clone)]
pub struct Rotulo {
    pub tok: String,
    pub rotulo: String,
    pub numero: i32,
}

/// Why the generator stopped.
#[derive(Debug, PartialEq, Clone)]
pub enum ErroGeracao {
    /// The symbols ran out where one more was needed.
    FimInesperado,
    /// The program makes the generator go round without end: a closing
    /// symbol with no open bracket on the stack, or a statement that reads
    /// no symbol in a sequence of statements.
    SemFim,
}

/// The state of the generator: the symbols and the position of the next one
/// to read, the variables, the reservations of memory to emit, the code
/// written so far, the labels made so far, the stack of operators, and the
/// number of the next label.
pub struct GeradorMEPA {
    pub simbolos: Vec<Simbolo>,
    pub pos: usize,
    pub variaveis: Vec<Variavel>,
    pub codigo_amem: Vec<String>,
    pub codigo: Vec<String>,
    pub rotulos: Vec<Rotulo>,
    pub pilha: Vec<String>,
    pub contador_rotulo: i32,
}

/// The texts of a sequence of strings.
pub open spec fn vista_textos(s: Seq<String>) -> Seq<Seq<char>> {
    s.map_values(|x: String| x@)
}

/// The MEPA instruction of an operator (compared in lowercase); empty for
/// anything else.
pub open spec fn instrucao_spec(t: Seq<char>) -> Seq<char> {
    instrucao_de(minusculas(t))
}

/// The MEPA instruction of an operator written in lowercase; empty for
/// anything else.
pub open spec fn instrucao_de(l: Seq<char>) -> Seq<char> {
    if l == "+"@ {
        "SOMA"@
    } else if l == "-"@ {
        "SUBT"@
    } else if l == "*"@ {
        "MULT"@
    } else if l == "/"@ {
        "DIVI"@
    } else if l == ">"@ {
        "CMMA"@
    } else if l == ">="@ {
        "CMAG"@
    } else if l == "<"@ {
        "CMME"@
    } else if l == "<="@ {
        "CMEG"@
    } else if l == "="@ {
        "CMIG"@
    } else if l == "<>"@ {
        "CMDG"@
    } else if l == "and"@ {
        "CONJ"@
    } else {
        Seq::empty()
    }
}

/// The priority of an incoming operator written in lowercase: `(` 3, `*`
/// and `/` 2, anything else 1.
pub open spec fn prioridade_entrada(l: Seq<char>) -> int {
    if l == "("@ {
        3
    } else if l == "*"@ || l == "/"@ {
        2
    } else {
        1
    }
}

/// The priority of an operator on the stack, written in lowercase: `*` and
/// `/` 2; `+`, `-`, the relational symbols and `and` 1; `(` and anything
/// else 0.
pub open spec fn prioridade_pilha(l: Seq<char>) -> int {
    if l == "("@ {
        0
    } else if l == "*"@ || l == "/"@ {
        2
    } else if l == "+"@ || l == "-"@ || l == "="@ || l == "<"@ || l == "<="@ || l == ">"@ || l == ">="@
        || l == "<>"@ || l == "and"@ {
        1
    } else {
        0
    }
}

/// Whether operator `a` goes onto the stack above operator `b`, the two
/// compared in lowercase.
pub open spec fn prioridade_spec(a: Seq<char>, b: Seq<char>) -> bool {
    prioridade_entrada(minusculas(a)) > prioridade_pilha(minusculas(b))
}

/// The position of the first variable named `tok`, or -1.
pub open spec fn procura_var_spec(vars: Seq<(Seq<char>, i32)>, tok: Seq<char>) -> i32
    decreases vars.len(),
{
    if vars.len() == 0 {
        -1i32
    } else if vars[0].0 == tok {
        vars[0].1
    } else {
        procura_var_spec(vars.drop_first(), tok)
    }
}

/// The code and the stack of operators while an expression is compiled.
pub struct Traducao {
    pub codigo: Seq<Seq<char>>,
    pub pilha: Seq<Seq<char>>,
}

/// A closing symbol: every operator above the last `(` goes to the code and
/// the `(` leaves the stack. `None` where there is no `(` (the stack runs
/// out and the generator goes round without end).
pub open spec fn fecha(t: Traducao) -> Option<Traducao>
    decreases t.pilha.len(),
{
    if t.pilha.len() == 0 {
        None
    } else if t.pilha.last() == "("@ {
        Some(Traducao { codigo: t.codigo, pilha: t.pilha.drop_last() })
    } else {
        fecha(Traducao { codigo: t.codigo.push(instrucao_spec(t.pilha.last())), pilha: t.pilha.drop_last() })
    }
}

/// An operator `op`: every operator on the stack that does not yield to it
/// goes to the code; then it goes onto the stack. Where the stack runs out,
/// the text `None` stands for the operator below it: `op` goes above it if
/// it yields to `op`, else the generator goes round without end (`None`).
pub open spec fn opera(t: Traducao, op: Seq<char>) -> Option<Traducao>
    decreases t.pilha.len(),
{
    if t.pilha.len() == 0 {
        if prioridade_spec(op, "None"@) {
            Some(Traducao { codigo: t.codigo, pilha: seq!["None"@, op] })
        } else {
            None
        }
    } else if prioridade_spec(op, t.pilha.last()) {
        Some(Traducao { codigo: t.codigo, pilha: t.pilha.push(op) })
    } else {
        opera(Traducao { codigo: t.codigo.push(instrucao_spec(t.pilha.last())), pilha: t.pilha.drop_last() }, op)
    }
}

/// A closing symbol of an expression.
pub open spec fn eh_fechamento(k: Tokens) -> bool {
    k == Tokens::FechaParenteses || k == Tokens::PontoVirgula || k == Tokens::Then || k == Tokens::Else
        || k == Tokens::Virgula || k == Tokens::Do
}

/// An operator of an expression.
pub open spec fn eh_operador(k: Tokens) -> bool {
    k == Tokens::Mais || k == Tokens::Menos || k == Tokens::Multiplicacao || k == Tokens::Divisao
        || k == Tokens::Menor || k == Tokens::MenorIgual || k == Tokens::Maior || k == Tokens::MaiorIgual
        || k == Tokens::Igual || k == Tokens::Diferente || k == Tokens::And
}

/// One symbol of an expression: a constant or a variable loads its value, a
/// `(` goes onto the stack, a closing symbol and an operator work the stack;
/// anything else is passed over.
pub open spec fn passo_expr(t: Traducao, s: (Seq<char>, Tokens), vars: Seq<(Seq<char>, i32)>) -> Option<Traducao> {
    let k = s.1;
    if k == Tokens::True {
        Some(Traducao { codigo: t.codigo.push("CRCT 1"@), pilha: t.pilha })
    } else if k == Tokens::False {
        Some(Traducao { codigo: t.codigo.push("CRCT 0"@), pilha: t.pilha })
    } else if k == Tokens::Numero {
        Some(Traducao { codigo: t.codigo.push("CRCT "@ + s.0), pilha: t.pilha })
    } else if k == Tokens::Identificador {
        Some(Traducao { codigo: t.codigo.push("CRVL "@ + decimal(procura_var_spec(vars, s.0) as int)), pilha: t.pilha })
    } else if k == Tokens::AbreParenteses {
        Some(Traducao { codigo: t.codigo, pilha: t.pilha.push("("@) })
    } else if eh_fechamento(k) {
        fecha(t)
    } else if eh_operador(k) {
        opera(t, s.0)
    } else {
        Some(t)
    }
}

/// An expression's symbols, one after the other.
pub open spec fn traduz(t: Traducao, e: Seq<(Seq<char>, Tokens)>, vars: Seq<(Seq<char>, i32)>) -> Option<Traducao>
    decreases e.len(),
{
    if e.len() == 0 {
        Some(t)
    } else {
        match traduz(t, e.drop_last(), vars) {
            None => None,
            Some(t2) => passo_expr(t2, e.last(), vars),
        }
    }
}

/// The compilation of an expression: a `(` goes onto the stack, then its
/// symbols are read.
pub open spec fn expressao_spec(t: Traducao, e: Seq<(Seq<char>, Tokens)>, vars: Seq<(Seq<char>, i32)>) -> Option<Traducao> {
    traduz(Traducao { codigo: t.codigo, pilha: t.pilha.push("("@) }, e, vars)
}

/// The generator's state as plain values: the position of the next symbol
/// to read, the code written, the stack of operators, and the constructs
/// that made the labels, in the order of their numbers.
#[verifier::ext_equal]
pub struct Estado {
    pub pos: nat,
    pub codigo: Seq<Seq<char>>,
    pub pilha: Seq<Seq<char>>,
    pub rotulos: Seq<Seq<char>>,
}

impl Estado {
    /// The state with the next symbol to read at `pos`.
    pub open spec fn em(self, pos: nat) -> Estado {
        Estado { pos: pos, codigo: self.codigo, pilha: self.pilha, rotulos: self.rotulos }
    }

    /// The state with the instruction `c` added to the code.
    pub open spec fn emite(self, c: Seq<char>) -> Estado {
        Estado { pos: self.pos, codigo: self.codigo.push(c), pilha: self.pilha, rotulos: self.rotulos }
    }

    /// The state with one more label, made by the construct `tok`.
    pub open spec fn rotula(self, tok: Seq<char>) -> Estado {
        Estado { pos: self.pos, codigo: self.codigo, pilha: self.pilha, rotulos: self.rotulos.push(tok) }
    }

    /// The code and the stack, for the compilation of an expression.
    pub open spec fn traducao(self) -> Traducao {
        Traducao { codigo: self.codigo, pilha: self.pilha }
    }

    /// The state with the code and the stack of a compilation.
    pub open spec fn com(self, t: Traducao) -> Estado {
        Estado { pos: self.pos, codigo: t.codigo, pilha: t.pilha, rotulos: self.rotulos }
    }
}

/// The index of the first symbol of kind `a` or `b` from index `i` on, or
/// the number of symbols where there is none.
pub open spec fn primeiro(s: Seq<(Seq<char>, Tokens)>, i: nat, a: Tokens, b: Tokens) -> nat
    decreases s.len() - i,
{
    if i >= s.len() {
        s.len()
    } else if s[i as int].1 == a || s[i as int].1 == b {
        i
    } else {
        primeiro(s, i + 1, a, b)
    }
}

/// What `primeiro` finds lies at or after where the search starts.
pub proof fn lemma_primeiro(s: Seq<(Seq<char>, Tokens)>, i: nat, a: Tokens, b: Tokens)
    ensures
        primeiro(s, i, a, b) < s.len() ==> i <= primeiro(s, i, a, b),
        primeiro(s, i, a, b) < s.len() ==> s[primeiro(s, i, a, b) as int].1 == a || s[primeiro(s, i, a, b) as int].1 == b,
    decreases s.len() - i,
{
    if i < s.len() && !(s[i as int].1 == a || s[i as int].1 == b) {
        lemma_primeiro(s, i + 1, a, b);
    }
}

/// The expression read from index `p`: its first symbol whatever it is,
/// then the symbols up to and including the first one of kind `a` or `b`;
/// with the index after it. `None` where the symbols run out first.
pub open spec fn le_expr(s: Seq<(Seq<char>, Tokens)>, p: nat, a: Tokens, b: Tokens) -> Option<(Seq<(Seq<char>, Tokens)>, nat)> {
    if p >= s.len() {
        None
    } else {
        let q = primeiro(s, p + 1, a, b);
        if q >= s.len() {
            None
        } else {
            Some((s.subrange(p as int, q + 1int), (q + 1) as nat))
        }
    }
}

/// An expression read by `le_expr` takes at least two symbols and ends
/// within the symbols.
pub proof fn lemma_le_expr(s: Seq<(Seq<char>, Tokens)>, p: nat, a: Tokens, b: Tokens)
    ensures
        le_expr(s, p, a, b) matches Some((e, q)) ==> p + 2 <= q <= s.len(),
{
    lemma_primeiro(s, p + 1, a, b);
}

/// The compilation of an expression into the code and stack of `e`.
pub open spec fn traduz_em(e: Estado, expr: Seq<(Seq<char>, Tokens)>, vars: Seq<(Seq<char>, i32)>) -> Result<Estado, ErroGeracao> {
    match expressao_spec(e.traducao(), expr, vars) {
        None => Err(ErroGeracao::SemFim),
        Some(t) => Ok(e.com(t)),
    }
}

/// The symbols still to read from `e`, as a measure.
pub open spec fn medida(s: Seq<(Seq<char>, Tokens)>, e: Estado) -> nat {
    if e.pos <= s.len() {
        (s.len() - e.pos) as nat
    } else {
        0
    }
}

/// An assignment from `e`: the variable and `:=` are read; when the
/// variable is declared, the expression up to the first `else` (left to
/// read) or `;` (read) is compiled, a `;` that follows it is read, and
/// the value is stored in the variable's position (`ARMZ`).
pub open spec fn atribuicao_spec(s: Seq<(Seq<char>, Tokens)>, vars: Seq<(Seq<char>, i32)>, e: Estado) -> Result<Estado, ErroGeracao> {
    if e.pos + 2 > s.len() {
        Err(ErroGeracao::FimInesperado)
    } else {
        let posicao = procura_var_spec(vars, s[e.pos as int].0);
        let p = (e.pos + 2) as nat;
        if posicao < 0 {
            Ok(e.em(p))
        } else {
            match le_expr(s, p, Tokens::Else, Tokens::PontoVirgula) {
                None => Err(ErroGeracao::FimInesperado),
                Some((expr, q)) => {
                    let depois: nat = if expr.last().1 == Tokens::Else { (q - 1) as nat } else { q };
                    match traduz_em(e.em(depois), expr, vars) {
                        Err(k) => Err(k),
                        Ok(e2) => if depois >= s.len() {
                            Err(ErroGeracao::FimInesperado)
                        } else {
                            let fim: nat = if s[depois as int].1 == Tokens::PontoVirgula { depois + 1 } else { depois };
                            Ok(e2.em(fim).emite("ARMZ "@ + decimal(posicao as int)))
                        },
                    }
                },
            }
        }
    }
}

/// A `read` from `e`: `read` and `(` are read, then the list (see
/// `leia_lista`).
pub open spec fn leia(s: Seq<(Seq<char>, Tokens)>, e: Estado) -> Result<Estado, ErroGeracao> {
    if e.pos + 2 > s.len() {
        Err(ErroGeracao::FimInesperado)
    } else {
        leia_lista(s, e.em((e.pos + 2) as nat))
    }
}

/// The list of a `read`: each identifier gives `LEIT` and a store named by
/// it, a `,` is passed over, and any other symbol ends the list; it is read,
/// and so is the symbol after it.
pub open spec fn leia_lista(s: Seq<(Seq<char>, Tokens)>, e: Estado) -> Result<Estado, ErroGeracao>
    decreases s.len() - e.pos,
{
    if e.pos >= s.len() {
        Err(ErroGeracao::FimInesperado)
    } else {
        let x = s[e.pos as int];
        if x.1 == Tokens::Identificador {
            leia_lista(s, e.emite("LEIT"@).emite("ARMZ "@ + x.0).em(e.pos + 1))
        } else if x.1 == Tokens::Virgula {
            leia_lista(s, e.em(e.pos + 1))
        } else if e.pos + 2 > s.len() {
            Err(ErroGeracao::FimInesperado)
        } else {
            Ok(e.em(e.pos + 2))
        }
    }
}

/// A `write` from `e`: `write` and `(` are read, then the list (see
/// `escreva_lista`).
pub open spec fn escreva(s: Seq<(Seq<char>, Tokens)>, vars: Seq<(Seq<char>, i32)>, e: Estado) -> Result<Estado, ErroGeracao> {
    if e.pos + 2 > s.len() {
        Err(ErroGeracao::FimInesperado)
    } else {
        escreva_lista(s, vars, e.em((e.pos + 2) as nat))
    }
}

/// The list of a `write`: each expression, up to and including a `,` or a
/// `)`, is compiled and printed (`IMPR`); the list ends where a `(` or a
/// `;` follows, which is read.
pub open spec fn escreva_lista(s: Seq<(Seq<char>, Tokens)>, vars: Seq<(Seq<char>, i32)>, e: Estado) -> Result<Estado, ErroGeracao>
    decreases s.len() - e.pos,
{
    match le_expr(s, e.pos, Tokens::Virgula, Tokens::FechaParenteses) {
        None => Err(ErroGeracao::FimInesperado),
        Some((expr, p)) => match traduz_em(e.em(p), expr, vars) {
            Err(k) => Err(k),
            Ok(e1) => {
                let e2 = e1.emite("IMPR"@);
                if p >= s.len() {
                    Err(ErroGeracao::FimInesperado)
                } else if s[p as int].1 == Tokens::AbreParenteses || s[p as int].1 == Tokens::PontoVirgula {
                    Ok(e2.em(p + 1))
                } else {
                    proof {
                        lemma_le_expr(s, e.pos, Tokens::Virgula, Tokens::FechaParenteses);
                    }
                    escreva_lista(s, vars, e2)
                }
            },
        },
    }
}

/// A statement inside another, from `e`: an identifier followed by `[`,
/// `.` or `:=` starts an assignment; `if`, `while`, `for`, `begin`, `read`
/// and `write` start theirs; anything else is left to read.
pub open spec fn comando(s: Seq<(Seq<char>, Tokens)>, vars: Seq<(Seq<char>, i32)>, e: Estado) -> Result<Estado, ErroGeracao>
    decreases medida(s, e), 4nat,
{
    if e.pos >= s.len() {
        Err(ErroGeracao::FimInesperado)
    } else {
        let k = s[e.pos as int].1;
        if k == Tokens::Identificador {
            let seguinte = if e.pos + 1 < s.len() { s[e.pos + 1int].1 } else { Tokens::Comentario };
            if seguinte == Tokens::AbreColchete || seguinte == Tokens::Ponto || seguinte == Tokens::Atribuicao {
                atribuicao_spec(s, vars, e)
            } else {
                Ok(e)
            }
        } else if k == Tokens::If {
            se(s, vars, e)
        } else if k == Tokens::While {
            enquanto(s, vars, e)
        } else if k == Tokens::For {
            para(s, vars, e)
        } else if k == Tokens::Begin {
            bloco(s, vars, e)
        } else if k == Tokens::Read {
            leia(s, e)
        } else if k == Tokens::Write {
            escreva(s, vars, e)
        } else {
            Ok(e)
        }
    }
}

/// The statements of a block from `e` (a `begin` there is read first), up to
/// the `end`, which is left to read.
pub open spec fn bloco(s: Seq<(Seq<char>, Tokens)>, vars: Seq<(Seq<char>, i32)>, e: Estado) -> Result<Estado, ErroGeracao>
    decreases medida(s, e), 3nat,
{
    if e.pos >= s.len() {
        Err(ErroGeracao::FimInesperado)
    } else {
        let e1 = if s[e.pos as int].1 == Tokens::Begin { e.em(e.pos + 1) } else { e };
        sequencia(s, vars, e1)
    }
}

/// A sequence of statements from `e`, each started by an identifier (an
/// assignment), `if`, `while`, `read`, `write`, `for` or `repeat`, up to the
/// first `end` after one, left to read; a symbol that starts none of them
/// and is no `end` would be read again without end, and so would a statement
/// that read nothing (none does).
pub open spec fn sequencia(s: Seq<(Seq<char>, Tokens)>, vars: Seq<(Seq<char>, i32)>, e: Estado) -> Result<Estado, ErroGeracao>
    decreases medida(s, e), 2nat,
{
    if e.pos >= s.len() {
        Err(ErroGeracao::FimInesperado)
    } else {
        let k = s[e.pos as int].1;
        let passo = if k == Tokens::Identificador {
            atribuicao_spec(s, vars, e)
        } else if k == Tokens::If {
            se(s, vars, e)
        } else if k == Tokens::While {
            enquanto(s, vars, e)
        } else if k == Tokens::Read {
            leia(s, e)
        } else if k == Tokens::Write {
            escreva(s, vars, e)
        } else if k == Tokens::For {
            para(s, vars, e)
        } else if k == Tokens::Repeat {
            repete(s, vars, e)
        } else if k == Tokens::End {
            Ok(e)
        } else {
            Err(ErroGeracao::SemFim)
        };
        match passo {
            Err(x) => Err(x),
            Ok(e2) => if e2.pos >= s.len() {
                Err(ErroGeracao::FimInesperado)
            } else if s[e2.pos as int].1 == Tokens::End {
                Ok(e2)
            } else if e2.pos <= e.pos {
                Err(ErroGeracao::SemFim)
            } else {
                sequencia(s, vars, e2)
            },
        }
    }
}

/// An `if` from `e`: the condition up to `then` is compiled, label `n` is
/// made and a jump to it when the condition is false (`DSVF`) written, then
/// the statement; with an `else`, label `m` and a jump to it (`DSVS`), label
/// `n` placed (`NADA`), the second statement and label `m` placed; without,
/// label `n` placed. (The generator reads symbols only forward, so the test
/// that the first statement ended no earlier than the `if` began always
/// holds on its states; it is there so that the function plainly ends.)
pub open spec fn se(s: Seq<(Seq<char>, Tokens)>, vars: Seq<(Seq<char>, i32)>, e: Estado) -> Result<Estado, ErroGeracao>
    decreases medida(s, e), 1nat,
{
    if e.pos >= s.len() {
        Err(ErroGeracao::FimInesperado)
    } else {
        match le_expr(s, e.pos + 1, Tokens::Then, Tokens::Then) {
            None => Err(ErroGeracao::FimInesperado),
            Some((expr, p)) => match traduz_em(e.em(p), expr, vars) {
                Err(k) => Err(k),
                Ok(e1) => {
                    let n = e1.rotulos.len() as int;
                    let e2 = e1.rotula("if"@).emite("DSVF "@ + rotulo_nome(n));
                    proof {
                        lemma_le_expr(s, e.pos + 1, Tokens::Then, Tokens::Then);
                    }
                    match comando(s, vars, e2) {
                        Err(k) => Err(k),
                        Ok(e3) => if e3.pos >= s.len() {
                            Err(ErroGeracao::FimInesperado)
                        } else if s[e3.pos as int].1 != Tokens::Else {
                            Ok(e3.emite(rotulo_nome(n) + " NADA"@))
                        } else if e3.pos < e.pos {
                            Err(ErroGeracao::SemFim)
                        } else {
                            let m = e3.rotulos.len() as int;
                            let e4 = e3.em(e3.pos + 1).rotula("else"@).emite("DSVS "@ + rotulo_nome(m)).emite(
                                rotulo_nome(n) + " NADA"@,
                            );
                            match comando(s, vars, e4) {
                                Err(k) => Err(k),
                                Ok(e5) => Ok(e5.emite(rotulo_nome(m) + " NADA"@)),
                            }
                        },
                    }
                },
            },
        }
    }
}

/// A `while` from `e`: label `n` is made and placed, the condition up to
/// `do` compiled, label `m` made and a jump to it when the condition is
/// false written, then the statement, a jump back to `n` (`DSVS`) and label
/// `m` placed.
pub open spec fn enquanto(s: Seq<(Seq<char>, Tokens)>, vars: Seq<(Seq<char>, i32)>, e: Estado) -> Result<Estado, ErroGeracao>
    decreases medida(s, e), 1nat,
{
    if e.pos >= s.len() {
        Err(ErroGeracao::FimInesperado)
    } else {
        let n = e.rotulos.len() as int;
        let e1 = e.em(e.pos + 1).rotula("while"@).emite(rotulo_nome(n) + " NADA"@);
        match le_expr(s, e.pos + 1, Tokens::Do, Tokens::Do) {
            None => Err(ErroGeracao::FimInesperado),
            Some((expr, p)) => match traduz_em(e1.em(p), expr, vars) {
                Err(k) => Err(k),
                Ok(e2) => {
                    let m = e2.rotulos.len() as int;
                    let e3 = e2.rotula("do"@).emite("DSVF "@ + rotulo_nome(m));
                    proof {
                        lemma_le_expr(s, e.pos + 1, Tokens::Do, Tokens::Do);
                    }
                    match comando(s, vars, e3) {
                        Err(k) => Err(k),
                        Ok(e4) => Ok(e4.emite("DSVS "@ + rotulo_nome(n)).emite(rotulo_nome(m) + " NADA"@)),
                    }
                },
            },
        }
    }
}

/// A `for` from `e`: the variable and `:=` are read, the initial value up to
/// `to` or `downto` compiled and stored by the variable's name (`AMRZ`),
/// label `n` made and placed, the variable loaded, the final value up to
/// `do` compiled and compared (`CMEG`), label `m` made and a jump to it
/// written, then the statement, the variable increased by one, a jump back
/// to `n` and label `m` placed. `to` and `downto` alike give this ascending
/// loop.
pub open spec fn para(s: Seq<(Seq<char>, Tokens)>, vars: Seq<(Seq<char>, i32)>, e: Estado) -> Result<Estado, ErroGeracao>
    decreases medida(s, e), 1nat,
{
    if e.pos + 3 > s.len() {
        Err(ErroGeracao::FimInesperado)
    } else {
        let var_i = s[e.pos + 1int].0;
        let posicao = decimal(procura_var_spec(vars, var_i) as int);
        match le_expr(s, (e.pos + 3) as nat, Tokens::To, Tokens::Downto) {
            None => Err(ErroGeracao::FimInesperado),
            Some((expr, p)) => match traduz_em(e.em(p), expr, vars) {
                Err(k) => Err(k),
                Ok(e1) => {
                    let n = e1.rotulos.len() as int;
                    let e2 = e1.emite("AMRZ "@ + var_i).rotula("for"@).emite(rotulo_nome(n) + " NADA"@).emite(
                        "CRVL "@ + posicao,
                    );
                    match le_expr(s, p, Tokens::Do, Tokens::Do) {
                        None => Err(ErroGeracao::FimInesperado),
                        Some((expr2, p2)) => match traduz_em(e2.em(p2), expr2, vars) {
                            Err(k) => Err(k),
                            Ok(e3) => {
                                let m = e3.rotulos.len() as int;
                                let e4 = e3.emite("CMEG"@).rotula("do"@).emite("DSVF "@ + rotulo_nome(m));
                                proof {
                                    lemma_le_expr(s, (e.pos + 3) as nat, Tokens::To, Tokens::Downto);
                                    lemma_le_expr(s, p, Tokens::Do, Tokens::Do);
                                }
                                match comando(s, vars, e4) {
                                    Err(k) => Err(k),
                                    Ok(e5) => Ok(
                                        e5.emite("CRVL "@ + posicao).emite("CRCT 1"@).emite("SOMA"@).emite(
                                            "ARMZ "@ + posicao,
                                        ).emite("DSVS "@ + rotulo_nome(n)).emite(rotulo_nome(m) + " NADA"@),
                                    ),
                                }
                            },
                        },
                    }
                },
            },
        }
    }
}

/// A `repeat` from `e`: label `n` is made and placed, the first statement
/// read, then the statements up to `until` (see `repete_laco`) and the rest
/// (see `repete_depois`). (The test that the first statement ended after
/// the `repeat` always holds on the generator's states, which read symbols
/// only forward; it is there so that the function plainly ends.)
pub open spec fn repete(s: Seq<(Seq<char>, Tokens)>, vars: Seq<(Seq<char>, i32)>, e: Estado) -> Result<Estado, ErroGeracao>
    decreases medida(s, e), 1nat,
{
    if e.pos >= s.len() {
        Err(ErroGeracao::FimInesperado)
    } else {
        let n = e.rotulos.len() as int;
        let e1 = e.em(e.pos + 1).rotula("repeat"@).emite(rotulo_nome(n) + "  NADA"@);
        match comando(s, vars, e1) {
            Err(k) => Err(k),
            Ok(e2) => if e2.pos >= s.len() {
                Err(ErroGeracao::FimInesperado)
            } else if e2.pos <= e.pos {
                Err(ErroGeracao::SemFim)
            } else {
                repete_depois(s, vars, n, repete_laco(s, vars, e2))
            },
        }
    }
}

/// The end of a `repeat` whose label is `n`, once its statements gave `r`:
/// the `until` is read, the condition up to `;` compiled, a jump back to
/// `n` when it is false written, and label `m` made and placed.
pub open spec fn repete_depois(
    s: Seq<(Seq<char>, Tokens)>,
    vars: Seq<(Seq<char>, i32)>,
    n: int,
    r: Result<Estado, ErroGeracao>,
) -> Result<Estado, ErroGeracao> {
    match r {
        Err(k) => Err(k),
        Ok(e3) => if e3.pos >= s.len() {
            Err(ErroGeracao::FimInesperado)
        } else {
            match le_expr(s, e3.pos + 1, Tokens::PontoVirgula, Tokens::PontoVirgula) {
                None => Err(ErroGeracao::FimInesperado),
                Some((expr, p)) => match traduz_em(e3.em(p), expr, vars) {
                    Err(k) => Err(k),
                    Ok(e4) => {
                        let m = e4.rotulos.len() as int;
                        Ok(e4.emite("DSVF "@ + rotulo_nome(n)).rotula("until"@).emite(rotulo_nome(m) + " NADA"@))
                    },
                },
            }
        },
    }
}

/// The statements of a `repeat` from `e`, up to the `until`, left to read; a
/// statement that reads nothing would be read again without end.
pub open spec fn repete_laco(s: Seq<(Seq<char>, Tokens)>, vars: Seq<(Seq<char>, i32)>, e: Estado) -> Result<Estado, ErroGeracao>
    decreases medida(s, e), 5nat,
{
    if e.pos >= s.len() {
        Err(ErroGeracao::FimInesperado)
    } else if s[e.pos as int].1 == Tokens::Until {
        Ok(e)
    } else {
        match comando(s, vars, e) {
            Err(k) => Err(k),
            Ok(e2) => if e2.pos <= e.pos {
                Err(ErroGeracao::SemFim)
            } else {
                repete_laco(s, vars, e2)
            },
        }
    }
}

/// The whole program from `e`: `INPP`, the symbols up to the first `begin`
/// passed over and that `begin` read, the reservations of memory `amem`
/// written, then the block's statements (see `sequencia`).
pub open spec fn leitura(
    s: Seq<(Seq<char>, Tokens)>,
    vars: Seq<(Seq<char>, i32)>,
    amem: Seq<Seq<char>>,
    e: Estado,
) -> Result<Estado, ErroGeracao> {
    let q = primeiro(s, e.pos, Tokens::Begin, Tokens::Begin);
    if q >= s.len() {
        Err(ErroGeracao::FimInesperado)
    } else {
        bloco(s, vars, Estado { pos: (q + 1) as nat, codigo: e.codigo.push("INPP"@) + amem, pilha: e.pilha, rotulos: e.rotulos })
    }
}

/// A step's result against what the model gives: the same error, or success
/// with the model's state.
pub open spec fn confere(r: Result<(), ErroGeracao>, depois: Estado, esperado: Result<Estado, ErroGeracao>) -> bool {
    match esperado {
        Ok(e) => r is Ok && depois == e,
        Err(k) => r == Err::<(), ErroGeracao>(k),
    }
}

/// The MEPA instruction of an operator (see `instrucao_spec`).
pub fn instrucao(token: &String) -> (r: String)
    ensures
        r@ == instrucao_spec(token@),
{
    let low = para_minusculas(token.as_str());
    instrucao_minusculas(low.as_str())
}

/// The MEPA instruction of an operator written in lowercase (see
/// `instrucao_de`).
pub fn instrucao_minusculas(l: &str) -> (r: String)
    ensures
        r@ == instrucao_de(l@),
{
    if mesmo_texto(l, "+") {
        "SOMA".to_owned()
    } else if mesmo_texto(l, "-") {
        "SUBT".to_owned()
    } else if mesmo_texto(l, "*") {
        "MULT".to_owned()
    } else if mesmo_texto(l, "/") {
        "DIVI".to_owned()
    } else if mesmo_texto(l, ">") {
        "CMMA".to_owned()
    } else if mesmo_texto(l, ">=") {
        "CMAG".to_owned()
    } else if mesmo_texto(l, "<") {
        "CMME".to_owned()
    } else if mesmo_texto(l, "<=") {
        "CMEG".to_owned()
    } else if mesmo_texto(l, "=") {
        "CMIG".to_owned()
    } else if mesmo_texto(l, "<>") {
        "CMDG".to_owned()
    } else if mesmo_texto(l, "and") {
        "CONJ".to_owned()
    } else {
        String::new()
    }
}

/// Whether operator `a` goes onto the stack above operator `b` (see
/// `prioridade_spec`).
pub fn prioridade(a: &String, b: &String) -> (r: bool)
    ensures
        r == prioridade_spec(a@, b@),
{
    let la = para_minusculas(a.as_str());
    let lb = para_minusculas(b.as_str());
    prioridade_minusculas(la.as_str(), lb.as_str())
}

/// Whether operator `sa` goes onto the stack above operator `sb`, both
/// written in lowercase.
pub fn prioridade_minusculas(sa: &str, sb: &str) -> (r: bool)
    ensures
        r == (prioridade_entrada(sa@) > prioridade_pilha(sb@)),
{
    let pa: u8 = if mesmo_texto(sa, "(") {
        3
    } else if mesmo_texto(sa, "*") || mesmo_texto(sa, "/") {
        2
    } else {
        1
    };
    let pb: u8 = if mesmo_texto(sb, "(") {
        0
    } else if mesmo_texto(sb, "*") || mesmo_texto(sb, "/") {
        2
    } else if mesmo_texto(sb, "+") || mesmo_texto(sb, "-") || mesmo_texto(sb, "=") || mesmo_texto(sb, "<")
        || mesmo_texto(sb, "<=") || mesmo_texto(sb, ">") || mesmo_texto(sb, ">=") || mesmo_texto(sb, "<>")
        || mesmo_texto(sb, "and") {
        1
    } else {
        0
    };
    pa > pb
}

/// The name of label number `n`.
pub open spec fn rotulo_nome(n: int) -> Seq<char> {
    "L"@ + decimal(n)
}

/// The name of the first label numbered `num`; the empty text when none is.
pub open spec fn busca_rotulo(rs: Seq<Rotulo>, num: i32) -> Seq<char>
    decreases rs.len(),
{
    if rs.len() == 0 {
        Seq::empty()
    } else if rs[0].numero == num {
        rs[0].rotulo@
    } else {
        busca_rotulo(rs.drop_first(), num)
    }
}

/// Labels numbered on from `k`, each named after its number, give the name
/// of a number in their range and nothing for any other.
proof fn lemma_busca_numerados(rs: Seq<Rotulo>, k: int, num: i32)
    requires
        forall|j: int| 0 <= j < rs.len() ==> #[trigger] rs[j].numero == k + j && rs[j].rotulo@ == rotulo_nome(k + j),
    ensures
        busca_rotulo(rs, num) == (if k <= num < k + rs.len() { rotulo_nome(num as int) } else { Seq::<char>::empty() }),
    decreases rs.len(),
{
    if rs.len() > 0 {
        assert forall|j: int| 0 <= j < rs.drop_first().len() implies #[trigger] rs.drop_first()[j].numero == (k + 1) + j
            && rs.drop_first()[j].rotulo@ == rotulo_nome((k + 1) + j) by {
            assert(rs.drop_first()[j] == rs[j + 1]);
        }
        lemma_busca_numerados(rs.drop_first(), k + 1, num);
    }
}

/// The constructs that made the labels.
pub open spec fn toks_rotulos(rs: Seq<Rotulo>) -> Seq<Seq<char>> {
    rs.map_values(|r: Rotulo| r.tok@)
}

/// The text `a` followed by the text `b`.
fn junta(a: &str, b: &str) -> (r: String)
    ensures
        r@ == a@ + b@,
{
    let mut s = a.to_owned();
    s.append(b);
    s
}

impl GeradorMEPA {
    /// The symbols, as plain values.
    pub open spec fn simbs(&self) -> Seq<(Seq<char>, Tokens)> {
        vista_simbolos(self.simbolos@)
    }

    /// The variables, as plain values.
    pub open spec fn vars(&self) -> Seq<(Seq<char>, i32)> {
        vista_variaveis(self.variaveis@)
    }

    /// The code written so far.
    pub open spec fn cod(&self) -> Seq<Seq<char>> {
        vista_textos(self.codigo@)
    }

    /// The stack of operators.
    pub open spec fn pil(&self) -> Seq<Seq<char>> {
        vista_textos(self.pilha@)
    }

    /// The number of symbols still to read.
    pub open spec fn restantes(&self) -> nat {
        (self.simbolos.len() - self.pos) as nat
    }

    /// The next symbol, if any.
    pub open spec fn proximo(&self) -> Option<(Seq<char>, Tokens)> {
        if self.pos < self.simbolos.len() {
            Some(self.simbs()[self.pos as int])
        } else {
            None
        }
    }

    /// The state's invariant: the position is within the symbols; the labels
    /// are numbered from zero in order and named after their numbers, and
    /// the next number is their count; the labels still to make, at most one
    /// per symbol still to read, fit in an `i32`.
    pub open spec fn wf(&self) -> bool {
        &&& self.pos <= self.simbolos.len()
        &&& self.rotulos_wf()
        &&& self.contador_rotulo + self.restantes() <= i32::MAX
    }

    /// The labels' invariant: the counter is their number, and each is
    /// numbered by its place and named after its number.
    pub open spec fn rotulos_wf(&self) -> bool {
        &&& self.contador_rotulo == self.rotulos.len()
        &&& forall|i: int|
            0 <= i < self.rotulos.len() ==> (#[trigger] self.rotulos@[i]).numero == i && self.rotulos@[i].rotulo@
                == rotulo_nome(i)
    }

    /// The compilation state of the code and the stack.
    pub open spec fn traducao(&self) -> Traducao {
        Traducao { codigo: self.cod(), pilha: self.pil() }
    }

    /// The state as plain values (see `Estado`).
    pub open spec fn estado(&self) -> Estado {
        Estado { pos: self.pos as nat, codigo: self.cod(), pilha: self.pil(), rotulos: toks_rotulos(self.rotulos@) }
    }

    /// What every step of the generator keeps: the invariant, the symbols
    /// and variables; symbols are only read forward; code and labels are
    /// only added after the ones there; and a label is made only for a
    /// symbol read.
    pub open spec fn passo_valido(&self, depois: &GeradorMEPA) -> bool {
        &&& depois.wf()
        &&& depois.simbolos == self.simbolos
        &&& depois.variaveis == self.variaveis
        &&& depois.pos >= self.pos
        &&& depois.codigo.len() >= self.codigo.len()
        &&& forall|i: int| 0 <= i < self.codigo.len() ==> #[trigger] depois.cod()[i] == self.cod()[i]
        &&& depois.rotulos.len() >= self.rotulos.len()
        &&& forall|i: int| 0 <= i < self.rotulos.len() ==> #[trigger] depois.rotulos@[i] == self.rotulos@[i]
        &&& depois.contador_rotulo + depois.restantes() <= self.contador_rotulo + self.restantes()
    }

    /// The same symbols, variables, position, labels and reservations.
    pub open spec fn mesma_leitura(&self, depois: &GeradorMEPA) -> bool {
        &&& depois.simbolos == self.simbolos
        &&& depois.pos == self.pos
        &&& depois.variaveis == self.variaveis
        &&& depois.codigo_amem == self.codigo_amem
        &&& depois.rotulos == self.rotulos
        &&& depois.contador_rotulo == self.contador_rotulo
    }

    /// The generator at the start: the symbols accepted by the parser,
    /// read from the first, the declared variables, and the
    /// reservations of memory to emit; no code, no label, an empty stack.
    pub fn new(simbolos: Vec<Simbolo>, variaveis: Vec<Variavel>, codigo_amem: Vec<String>) -> (g: GeradorMEPA)
        requires
            simbolos.len() <= i32::MAX,
        ensures
            g.wf(),
            g.simbolos == simbolos,
            g.variaveis == variaveis,
            g.codigo_amem == codigo_amem,
            g.pos == 0,
            g.codigo@.len() == 0,
            g.pilha@.len() == 0,
            g.rotulos@.len() == 0,
    {
        GeradorMEPA {
            simbolos,
            pos: 0,
            variaveis,
            codigo_amem,
            codigo: Vec::new(),
            rotulos: Vec::new(),
            pilha: Vec::new(),
            contador_rotulo: 0,
        }
    }

    // The next symbol, without reading it; the generator stops when there is
    // none.
    fn prox_simbolo(&self) -> (r: Result<Simbolo, ErroGeracao>)
        ensures
            match self.proximo() {
                None => r == Err::<Simbolo, ErroGeracao>(ErroGeracao::FimInesperado),
                Some(s) => r matches Ok(x) && x.tok@ == s.0 && x.tipo == s.1,
            },
    {
        if self.pos >= self.simbolos.len() {
            return Err(ErroGeracao::FimInesperado);
        }
        let s = &self.simbolos[self.pos];
        Ok(Simbolo { tok: s.tok.clone(), tipo: s.tipo })
    }

    // The symbol after the next one, or the empty symbol.
    fn lookahead(&self) -> (r: Simbolo)
        ensures
            self.pos + 1 < self.simbolos.len() ==> r.tok@ == self.simbs()[self.pos + 1].0 && r.tipo == self.simbs()[
                self.pos + 1].1,
            self.pos + 1 >= self.simbolos.len() ==> r.tok@.len() == 0 && r.tipo == Tokens::Comentario,
    {
        if self.pos < self.simbolos.len() && self.pos + 1 < self.simbolos.len() {
            let s = &self.simbolos[self.pos + 1];
            Simbolo { tok: s.tok.clone(), tipo: s.tipo }
        } else {
            Simbolo { tok: String::new(), tipo: Tokens::Comentario }
        }
    }

    // Reads the next symbol; the generator stops when there is none.
    fn consome(&mut self) -> (r: Result<(), ErroGeracao>)
        requires
            old(self).wf(),
        ensures
            old(self).pos < old(self).simbolos.len() ==> r is Ok && final(self).pos == old(self).pos + 1,
            old(self).pos >= old(self).simbolos.len() ==> r == Err::<(), ErroGeracao>(ErroGeracao::FimInesperado)
                && final(self).pos == old(self).pos,
            final(self).estado() == old(self).estado().em(final(self).pos as nat),
            final(self).simbolos == old(self).simbolos,
            final(self).variaveis == old(self).variaveis,
            final(self).codigo_amem == old(self).codigo_amem,
            final(self).codigo == old(self).codigo,
            final(self).pilha == old(self).pilha,
            final(self).rotulos == old(self).rotulos,
            final(self).contador_rotulo == old(self).contador_rotulo,
            old(self).passo_valido(final(self)),
    {
        if self.pos >= self.simbolos.len() {
            return Err(ErroGeracao::FimInesperado);
        }
        self.pos = self.pos + 1;
        Ok(())
    }

    // Adds one instruction to the code.
    fn gera_mepa(&mut self, codigo: String)
        requires
            old(self).wf(),
        ensures
            final(self).cod() == old(self).cod().push(codigo@),
            final(self).estado() == old(self).estado().emite(codigo@),
            old(self).mesma_leitura(final(self)),
            final(self).pilha == old(self).pilha,
            old(self).passo_valido(final(self)),
    {
        let ghost antes = self.codigo@;
        self.codigo.push(codigo);
        assert(vista_textos(self.codigo@) =~= vista_textos(antes).push(codigo@));
    }

    /// Makes the next label, for the construct `token`: it is named `L` and
    /// the counter, and the counter goes up by one.
    pub fn cria_rotulo(&mut self, token: String)
        requires
            old(self).rotulos_wf(),
            old(self).contador_rotulo < i32::MAX,
        ensures
            final(self).rotulos_wf(),
            final(self).rotulos@ == old(self).rotulos@.push(final(self).rotulos@.last()),
            final(self).rotulos@.last().tok@ == token@,
            final(self).estado() == old(self).estado().rotula(token@),
            final(self).contador_rotulo == old(self).contador_rotulo + 1,
            final(self).simbolos == old(self).simbolos,
            final(self).pos == old(self).pos,
            final(self).variaveis == old(self).variaveis,
            final(self).codigo_amem == old(self).codigo_amem,
            final(self).codigo == old(self).codigo,
            final(self).pilha == old(self).pilha,
            old(self).wf() && old(self).contador_rotulo + old(self).restantes() < i32::MAX ==> final(self).wf(),
            final(self).contador_rotulo + final(self).restantes() == old(self).contador_rotulo + old(self).restantes() + 1,
            forall|i: int| 0 <= i < old(self).rotulos.len() ==> #[trigger] final(self).rotulos@[i] == old(self).rotulos@[i],
            final(self).rotulos.len() == old(self).rotulos.len() + 1,
    {
        let ghost antes = self.rotulos@;
        let nome = junta("L", texto_i32(self.contador_rotulo).as_str());
        let rotulo = Rotulo { tok: token, rotulo: nome, numero: self.contador_rotulo };
        self.rotulos.push(rotulo);
        self.contador_rotulo = self.contador_rotulo + 1;
        assert(toks_rotulos(self.rotulos@) =~= toks_rotulos(antes).push(token@));
    }

    // The name of the first label made for the construct `token`, or the
    // empty text.
    fn procura_rotulo(&self, token: &String) -> (r: String)
        ensures
            (exists|i: int| 0 <= i < self.rotulos.len() && #[trigger] self.rotulos@[i].tok@ == token@) ==> (
                exists|i: int|
                    0 <= i < self.rotulos.len() && self.rotulos@[i].tok@ == token@ && r@ == self.rotulos@[i].rotulo@
                        && forall|j: int| 0 <= j < i ==> #[trigger] self.rotulos@[j].tok@ != token@),
            !(exists|i: int| 0 <= i < self.rotulos.len() && #[trigger] self.rotulos@[i].tok@ == token@) ==> r@.len() == 0,
    {
        let mut i: usize = 0;
        while i < self.rotulos.len()
            invariant
                i <= self.rotulos.len(),
                forall|j: int| 0 <= j < i ==> #[trigger] self.rotulos@[j].tok@ != token@,
            decreases self.rotulos.len() - i,
        {
            if self.rotulos[i].tok == *token {
                return self.rotulos[i].rotulo.clone();
            }
            i = i + 1;
        }
        String::new()
    }

    /// The name of the first label numbered `num`, or the empty text.
    pub fn procura_rotulo_numero(&self, num: i32) -> (r: String)
        requires
            self.rotulos_wf(),
        ensures
            r@ == busca_rotulo(self.rotulos@, num),
            0 <= num < self.contador_rotulo ==> r@ == rotulo_nome(num as int),
            !(0 <= num < self.contador_rotulo) ==> r@.len() == 0,
    {
        let mut i: usize = 0;
        assert(self.rotulos@.subrange(0, self.rotulos.len() as int) =~= self.rotulos@);
        while i < self.rotulos.len()
            invariant
                self.rotulos_wf(),
                i <= self.rotulos.len(),
                forall|j: int| 0 <= j < i ==> #[trigger] self.rotulos@[j].numero != num,
                busca_rotulo(self.rotulos@, num) == busca_rotulo(self.rotulos@.subrange(i as int, self.rotulos.len() as int), num),
            decreases self.rotulos.len() - i,
        {
            assert(self.rotulos@.subrange(i as int, self.rotulos.len() as int).drop_first()
                =~= self.rotulos@.subrange(i + 1, self.rotulos.len() as int));
            if self.rotulos[i].numero == num {
                return self.rotulos[i].rotulo.clone();
            }
            i = i + 1;
        }
        proof {
            assert(self.rotulos@.subrange(i as int, self.rotulos.len() as int) =~= Seq::<Rotulo>::empty());
            if 0 <= num < self.contador_rotulo {
                assert(self.rotulos@[num as int].numero == num);
            }
        }
        String::new()
    }

    // Pushes an operator onto the stack.
    fn empilha(&mut self, x: String)
        ensures
            final(self).pil() == old(self).pil().push(x@),
            old(self).mesma_leitura(final(self)),
            final(self).codigo == old(self).codigo,
    {
        let ghost antes = self.pilha@;
        self.pilha.push(x);
        assert(vista_textos(self.pilha@) =~= vista_textos(antes).push(x@));
    }

    // Pops the operator on top of the stack; the text `None` when the stack
    // is empty.
    fn desempilha(&mut self) -> (r: String)
        ensures
            old(self).pil().len() == 0 ==> r@ == "None"@ && final(self).pil() == old(self).pil(),
            old(self).pil().len() > 0 ==> r@ == old(self).pil().last() && final(self).pil() == old(self).pil().drop_last(),
            old(self).mesma_leitura(final(self)),
            final(self).codigo == old(self).codigo,
    {
        let ghost antes = self.pilha@;
        match self.pilha.pop() {
            Some(x) => {
                assert(vista_textos(self.pilha@) =~= vista_textos(antes).drop_last());
                x
            },
            None => "None".to_owned(),
        }
    }

    // The position of the first variable named `tok`, or -1.
    fn procura_var(&self, tok: &String) -> (r: i32)
        ensures
            r == procura_var_spec(self.vars(), tok@),
    {
        let mut i: usize = 0;
        assert(self.vars().subrange(0, self.vars().len() as int) =~= self.vars());
        while i < self.variaveis.len()
            invariant
                i <= self.variaveis.len(),
                procura_var_spec(self.vars().subrange(i as int, self.vars().len() as int), tok@) == procura_var_spec(self.vars(), tok@),
            decreases self.variaveis.len() - i,
        {
            let ghost resto = self.vars().subrange(i as int, self.vars().len() as int);
            assert(resto[0] == (self.variaveis@[i as int].tok@, self.variaveis@[i as int].posicao));
            if self.variaveis[i].tok == *tok {
                return self.variaveis[i].posicao;
            }
            assert(resto.drop_first() =~= self.vars().subrange(i + 1, self.vars().len() as int));
            i = i + 1;
        }
        assert(self.vars().subrange(i as int, self.vars().len() as int) =~= Seq::<(Seq<char>, i32)>::empty());
        -1
    }
}

/// Once the compilation of a prefix of an expression goes round without
/// end, so does the compilation of the whole.
proof fn lemma_traduz_none(t: Traducao, e: Seq<(Seq<char>, Tokens)>, vars: Seq<(Seq<char>, i32)>, k: int)
    requires
        0 <= k <= e.len(),
        traduz(t, e.subrange(0, k), vars) is None,
    ensures
        traduz(t, e, vars) is None,
    decreases e.len(),
{
    if k == e.len() {
        assert(e.subrange(0, k) =~= e);
    } else {
        assert(e.drop_last().subrange(0, k) =~= e.subrange(0, k));
        lemma_traduz_none(t, e.drop_last(), vars, k);
    }
}

impl GeradorMEPA {
    /// The code of `depois` starts with the code of this state.
    pub open spec fn codigo_estende(&self, depois: &GeradorMEPA) -> bool {
        &&& depois.codigo.len() >= self.codigo.len()
        &&& forall|i: int| 0 <= i < self.codigo.len() ==> #[trigger] depois.cod()[i] == self.cod()[i]
    }

    /// Compiles an expression (see `expressao_spec`): its code is added
    /// and the stack of operators changes accordingly.
    pub fn expressao_mepa(&mut self, expr: Vec<Simbolo>) -> (r: Result<(), ErroGeracao>)
        requires
            old(self).wf(),
        ensures
            match expressao_spec(old(self).traducao(), vista_simbolos(expr@), old(self).vars()) {
                None => r == Err::<(), ErroGeracao>(ErroGeracao::SemFim),
                Some(t) => r is Ok && final(self).traducao() == t && final(self).estado() == old(self).estado().com(t),
            },
            old(self).mesma_leitura(final(self)),
            old(self).passo_valido(final(self)),
    {
        let ghost e = vista_simbolos(expr@);
        let ghost vars = self.vars();
        let mut i: usize = 0;
        self.empilha("(".to_owned());
        let ghost t0 = self.traducao();
        assert(e.subrange(0, 0) =~= Seq::<(Seq<char>, Tokens)>::empty());
        while i < expr.len()
            invariant
                e == vista_simbolos(expr@),
                vars == self.vars(),
                t0 == (Traducao { codigo: old(self).cod(), pilha: old(self).pil().push("("@) }),
                i <= expr.len(),
                traduz(t0, e.subrange(0, i as int), vars) == Some(self.traducao()),
                self.wf(),
                old(self).mesma_leitura(self),
                old(self).codigo_estende(self),
            decreases expr.len() - i,
        {
            let ghost antes = self.traducao();
            assert(e.subrange(0, i + 1).drop_last() =~= e.subrange(0, i as int));
            assert(e.subrange(0, i + 1).last() == e[i as int]);
            assert(e[i as int] == (expr@[i as int].tok@, expr@[i as int].tipo));
            let simbolo = &expr[i];
            match simbolo.tipo {
                Tokens::True => {
                    self.gera_mepa("CRCT 1".to_owned());
                },
                Tokens::False => {
                    self.gera_mepa("CRCT 0".to_owned());
                },
                Tokens::Numero => {
                    self.gera_mepa(junta("CRCT ", simbolo.tok.as_str()));
                },
                Tokens::Identificador => {
                    let posicao = self.procura_var(&simbolo.tok);
                    self.gera_mepa(junta("CRVL ", texto_i32(posicao).as_str()));
                },
                Tokens::AbreParenteses => {
                    self.empilha("(".to_owned());
                },
                Tokens::FechaParenteses | Tokens::PontoVirgula | Tokens::Then | Tokens::Else | Tokens::Virgula
                | Tokens::Do => {
                    let ghost alvo = fecha(antes);
                    loop
                        invariant_except_break
                            fecha(self.traducao()) == alvo,
                        invariant
                            self.wf(),
                            old(self).mesma_leitura(self),
                            old(self).codigo_estende(self),
                            vars == self.vars(),
                            e == vista_simbolos(expr@),
                            i < expr.len(),
                            t0 == (Traducao { codigo: old(self).cod(), pilha: old(self).pil().push("("@) }),
                            traduz(t0, e.subrange(0, i + 1), vars) == alvo,
                        ensures
                            alvo == Some(self.traducao()),
                        decreases self.pilha.len(),
                    {
                        if self.pilha.len() == 0 {
                            proof {
                                lemma_traduz_none(t0, e, vars, i + 1);
                            }
                            return Err(ErroGeracao::SemFim);
                        }
                        assert(self.pil().len() > 0);
                        let aux = self.desempilha();
                        if !mesmo_texto(aux.as_str(), "(") {
                            let inst = instrucao(&aux);
                            self.gera_mepa(inst);
                        } else {
                            break;
                        }
                    }
                },
                Tokens::Mais | Tokens::Menos | Tokens::Multiplicacao | Tokens::Divisao | Tokens::Menor
                | Tokens::MenorIgual | Tokens::Maior | Tokens::MaiorIgual | Tokens::Igual | Tokens::Diferente
                | Tokens::And => {
                    let ghost alvo = opera(antes, simbolo.tok@);
                    loop
                        invariant_except_break
                            opera(self.traducao(), simbolo.tok@) == alvo,
                        invariant
                            self.wf(),
                            old(self).mesma_leitura(self),
                            old(self).codigo_estende(self),
                            vars == self.vars(),
                            e == vista_simbolos(expr@),
                            i < expr.len(),
                            t0 == (Traducao { codigo: old(self).cod(), pilha: old(self).pil().push("("@) }),
                            traduz(t0, e.subrange(0, i + 1), vars) == alvo,
                        ensures
                            alvo == Some(self.traducao()),
                        decreases self.pilha.len(),
                    {
                        let vazia = self.pilha.len() == 0;
                        let ghost p0 = self.pil();
                        let aux = self.desempilha();
                        let aux2 = aux.clone();
                        if prioridade(&simbolo.tok, &aux) {
                            self.empilha(aux2);
                            self.empilha(simbolo.tok.clone());
                            proof {
                                if vazia {
                                    assert(self.pil() =~= seq!["None"@, simbolo.tok@]);
                                } else {
                                    assert(self.pil() =~= p0.push(simbolo.tok@));
                                }
                            }
                            break;
                        } else {
                            if vazia {
                                proof {
                                    lemma_traduz_none(t0, e, vars, i + 1);
                                }
                                return Err(ErroGeracao::SemFim);
                            }
                            self.gera_mepa(instrucao(&aux2));
                        }
                    }
                },
                _ => {},
            }
            i = i + 1;
        }
        assert(e.subrange(0, i as int) =~= e);
        Ok(())
    }
}

impl GeradorMEPA {
    // Reads the symbols of an expression from the next one (see `le_expr`):
    // the first whatever it is, up to and including the first of kind `a`
    // or `b`, which is read too unless it is of kind `deixa`.
    fn le_expressao(&mut self, a: Tokens, b: Tokens, deixa: Option<Tokens>) -> (r: Result<Vec<Simbolo>, ErroGeracao>)
        requires
            old(self).wf(),
        ensures
            old(self).passo_valido(final(self)),
            final(self).codigo == old(self).codigo,
            final(self).pilha == old(self).pilha,
            final(self).rotulos == old(self).rotulos,
            final(self).contador_rotulo == old(self).contador_rotulo,
            final(self).codigo_amem == old(self).codigo_amem,
            final(self).estado() == old(self).estado().em(final(self).pos as nat),
            match le_expr(old(self).simbs(), old(self).pos as nat, a, b) {
                None => r == Err::<Vec<Simbolo>, ErroGeracao>(ErroGeracao::FimInesperado),
                Some((ex, p)) => r matches Ok(v) && vista_simbolos(v@) == ex && final(self).pos == (if deixa
                    == Some(ex.last().1) {
                    p - 1
                } else {
                    p as int
                }),
            },
    {
        let ghost s = self.simbs();
        let ghost p0 = self.pos as nat;
        let mut expressao = vec![self.prox_simbolo()?];
        self.consome()?;
        assert(vista_simbolos(expressao@) =~= s.subrange(p0 as int, self.pos as int));
        loop
            invariant_except_break
                vista_simbolos(expressao@) == s.subrange(p0 as int, self.pos as int),
                primeiro(s, p0 + 1, a, b) == primeiro(s, self.pos as nat, a, b),
            invariant
                s == self.simbs(),
                p0 == old(self).pos,
                p0 < s.len(),
                self.pos >= p0 + 1,
                old(self).passo_valido(self),
                self.codigo == old(self).codigo,
                self.pilha == old(self).pilha,
                self.rotulos == old(self).rotulos,
                self.contador_rotulo == old(self).contador_rotulo,
                self.codigo_amem == old(self).codigo_amem,
                self.estado() == old(self).estado().em(self.pos as nat),
            ensures
                le_expr(s, p0, a, b) matches Some((ex, p)) && vista_simbolos(expressao@) == ex && self.pos == (
                if deixa == Some(ex.last().1) {
                    p - 1
                } else {
                    p as int
                }),
            decreases self.restantes(),
        {
            let simbolo = self.prox_simbolo()?;
            if simbolo.tipo == a || simbolo.tipo == b {
                let ghost q = self.pos;
                let ghost antes = expressao@;
                let x = self.prox_simbolo()?;
                expressao.push(x);
                assert(vista_simbolos(expressao@) =~= vista_simbolos(antes).push((x.tok@, x.tipo)));
                assert(primeiro(s, q as nat, a, b) == q);
                assert(vista_simbolos(expressao@) =~= s.subrange(p0 as int, q + 1));
                let fica = match deixa {
                    Some(k) => k == simbolo.tipo,
                    None => false,
                };
                if !fica {
                    self.consome()?;
                }
                break;
            }
            let ghost antes = expressao@;
            let x = self.prox_simbolo()?;
            expressao.push(x);
            assert(vista_simbolos(expressao@) =~= vista_simbolos(antes).push((x.tok@, x.tipo)));
            self.consome()?;
            assert(vista_simbolos(expressao@) =~= s.subrange(p0 as int, self.pos as int));
        }
        Ok(expressao)
    }

    /// Writes the code of the program (see `leitura`): `INPP`; the symbols
    /// up to the first `begin` are passed over, and that `begin` too; the
    /// reservations of memory are moved to the code; then the statements.
    #[verifier::rlimit(60)]
    pub fn inicio_leitura(&mut self) -> (r: Result<(), ErroGeracao>)
        requires
            old(self).wf(),
        ensures
            old(self).passo_valido(final(self)),
            confere(
                r,
                final(self).estado(),
                leitura(old(self).simbs(), old(self).vars(), vista_textos(old(self).codigo_amem@), old(self).estado()),
            ),
            r is Ok ==> final(self).codigo_amem@.len() == 0,
    {
        let ghost s = self.simbs();
        let ghost e0 = self.estado();
        let ghost amem = vista_textos(self.codigo_amem@);
        self.gera_mepa("INPP".to_owned());
        loop
            invariant_except_break
                primeiro(s, e0.pos, Tokens::Begin, Tokens::Begin) == primeiro(s, self.pos as nat, Tokens::Begin, Tokens::Begin),
            invariant
                old(self).passo_valido(self),
                s == self.simbs(),
                e0 == old(self).estado(),
                amem == vista_textos(old(self).codigo_amem@),
                self.codigo_amem == old(self).codigo_amem,
                self.estado() == e0.emite("INPP"@).em(self.pos as nat),
            ensures
                primeiro(s, e0.pos, Tokens::Begin, Tokens::Begin) == self.pos,
                self.pos < s.len(),
            decreases self.restantes(),
        {
            let x = self.prox_simbolo()?;
            if x.tipo == Tokens::Begin {
                break;
            }
            self.consome()?;
        }
        self.consome()?;
        let ghost q = self.pos;
        let ghost base = self.estado();
        assert(amem.subrange(0, 0) =~= Seq::<Seq<char>>::empty());
        assert(base.codigo + amem.subrange(0, 0) =~= base.codigo);
        while self.codigo_amem.len() > 0
            invariant
                old(self).passo_valido(self),
                s == self.simbs(),
                self.codigo_amem@.len() <= amem.len(),
                vista_textos(self.codigo_amem@) == amem.subrange(amem.len() - self.codigo_amem@.len(), amem.len() as int),
                self.estado() == (Estado {
                    pos: base.pos,
                    codigo: base.codigo + amem.subrange(0, amem.len() - self.codigo_amem@.len()),
                    pilha: base.pilha,
                    rotulos: base.rotulos,
                }),
            decreases self.codigo_amem.len(),
        {
            let ghost k = amem.len() - self.codigo_amem@.len();
            let ghost resto = self.codigo_amem@;
            assert(vista_textos(resto)[0] == resto[0]@);
            let c = self.codigo_amem.remove(0);
            assert(c@ == amem[k]);
            assert(vista_textos(self.codigo_amem@) =~= vista_textos(resto).drop_first());
            assert(base.codigo + amem.subrange(0, k + 1) =~= (base.codigo + amem.subrange(0, k)).push(c@));
            self.gera_mepa(c);
        }
        assert(amem.subrange(0, amem.len() as int) =~= amem);
        self.inicio_programa()
    }

    // The statements of a block (see `bloco`), up to the `end`, which is left
    // to read.
    #[verifier::rlimit(60)]
    fn inicio_programa(&mut self) -> (r: Result<(), ErroGeracao>)
        requires
            old(self).wf(),
        ensures
            old(self).passo_valido(final(self)),
            final(self).codigo_amem == old(self).codigo_amem,
            confere(r, final(self).estado(), bloco(old(self).simbs(), old(self).vars(), old(self).estado())),
        decreases old(self).restantes(), 2nat,
    {
        let ghost s = self.simbs();
        let ghost vars = self.vars();
        let mut simbolo = self.prox_simbolo()?;
        if simbolo.tipo == Tokens::Begin {
            self.consome()?;
        }
        simbolo = self.prox_simbolo()?;
        loop
            invariant_except_break
                bloco(s, vars, old(self).estado()) == sequencia(s, vars, self.estado()),
            invariant
                old(self).passo_valido(self),
                self.codigo_amem == old(self).codigo_amem,
                s == self.simbs(),
                vars == self.vars(),
                self.proximo() matches Some(x) && x.1 == simbolo.tipo,
            ensures
                bloco(s, vars, old(self).estado()) == Ok::<Estado, ErroGeracao>(self.estado()),
            decreases self.restantes(),
        {
            match simbolo.tipo {
                Tokens::Identificador => self.atribuicao()?,
                Tokens::If => self.if_statement()?,
                Tokens::While => self.while_statement()?,
                Tokens::Read => self.read_statement()?,
                Tokens::Write => self.write_statement()?,
                Tokens::For => self.for_statement()?,
                Tokens::Repeat => self.repeat_statement()?,
                _ => {
                    if simbolo.tipo != Tokens::End {
                        return Err(ErroGeracao::SemFim);
                    }
                },
            }
            simbolo = self.prox_simbolo()?;
            if simbolo.tipo == Tokens::End {
                break;
            }
        }
        Ok(())
    }

    // An assignment (see `atribuicao_spec`).
    fn atribuicao(&mut self) -> (r: Result<(), ErroGeracao>)
        requires
            old(self).wf(),
        ensures
            old(self).passo_valido(final(self)),
            final(self).codigo_amem == old(self).codigo_amem,
            confere(r, final(self).estado(), atribuicao_spec(old(self).simbs(), old(self).vars(), old(self).estado())),
            r is Ok ==> final(self).pos > old(self).pos,
    {
        let mut simbolo = self.prox_simbolo()?;
        let posicao = self.procura_var(&simbolo.tok);
        self.consome()?;
        self.consome()?;
        if posicao >= 0 {
            let expressao = self.le_expressao(Tokens::Else, Tokens::PontoVirgula, Some(Tokens::Else))?;
            self.expressao_mepa(expressao)?;
            simbolo = self.prox_simbolo()?;
            if simbolo.tipo == Tokens::PontoVirgula {
                self.consome()?;
            }
            self.gera_mepa(junta("ARMZ ", texto_i32(posicao).as_str()));
        }
        Ok(())
    }

    // The label's name, a blank and `NADA`.
    fn nada(&self, rotulo: i32) -> (r: String)
        requires
            self.wf(),
        ensures
            0 <= rotulo < self.contador_rotulo ==> r@ == rotulo_nome(rotulo as int) + " NADA"@,
    {
        let nome = self.procura_rotulo_numero(rotulo);
        junta(nome.as_str(), " NADA")
    }

    // An `if` (see `se`).
    fn if_statement(&mut self) -> (r: Result<(), ErroGeracao>)
        requires
            old(self).wf(),
        ensures
            old(self).passo_valido(final(self)),
            final(self).codigo_amem == old(self).codigo_amem,
            confere(r, final(self).estado(), se(old(self).simbs(), old(self).vars(), old(self).estado())),
            r is Ok ==> final(self).pos > old(self).pos,
        decreases old(self).restantes(), 1nat,
    {
        self.consome()?;
        let expressao = self.le_expressao(Tokens::Then, Tokens::Then, None)?;
        self.expressao_mepa(expressao)?;
        self.cria_rotulo("if".to_owned());
        let rotulo = self.contador_rotulo - 1;
        self.gera_mepa(junta("DSVF ", self.procura_rotulo_numero(rotulo).as_str()));
        self.statement()?;
        let simbolo = self.prox_simbolo()?;
        if simbolo.tipo == Tokens::Else {
            self.consome()?;
            self.cria_rotulo("else".to_owned());
            let rotulo2 = self.contador_rotulo - 1;
            self.gera_mepa(junta("DSVS ", self.procura_rotulo_numero(rotulo2).as_str()));
            let n = self.nada(rotulo);
            self.gera_mepa(n);
            self.statement()?;
            let n2 = self.nada(rotulo2);
            self.gera_mepa(n2);
        } else {
            let n = self.nada(rotulo);
            self.gera_mepa(n);
        }
        Ok(())
    }

    // A statement inside another (see `comando`).
    fn statement(&mut self) -> (r: Result<(), ErroGeracao>)
        requires
            old(self).wf(),
        ensures
            old(self).passo_valido(final(self)),
            final(self).codigo_amem == old(self).codigo_amem,
            confere(r, final(self).estado(), comando(old(self).simbs(), old(self).vars(), old(self).estado())),
        decreases old(self).restantes(), 3nat,
    {
        let simbolo = self.prox_simbolo()?;
        match simbolo.tipo {
            Tokens::Identificador => {
                let seguinte = self.lookahead();
                match seguinte.tipo {
                    Tokens::AbreColchete | Tokens::Ponto | Tokens::Atribuicao => self.atribuicao(),
                    _ => Ok(()),
                }
            },
            Tokens::If => self.if_statement(),
            Tokens::While => self.while_statement(),
            Tokens::For => self.for_statement(),
            Tokens::Begin => self.inicio_programa(),
            Tokens::Read => self.read_statement(),
            Tokens::Write => self.write_statement(),
            _ => Ok(()),
        }
    }

    // A `while` (see `enquanto`).
    fn while_statement(&mut self) -> (r: Result<(), ErroGeracao>)
        requires
            old(self).wf(),
        ensures
            old(self).passo_valido(final(self)),
            final(self).codigo_amem == old(self).codigo_amem,
            confere(r, final(self).estado(), enquanto(old(self).simbs(), old(self).vars(), old(self).estado())),
            r is Ok ==> final(self).pos > old(self).pos,
        decreases old(self).restantes(), 1nat,
    {
        self.consome()?;
        self.cria_rotulo("while".to_owned());
        let rotulo1 = self.contador_rotulo;
        let n = self.nada(self.contador_rotulo - 1);
        self.gera_mepa(n);
        proof {
            lemma_le_expr(self.simbs(), self.pos as nat, Tokens::Do, Tokens::Do);
        }
        let expressao = self.le_expressao(Tokens::Do, Tokens::Do, None)?;
        self.expressao_mepa(expressao)?;
        self.cria_rotulo("do".to_owned());
        let rotulo2 = self.contador_rotulo;
        self.gera_mepa(junta("DSVF ", self.procura_rotulo_numero(rotulo2 - 1).as_str()));
        self.statement()?;
        self.gera_mepa(junta("DSVS ", self.procura_rotulo_numero(rotulo1 - 1).as_str()));
        let n2 = self.nada(rotulo2 - 1);
        self.gera_mepa(n2);
        Ok(())
    }

    // A `read` (see `leia`).
    fn read_statement(&mut self) -> (r: Result<(), ErroGeracao>)
        requires
            old(self).wf(),
        ensures
            old(self).passo_valido(final(self)),
            final(self).codigo_amem == old(self).codigo_amem,
            confere(r, final(self).estado(), leia(old(self).simbs(), old(self).estado())),
            r is Ok ==> final(self).pos > old(self).pos,
    {
        let ghost s = self.simbs();
        self.consome()?;
        self.consome()?;
        loop
            invariant_except_break
                leia(s, old(self).estado()) == leia_lista(s, self.estado()),
            invariant
                old(self).passo_valido(self),
                self.codigo_amem == old(self).codigo_amem,
                self.pos > old(self).pos,
                s == self.simbs(),
            ensures
                leia(s, old(self).estado()) == (if self.pos + 1 > s.len() {
                    Err(ErroGeracao::FimInesperado)
                } else {
                    Ok(self.estado().em((self.pos + 1) as nat))
                }),
            decreases self.restantes(),
        {
            let simbolo = self.prox_simbolo()?;
            match simbolo.tipo {
                Tokens::Identificador => {
                    self.gera_mepa("LEIT".to_owned());
                    self.gera_mepa(junta("ARMZ ", simbolo.tok.as_str()));
                    self.consome()?;
                },
                Tokens::Virgula => self.consome()?,
                _ => {
                    self.consome()?;
                    break;
                },
            }
        }
        self.consome()
    }

    // A `write` (see `escreva`).
    fn write_statement(&mut self) -> (r: Result<(), ErroGeracao>)
        requires
            old(self).wf(),
        ensures
            old(self).passo_valido(final(self)),
            final(self).codigo_amem == old(self).codigo_amem,
            confere(r, final(self).estado(), escreva(old(self).simbs(), old(self).vars(), old(self).estado())),
            r is Ok ==> final(self).pos > old(self).pos,
    {
        let ghost s = self.simbs();
        let ghost vars = self.vars();
        self.consome()?;
        self.consome()?;
        loop
            invariant_except_break
                escreva(s, vars, old(self).estado()) == escreva_lista(s, vars, self.estado()),
            invariant
                old(self).passo_valido(self),
                self.codigo_amem == old(self).codigo_amem,
                self.pos > old(self).pos,
                s == self.simbs(),
                vars == self.vars(),
            ensures
                self.pos < s.len(),
                escreva(s, vars, old(self).estado()) == Ok::<Estado, ErroGeracao>(self.estado().em((self.pos + 1) as nat)),
            decreases self.restantes(),
        {
            proof {
                lemma_le_expr(s, self.pos as nat, Tokens::Virgula, Tokens::FechaParenteses);
            }
            let expressao = self.le_expressao(Tokens::Virgula, Tokens::FechaParenteses, None)?;
            self.expressao_mepa(expressao)?;
            self.gera_mepa("IMPR".to_owned());
            let simbolo = self.prox_simbolo()?;
            if simbolo.tipo == Tokens::AbreParenteses || simbolo.tipo == Tokens::PontoVirgula {
                break;
            }
        }
        self.consome()
    }

    // A `for` (see `para`).
    fn for_statement(&mut self) -> (r: Result<(), ErroGeracao>)
        requires
            old(self).wf(),
        ensures
            old(self).passo_valido(final(self)),
            final(self).codigo_amem == old(self).codigo_amem,
            confere(r, final(self).estado(), para(old(self).simbs(), old(self).vars(), old(self).estado())),
            r is Ok ==> final(self).pos > old(self).pos,
        decreases old(self).restantes(), 1nat,
    {
        self.consome()?;
        let var_i = self.prox_simbolo()?.tok;
        self.consome()?;
        self.consome()?;
        let expressao = self.le_expressao(Tokens::To, Tokens::Downto, None)?;
        self.expressao_mepa(expressao)?;
        self.gera_mepa(junta("AMRZ ", var_i.as_str()));
        self.cria_rotulo("for".to_owned());
        let rotulo = self.contador_rotulo - 1;
        let n = self.nada(rotulo);
        self.gera_mepa(n);
        let posicao = self.procura_var(&var_i);
        self.gera_mepa(junta("CRVL ", texto_i32(posicao).as_str()));
        let expressao2 = self.le_expressao(Tokens::Do, Tokens::Do, None)?;
        self.expressao_mepa(expressao2)?;
        self.gera_mepa("CMEG".to_owned());
        self.cria_rotulo("do".to_owned());
        let rotulo2 = self.contador_rotulo - 1;
        self.gera_mepa(junta("DSVF ", self.procura_rotulo_numero(rotulo2).as_str()));
        self.statement()?;
        self.gera_mepa(junta("CRVL ", texto_i32(posicao).as_str()));
        self.gera_mepa("CRCT 1".to_owned());
        self.gera_mepa("SOMA".to_owned());
        self.gera_mepa(junta("ARMZ ", texto_i32(posicao).as_str()));
        self.gera_mepa(junta("DSVS ", self.procura_rotulo_numero(rotulo).as_str()));
        let n2 = self.nada(rotulo2);
        self.gera_mepa(n2);
        Ok(())
    }

    // A `repeat` (see `repete`).
    #[verifier::rlimit(60)]
    fn repeat_statement(&mut self) -> (r: Result<(), ErroGeracao>)
        requires
            old(self).wf(),
        ensures
            old(self).passo_valido(final(self)),
            final(self).codigo_amem == old(self).codigo_amem,
            confere(r, final(self).estado(), repete(old(self).simbs(), old(self).vars(), old(self).estado())),
            r is Ok ==> final(self).pos > old(self).pos,
        decreases old(self).restantes(), 1nat,
    {
        let ghost s = self.simbs();
        let ghost vars = self.vars();
        self.consome()?;
        self.cria_rotulo("repeat".to_owned());
        let rotulo = self.contador_rotulo - 1;
        let nome = self.procura_rotulo_numero(rotulo);
        self.gera_mepa(junta(nome.as_str(), "  NADA"));
        self.statement()?;
        self.prox_simbolo()?;
        loop
            invariant
                old(self).passo_valido(self),
                self.codigo_amem == old(self).codigo_amem,
                self.pos > old(self).pos,
                s == self.simbs(),
                vars == self.vars(),
                rotulo == old(self).contador_rotulo,
                rotulo < self.contador_rotulo,
                repete(s, vars, old(self).estado()) == repete_depois(s, vars, rotulo as int, repete_laco(s, vars, self.estado())),
            ensures
                self.proximo() matches Some(y) && y.1 == Tokens::Until,
                repete(s, vars, old(self).estado()) == repete_depois(s, vars, rotulo as int, Ok(self.estado())),
            decreases self.restantes(),
        {
            let x = self.prox_simbolo()?;
            if x.tipo == Tokens::Until {
                break;
            }
            let antes = self.pos;
            self.statement()?;
            if self.pos == antes {
                return Err(ErroGeracao::SemFim);
            }
        }
        self.consome()?;
        let expressao = self.le_expressao(Tokens::PontoVirgula, Tokens::PontoVirgula, None)?;
        self.expressao_mepa(expressao)?;
        self.gera_mepa(junta("DSVF ", self.procura_rotulo_numero(rotulo).as_str()));
        self.cria_rotulo("until".to_owned());
        let rotulo2 = self.contador_rotulo - 1;
        let n = self.nada(rotulo2);
        self.gera_mepa(n);
        Ok(())
    }
}

/// The generator only adds code: after any run of its steps, the code it had
/// starts the code it has, and the labels it had start the labels it has.
pub proof fn lei_codigo_so_cresce(a: &GeradorMEPA, b: &GeradorMEPA)
    requires
        a.passo_valido(b),
    ensures
        a.cod().is_prefix_of(b.cod()),
        a.rotulos@.is_prefix_of(b.rotulos@),
{
    assert(a.cod() =~= b.cod().subrange(0, a.cod().len() as int));
    assert(a.rotulos@ =~= b.rotulos@.subrange(0, a.rotulos@.len() as int));
}

/// Every label is named after its number, and so the labels of a program
/// are numbered from zero in the order they are made.
pub proof fn lei_rotulos_numerados(g: &GeradorMEPA)
    requires
        g.rotulos_wf(),
    ensures
        forall|i: int|
            0 <= i < g.rotulos.len() ==> #[trigger] g.rotulos@[i].numero == i && g.rotulos@[i].rotulo@ == rotulo_nome(i),
{
}

/// Each number below the counter of labels finds the label named after it,
/// and any other number finds nothing.
pub proof fn lei_rotulos_encontrados(g: &GeradorMEPA, num: i32)
    requires
        g.rotulos_wf(),
    ensures
        0 <= num < g.contador_rotulo ==> busca_rotulo(g.rotulos@, num) == rotulo_nome(num as int),
        !(0 <= num < g.contador_rotulo) ==> busca_rotulo(g.rotulos@, num) == Seq::<char>::empty(),
{
    lemma_busca_numerados(g.rotulos@, 0, num);
}

/// A label just made is found by its number, the number after it finds
/// nothing, and every label made before is found as before: for a generator
/// `depois` that holds the labels of `antes` and one more, with the counter
/// one higher.
pub proof fn lei_rotulo_criado(antes: &GeradorMEPA, depois: &GeradorMEPA)
    requires
        antes.rotulos_wf(),
        depois.rotulos_wf(),
        depois.rotulos@ == antes.rotulos@.push(depois.rotulos@.last()),
        depois.contador_rotulo == antes.contador_rotulo + 1,
    ensures
        busca_rotulo(depois.rotulos@, antes.contador_rotulo) == rotulo_nome(antes.contador_rotulo as int),
        busca_rotulo(depois.rotulos@, depois.contador_rotulo) == Seq::<char>::empty(),
        forall|n: i32| 0 <= n < antes.contador_rotulo ==> #[trigger] busca_rotulo(depois.rotulos@, n) == busca_rotulo(antes.rotulos@, n),
{
    lei_rotulos_encontrados(depois, antes.contador_rotulo);
    lei_rotulos_encontrados(depois, depois.contador_rotulo);
    assert forall|n: i32| 0 <= n < antes.contador_rotulo implies #[trigger] busca_rotulo(depois.rotulos@, n) == busca_rotulo(antes.rotulos@, n) by {
        lei_rotulos_encontrados(depois, n);
        lei_rotulos_encontrados(antes, n);
    }
}

} // verus!
