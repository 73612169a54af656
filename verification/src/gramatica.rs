//! What the parser does, as plain values: each rule of the grammar
//! is a function from the parser's state to the state after it, or to the
//! reason it stops. The functions follow the rules as the parser reads them,
//! token by token, with the lines of the table as they come.
//!
//! Where a rule goes on after a rule that calls itself, a test that the
//! state it goes on from holds fewer tokens (or no more) than the one it
//! started from comes first, so that each function plainly ends; the
//! parser's steps only remove tokens, and their proofs against these
//! functions (see `confere_sint`) show that on its states these tests
//! always hold.
use vstd::prelude::*;
use crate::lexer::{TokenVista, sem_primeiro};
use crate::parser::{achatar, par};
use crate::tokens::Tokens;

verus! {

/// Why the parser stops, as plain values (see `ErroSintatico`).
pub enum Falha {
    TokenInesperado(TokenVista, Tokens),
    TipoBasicoEsperado(Seq<char>),
    NumeroInteiroEsperado(Seq<char>),
    DirecaoEsperada(Seq<char>),
    FimInesperado,
}

/// The parser's state as plain values: the tokens still to read, line by
/// line, the line it reads from, the symbols it accepted and the variables
/// declared, each with its position.
#[verifier::ext_equal]
pub struct Leitura {
    pub tabela: Seq<Seq<TokenVista>>,
    pub linha: int,
    pub simbolos: Seq<(Seq<char>, Tokens)>,
    pub variaveis: Seq<(Seq<char>, i32)>,
}

impl Leitura {
    /// The state reading from line `l`.
    pub open spec fn na_linha(self, l: int) -> Leitura {
        Leitura { tabela: self.tabela, linha: l, simbolos: self.simbolos, variaveis: self.variaveis }
    }
}

/// The result of a step.
pub type Passo = Result<Leitura, Falha>;

/// The number of tokens still to read.
pub open spec fn resto(e: Leitura) -> nat {
    achatar(e.tabela).len()
}

/// The next token, with the state that reads from its line: the first token
/// of the current line, or of the next line when the current one is spent.
/// `None` when there is none.
pub open spec fn prox(e: Leitura) -> Option<(Leitura, TokenVista)> {
    if e.linha < 0 || e.linha >= e.tabela.len() {
        None
    } else {
        let l = if e.tabela[e.linha].len() == 0 { e.linha + 1 } else { e.linha };
        if l >= e.tabela.len() || e.tabela[l].len() == 0 {
            None
        } else {
            Some((e.na_linha(l), e.tabela[l][0]))
        }
    }
}

/// The kind of the second token of the current line; `Comentario` when the
/// line holds fewer than two.
pub open spec fn segundo(e: Leitura) -> Tokens {
    if 0 <= e.linha < e.tabela.len() && e.tabela[e.linha].len() > 1 {
        e.tabela[e.linha][1].tipo
    } else {
        Tokens::Comentario
    }
}

/// Token `t`, the first of the current line, accepted when it is of kind
/// `k`: it leaves the table and goes to the symbols.
pub open spec fn aceita(e: Leitura, t: TokenVista, k: Tokens) -> Passo {
    if t.tipo != k {
        Err(Falha::TokenInesperado(t, k))
    } else {
        Ok(
            Leitura {
                tabela: sem_primeiro(e.tabela, e.linha),
                linha: e.linha,
                simbolos: e.simbolos.push(par(t)),
                variaveis: e.variaveis,
            },
        )
    }
}

/// The next token accepted when it is of kind `k`.
pub open spec fn espera(e: Leitura, k: Tokens) -> Passo {
    match prox(e) {
        None => Err(Falha::FimInesperado),
        Some((e1, t)) => aceita(e1, t, k),
    }
}

/// Removing the first token of a line leaves one token fewer.
pub proof fn lemma_achatar_sem_primeiro(t: Seq<Seq<TokenVista>>, l: int)
    requires
        0 <= l < t.len(),
        t[l].len() > 0,
    ensures
        achatar(sem_primeiro(t, l)).len() + 1 == achatar(t).len(),
    decreases t.len(),
{
    let s = sem_primeiro(t, l);
    if l == 0 {
        assert(s.drop_first() =~= t.drop_first());
    } else {
        assert(s.drop_first() =~= sem_primeiro(t.drop_first(), l - 1));
        lemma_achatar_sem_primeiro(t.drop_first(), l - 1);
    }
}

/// Accepting a token leaves one token fewer.
pub proof fn lemma_aceita(e: Leitura, t: TokenVista, k: Tokens)
    requires
        0 <= e.linha < e.tabela.len(),
        e.tabela[e.linha].len() > 0,
    ensures
        aceita(e, t, k) matches Ok(e2) ==> resto(e2) + 1 == resto(e),
{
    if t.tipo == k {
        lemma_achatar_sem_primeiro(e.tabela, e.linha);
    }
}

/// Accepting the next token leaves one token fewer.
pub proof fn lemma_espera(e: Leitura, k: Tokens)
    ensures
        espera(e, k) matches Ok(e2) ==> resto(e2) + 1 == resto(e),
{
    if let Some((e1, t)) = prox(e) {
        lemma_aceita(e1, t, k);
    }
}

// identifier ::= IDENTIFICADOR
/// An identifier.
pub open spec fn identifier_g(e: Leitura) -> Passo {
    espera(e, Tokens::Identificador)
}

/// A sign: `+`, else `-`.
pub open spec fn sinal_g(e: Leitura) -> Passo {
    match prox(e) {
        None => Err(Falha::FimInesperado),
        Some((e1, t)) => aceita(e1, t, if t.tipo == Tokens::Mais { Tokens::Mais } else { Tokens::Menos }),
    }
}

/// A relational symbol: the one that comes, else `in`.
pub open spec fn relop_g(e: Leitura) -> Passo {
    match prox(e) {
        None => Err(Falha::FimInesperado),
        Some((e1, t)) => aceita(e1, t, if eh_relacional_g(t.tipo) { t.tipo } else { Tokens::In }),
    }
}

/// A relational symbol.
pub open spec fn eh_relacional_g(k: Tokens) -> bool {
    k == Tokens::Igual || k == Tokens::Menor || k == Tokens::Maior || k == Tokens::Diferente || k == Tokens::MaiorIgual
        || k == Tokens::MenorIgual
}

/// An adding operator: `+`, `-`, else `or`.
pub open spec fn addop_g(e: Leitura) -> Passo {
    match prox(e) {
        None => Err(Falha::FimInesperado),
        Some((e1, t)) => aceita(
            e1,
            t,
            if t.tipo == Tokens::Mais {
                Tokens::Mais
            } else if t.tipo == Tokens::Menos {
                Tokens::Menos
            } else {
                Tokens::Or
            },
        ),
    }
}

/// A multiplying operator: `*`, `/`, `div`, `mod`, else `and`.
pub open spec fn mulop_g(e: Leitura) -> Passo {
    match prox(e) {
        None => Err(Falha::FimInesperado),
        Some((e1, t)) => aceita(
            e1,
            t,
            if t.tipo == Tokens::Multiplicacao {
                Tokens::Multiplicacao
            } else if t.tipo == Tokens::Divisao {
                Tokens::Divisao
            } else if t.tipo == Tokens::Div {
                Tokens::Div
            } else if t.tipo == Tokens::Mod {
                Tokens::Mod
            } else {
                Tokens::And
            },
        ),
    }
}

// string ::= ' { identifier } ' | " { identifier } "
/// A string: its opening quote, identifiers up to a quote, and a closing
/// quote like the opening one.
pub open spec fn string_g(e: Leitura) -> Passo {
    match prox(e) {
        None => Err(Falha::FimInesperado),
        Some((e1, t)) => {
            let aspas = t.tipo != Tokens::Apostrofo;
            match aceita(e1, t, if aspas { Tokens::Aspas } else { Tokens::Apostrofo }) {
                Err(k) => Err(k),
                Ok(e2) => string_laco(e2, aspas),
            }
        },
    }
}

/// The identifiers of a string up to a quote, and the closing quote.
pub open spec fn string_laco(e: Leitura, aspas: bool) -> Passo
    decreases resto(e),
{
    match prox(e) {
        None => Err(Falha::FimInesperado),
        Some((e1, t)) => if t.tipo != Tokens::Apostrofo && t.tipo != Tokens::Aspas {
            match identifier_g(e1) {
                Err(k) => Err(k),
                Ok(e2) => {
                    proof {
                        lemma_espera(e1, Tokens::Identificador);
                    }
                    string_laco(e2, aspas)
                },
            }
        } else {
            aceita(e1, t, if aspas { Tokens::Aspas } else { Tokens::Apostrofo })
        },
    }
}

// number ::= NUMERO [ . NUMERO ]
/// A number, and a dot and a number after it when the dot is followed by a
/// number on its line.
pub open spec fn number_g(e: Leitura) -> Passo {
    match espera(e, Tokens::Numero) {
        Err(k) => Err(k),
        Ok(e1) => match prox(e1) {
            None => Err(Falha::FimInesperado),
            Some((e2, t)) => if t.tipo == Tokens::Ponto && segundo(e2) == Tokens::Numero {
                match aceita(e2, t, Tokens::Ponto) {
                    Err(k) => Err(k),
                    Ok(e3) => match espera(e3, Tokens::Numero) {
                        Err(k) => Err(k),
                        Ok(e4) => match prox(e4) {
                            None => Err(Falha::FimInesperado),
                            Some((e5, _)) => Ok(e5),
                        },
                    },
                }
            } else {
                Ok(e2)
            },
        },
    }
}

// expr ::= simple_expr [ relop simple_expr ]
/// An expression.
pub open spec fn expr_g(e: Leitura) -> Passo
    decreases resto(e), 4nat,
{
    match simple_expr_g(e) {
        Err(k) => Err(k),
        Ok(e1) => match prox(e1) {
            None => Err(Falha::FimInesperado),
            Some((e2, t)) => if eh_relacional_g(t.tipo) || t.tipo == Tokens::In {
                match relop_g(e2) {
                    Err(k) => Err(k),
                    Ok(e3) => if resto(e3) < resto(e) {
                        simple_expr_g(e3)
                    } else {
                        Err(Falha::FimInesperado)
                    },
                }
            } else {
                Ok(e2)
            },
        },
    }
}

// simple_expr ::= [+|-] term { addop term }
/// A simple expression.
pub open spec fn simple_expr_g(e: Leitura) -> Passo
    decreases resto(e), 3nat,
{
    match prox(e) {
        None => Err(Falha::FimInesperado),
        Some((e1, t)) => match (if t.tipo == Tokens::Mais || t.tipo == Tokens::Menos { sinal_g(e1) } else { Ok(e1) }) {
            Err(k) => Err(k),
            Ok(e2) => if resto(e2) > resto(e) {
                Err(Falha::FimInesperado)
            } else {
                match term_g(e2) {
                    Err(k) => Err(k),
                    Ok(e3) => if resto(e3) < resto(e) {
                        simple_expr_laco(e3)
                    } else {
                        Err(Falha::FimInesperado)
                    },
                }
            },
        },
    }
}

/// The `addop term` pairs of a simple expression.
pub open spec fn simple_expr_laco(e: Leitura) -> Passo
    decreases resto(e), 0nat,
{
    match prox(e) {
        None => Err(Falha::FimInesperado),
        Some((e1, t)) => if t.tipo != Tokens::Mais && t.tipo != Tokens::Menos && t.tipo != Tokens::Or {
            Ok(e1)
        } else {
            match addop_g(e1) {
                Err(k) => Err(k),
                Ok(e2) => if resto(e2) < resto(e) {
                    match term_g(e2) {
                        Err(k) => Err(k),
                        Ok(e3) => if resto(e3) < resto(e) {
                            simple_expr_laco(e3)
                        } else {
                            Err(Falha::FimInesperado)
                        },
                    }
                } else {
                    Err(Falha::FimInesperado)
                },
            }
        },
    }
}

// term ::= factor { mulop factor }
/// A term.
pub open spec fn term_g(e: Leitura) -> Passo
    decreases resto(e), 2nat,
{
    match factor_g(e) {
        Err(k) => Err(k),
        Ok(e1) => if resto(e1) < resto(e) {
            term_laco(e1)
        } else {
            Err(Falha::FimInesperado)
        },
    }
}

/// The `mulop factor` pairs of a term.
pub open spec fn term_laco(e: Leitura) -> Passo
    decreases resto(e), 0nat,
{
    match prox(e) {
        None => Err(Falha::FimInesperado),
        Some((e1, t)) => if t.tipo != Tokens::Multiplicacao && t.tipo != Tokens::Divisao && t.tipo != Tokens::Div
            && t.tipo != Tokens::Mod && t.tipo != Tokens::And {
            Ok(e1)
        } else {
            match mulop_g(e1) {
                Err(k) => Err(k),
                Ok(e2) => if resto(e2) < resto(e) {
                    match factor_g(e2) {
                        Err(k) => Err(k),
                        Ok(e3) => if resto(e3) < resto(e) {
                            term_laco(e3)
                        } else {
                            Err(Falha::FimInesperado)
                        },
                    }
                } else {
                    Err(Falha::FimInesperado)
                },
            }
        },
    }
}

// factor ::= identifier infipo | number | string | identifier [( expr_list )] | ( expr ) | not factor
/// A factor: a string, a number, an expression in brackets, `not` and a
/// factor, or `true`, `false` or an identifier followed by a list of
/// expressions in brackets or by selectors (see `infipo_g`).
pub open spec fn factor_g(e: Leitura) -> Passo
    decreases resto(e), 1nat,
{
    match prox(e) {
        None => Err(Falha::FimInesperado),
        Some((e1, t)) => if t.tipo == Tokens::Apostrofo || t.tipo == Tokens::Aspas {
            string_g(e1)
        } else if t.tipo == Tokens::Numero {
            number_g(e1)
        } else if t.tipo == Tokens::AbreParenteses {
            match aceita(e1, t, Tokens::AbreParenteses) {
                Err(k) => Err(k),
                Ok(e2) => if resto(e2) < resto(e) {
                    match expr_g(e2) {
                        Err(k) => Err(k),
                        Ok(e3) => espera(e3, Tokens::FechaParenteses),
                    }
                } else {
                    Err(Falha::FimInesperado)
                },
            }
        } else if t.tipo == Tokens::Not {
            match aceita(e1, t, Tokens::Not) {
                Err(k) => Err(k),
                Ok(e2) => if resto(e2) < resto(e) {
                    factor_g(e2)
                } else {
                    Err(Falha::FimInesperado)
                },
            }
        } else {
            let k = if t.tipo == Tokens::True {
                Tokens::True
            } else if t.tipo == Tokens::False {
                Tokens::False
            } else {
                Tokens::Identificador
            };
            match aceita(e1, t, k) {
                Err(k) => Err(k),
                Ok(e2) => if resto(e2) < resto(e) {
                    match prox(e2) {
                        None => Err(Falha::FimInesperado),
                        Some((e3, t3)) => if t3.tipo == Tokens::AbreParenteses {
                            match aceita(e3, t3, Tokens::AbreParenteses) {
                                Err(k) => Err(k),
                                Ok(e4) => if resto(e4) < resto(e) {
                                    match expr_list_g(e4) {
                                        Err(k) => Err(k),
                                        Ok(e5) => espera(e5, Tokens::FechaParenteses),
                                    }
                                } else {
                                    Err(Falha::FimInesperado)
                                },
                            }
                        } else {
                            infipo_g(e3)
                        },
                    }
                } else {
                    Err(Falha::FimInesperado)
                },
            }
        },
    }
}

// infipo ::= [ expr { , expr } ] infipo | . identifier infipo | Vazio
/// The selectors after an identifier: expressions in square brackets, or a
/// dot, an identifier and more selectors; or nothing.
pub open spec fn infipo_g(e: Leitura) -> Passo
    decreases resto(e), 1nat,
{
    match prox(e) {
        None => Err(Falha::FimInesperado),
        Some((e1, t)) => if t.tipo == Tokens::AbreColchete {
            match aceita(e1, t, Tokens::AbreColchete) {
                Err(k) => Err(k),
                Ok(e2) => if resto(e2) < resto(e) {
                    match expr_g(e2) {
                        Err(k) => Err(k),
                        Ok(e3) => if resto(e3) < resto(e) {
                            infipo_laco(e3)
                        } else {
                            Err(Falha::FimInesperado)
                        },
                    }
                } else {
                    Err(Falha::FimInesperado)
                },
            }
        } else if t.tipo == Tokens::Ponto {
            match aceita(e1, t, Tokens::Ponto) {
                Err(k) => Err(k),
                Ok(e2) => match identifier_g(e2) {
                    Err(k) => Err(k),
                    Ok(e3) => if resto(e3) < resto(e) {
                        infipo_g(e3)
                    } else {
                        Err(Falha::FimInesperado)
                    },
                },
            }
        } else {
            Ok(e1)
        },
    }
}

/// The `, expr` pairs inside square brackets, the closing bracket, and the
/// selectors after it.
pub open spec fn infipo_laco(e: Leitura) -> Passo
    decreases resto(e), 0nat,
{
    match prox(e) {
        None => Err(Falha::FimInesperado),
        Some((e1, t)) => if t.tipo != Tokens::Virgula {
            match aceita(e1, t, Tokens::FechaColchete) {
                Err(k) => Err(k),
                Ok(e2) => {
                    proof {
                        lemma_aceita(e1, t, Tokens::FechaColchete);
                    }
                    infipo_g(e2)
                },
            }
        } else {
            match aceita(e1, t, Tokens::Virgula) {
                Err(k) => Err(k),
                Ok(e2) => if resto(e2) < resto(e) {
                    match expr_g(e2) {
                        Err(k) => Err(k),
                        Ok(e3) => if resto(e3) < resto(e) {
                            infipo_laco(e3)
                        } else {
                            Err(Falha::FimInesperado)
                        },
                    }
                } else {
                    Err(Falha::FimInesperado)
                },
            }
        },
    }
}

// expr_list ::= expr { , expr }
/// A list of expressions.
pub open spec fn expr_list_g(e: Leitura) -> Passo
    decreases resto(e), 5nat,
{
    match expr_g(e) {
        Err(k) => Err(k),
        Ok(e1) => if resto(e1) < resto(e) {
            expr_list_laco(e1)
        } else {
            Err(Falha::FimInesperado)
        },
    }
}

/// The `, expr` pairs of a list of expressions.
pub open spec fn expr_list_laco(e: Leitura) -> Passo
    decreases resto(e), 0nat,
{
    match prox(e) {
        None => Err(Falha::FimInesperado),
        Some((e1, t)) => if t.tipo != Tokens::Virgula {
            Ok(e1)
        } else {
            match aceita(e1, t, Tokens::Virgula) {
                Err(k) => Err(k),
                Ok(e2) => if resto(e2) < resto(e) {
                    match expr_g(e2) {
                        Err(k) => Err(k),
                        Ok(e3) => if resto(e3) < resto(e) {
                            expr_list_laco(e3)
                        } else {
                            Err(Falha::FimInesperado)
                        },
                    }
                } else {
                    Err(Falha::FimInesperado)
                },
            }
        },
    }
}

/// One of the basic types, or else an identifier.
pub open spec fn tipo_basico_ou_identificador_g(e: Leitura) -> Passo {
    match prox(e) {
        None => Err(Falha::FimInesperado),
        Some((e1, t)) => if t.tipo == Tokens::Boolean || t.tipo == Tokens::Char || t.tipo == Tokens::Integer
            || t.tipo == Tokens::Real {
            aceita(e1, t, t.tipo)
        } else {
            identifier_g(e1)
        },
    }
}

// identifier_list ::= identifier { , identifier }
/// A list of identifiers.
pub open spec fn identifier_list_g(e: Leitura) -> Passo {
    match identifier_g(e) {
        Err(k) => Err(k),
        Ok(e1) => identifier_list_laco(e1),
    }
}

/// The `, identifier` pairs of a list of identifiers.
pub open spec fn identifier_list_laco(e: Leitura) -> Passo
    decreases resto(e),
{
    match prox(e) {
        None => Err(Falha::FimInesperado),
        Some((e1, t)) => if t.tipo != Tokens::Virgula {
            Ok(e1)
        } else {
            match aceita(e1, t, Tokens::Virgula) {
                Err(k) => Err(k),
                Ok(e2) => match identifier_g(e2) {
                    Err(k) => Err(k),
                    Ok(e3) => if resto(e3) < resto(e) {
                        identifier_list_laco(e3)
                    } else {
                        Err(Falha::FimInesperado)
                    },
                },
            }
        },
    }
}

// number_list ::= number { , number }
/// A list of numbers.
pub open spec fn number_list_g(e: Leitura) -> Passo {
    match number_g(e) {
        Err(k) => Err(k),
        Ok(e1) => number_list_laco(e1),
    }
}

/// The `, number` pairs of a list of numbers.
pub open spec fn number_list_laco(e: Leitura) -> Passo
    decreases resto(e),
{
    match prox(e) {
        None => Err(Falha::FimInesperado),
        Some((e1, t)) => if t.tipo != Tokens::Virgula {
            Ok(e1)
        } else {
            match aceita(e1, t, Tokens::Virgula) {
                Err(k) => Err(k),
                Ok(e2) => match number_g(e2) {
                    Err(k) => Err(k),
                    Ok(e3) => if resto(e3) < resto(e) {
                        number_list_laco(e3)
                    } else {
                        Err(Falha::FimInesperado)
                    },
                },
            }
        },
    }
}

// const ::= string | [+ | -] identifier | [+ | -] number
/// A constant: a string; or an optional sign, then an identifier or a
/// number.
pub open spec fn const_g(e: Leitura) -> Passo {
    match prox(e) {
        None => Err(Falha::FimInesperado),
        Some((e1, t)) => if t.tipo == Tokens::Apostrofo || t.tipo == Tokens::Aspas {
            string_g(e1)
        } else {
            match (if t.tipo == Tokens::Mais || t.tipo == Tokens::Menos { sinal_g(e1) } else { Ok(e1) }) {
                Err(k) => Err(k),
                Ok(e2) => match prox(e2) {
                    None => Err(Falha::FimInesperado),
                    Some((e3, t3)) => if t3.tipo == Tokens::Identificador {
                        identifier_g(e3)
                    } else {
                        number_g(e3)
                    },
                },
            }
        },
    }
}

// simple_type ::= identifier | ( identifier { , identifier } ) | const .. const
/// A simple type: an identifier; a bracket, an identifier, `, identifier`
/// pairs and the closing bracket; or a constant, two dots and a constant.
pub open spec fn simple_type_g(e: Leitura) -> Passo {
    match prox(e) {
        None => Err(Falha::FimInesperado),
        Some((e1, t)) => if t.tipo == Tokens::Identificador {
            identifier_g(e1)
        } else if t.tipo == Tokens::AbreParenteses {
            match aceita(e1, t, Tokens::AbreParenteses) {
                Err(k) => Err(k),
                Ok(e2) => match identifier_g(e2) {
                    Err(k) => Err(k),
                    Ok(e3) => simple_type_laco(e3),
                },
            }
        } else {
            match const_g(e1) {
                Err(k) => Err(k),
                Ok(e2) => match espera(e2, Tokens::Ponto) {
                    Err(k) => Err(k),
                    Ok(e3) => match espera(e3, Tokens::Ponto) {
                        Err(k) => Err(k),
                        Ok(e4) => const_g(e4),
                    },
                },
            }
        },
    }
}

/// The `, identifier` pairs of an enumeration, and its closing bracket.
pub open spec fn simple_type_laco(e: Leitura) -> Passo
    decreases resto(e),
{
    match prox(e) {
        None => Err(Falha::FimInesperado),
        Some((e1, t)) => if t.tipo != Tokens::Virgula {
            aceita(e1, t, Tokens::FechaParenteses)
        } else {
            match aceita(e1, t, Tokens::Virgula) {
                Err(k) => Err(k),
                Ok(e2) => match identifier_g(e2) {
                    Err(k) => Err(k),
                    Ok(e3) => if resto(e3) < resto(e) {
                        simple_type_laco(e3)
                    } else {
                        Err(Falha::FimInesperado)
                    },
                },
            }
        },
    }
}

// set of simple_type
/// A set type.
pub open spec fn set_of_g(e: Leitura) -> Passo {
    match espera(e, Tokens::ReservadaSet) {
        Err(k) => Err(k),
        Ok(e1) => match espera(e1, Tokens::Of) {
            Err(k) => Err(k),
            Ok(e2) => simple_type_g(e2),
        },
    }
}

// type ::= ^ identifier | array [ simple_type { , simple_type } ] of type | set of simple_type | record field_list end | simple_type
/// A type: a basic one, an identifier, an array, a set, a record, or a
/// simple type.
pub open spec fn type_g(e: Leitura) -> Passo
    decreases resto(e), 3nat,
{
    match prox(e) {
        None => Err(Falha::FimInesperado),
        Some((e1, t)) => if t.tipo == Tokens::Boolean || t.tipo == Tokens::Char || t.tipo == Tokens::Integer
            || t.tipo == Tokens::Real {
            aceita(e1, t, t.tipo)
        } else if t.tipo == Tokens::Identificador {
            identifier_g(e1)
        } else if t.tipo == Tokens::Array {
            array_g(e1)
        } else if t.tipo == Tokens::ReservadaSet {
            set_of_g(e1)
        } else if t.tipo == Tokens::Record {
            record_g(e1)
        } else {
            simple_type_g(e1)
        },
    }
}

// array [ simple_type { , simple_type } ] of type
/// An array type.
pub open spec fn array_g(e: Leitura) -> Passo
    decreases resto(e), 1nat,
{
    match espera(e, Tokens::Array) {
        Err(k) => Err(k),
        Ok(e1) => match espera(e1, Tokens::AbreColchete) {
            Err(k) => Err(k),
            Ok(e2) => match simple_type_g(e2) {
                Err(k) => Err(k),
                Ok(e3) => if resto(e3) < resto(e) {
                    array_laco(e3)
                } else {
                    Err(Falha::FimInesperado)
                },
            },
        },
    }
}

/// The `, simple_type` pairs of an array type, its closing bracket, `of`
/// and the type of its elements.
pub open spec fn array_laco(e: Leitura) -> Passo
    decreases resto(e), 0nat,
{
    match prox(e) {
        None => Err(Falha::FimInesperado),
        Some((e1, t)) => if t.tipo == Tokens::Virgula {
            match aceita(e1, t, Tokens::Virgula) {
                Err(k) => Err(k),
                Ok(e2) => match simple_type_g(e2) {
                    Err(k) => Err(k),
                    Ok(e3) => if resto(e3) < resto(e) {
                        array_laco(e3)
                    } else {
                        Err(Falha::FimInesperado)
                    },
                },
            }
        } else {
            match espera(e1, Tokens::FechaColchete) {
                Err(k) => Err(k),
                Ok(e2) => match espera(e2, Tokens::Of) {
                    Err(k) => Err(k),
                    Ok(e3) => {
                        proof {
                            lemma_espera(e1, Tokens::FechaColchete);
                            lemma_espera(e2, Tokens::Of);
                        }
                        type_g(e3)
                    },
                },
            }
        },
    }
}

// record field_list end
/// A record type.
pub open spec fn record_g(e: Leitura) -> Passo
    decreases resto(e), 1nat,
{
    match espera(e, Tokens::Record) {
        Err(k) => Err(k),
        Ok(e1) => {
            proof {
                lemma_espera(e, Tokens::Record);
            }
            match field_list_g(e1) {
                Err(k) => Err(k),
                Ok(e2) => espera(e2, Tokens::End),
            }
        },
    }
}

// field_list ::= [ identifier_list : type] { ; [identifier_list : type] }
/// The fields of a record, when they start with an identifier.
pub open spec fn field_list_g(e: Leitura) -> Passo
    decreases resto(e), 2nat,
{
    match prox(e) {
        None => Err(Falha::FimInesperado),
        Some((e1, t)) => if t.tipo == Tokens::Identificador {
            field_list_laco(e1)
        } else {
            Ok(e1)
        },
    }
}

/// Fields `identifier_list : type`, separated by `;`, up to an `end` where a
/// field would start or a token after a field that is no `;`.
pub open spec fn field_list_laco(e: Leitura) -> Passo
    decreases resto(e), 1nat,
{
    match prox(e) {
        None => Err(Falha::FimInesperado),
        Some((e1, t)) => if t.tipo == Tokens::End {
            Ok(e1)
        } else {
            match identifier_list_g(e1) {
                Err(k) => Err(k),
                Ok(e2) => match espera(e2, Tokens::DoisPontos) {
                    Err(k) => Err(k),
                    Ok(e3) => if resto(e3) < resto(e) {
                        match type_g(e3) {
                            Err(k) => Err(k),
                            Ok(e4) => match prox(e4) {
                                None => Err(Falha::FimInesperado),
                                Some((e5, t5)) => if t5.tipo != Tokens::PontoVirgula {
                                    Ok(e5)
                                } else {
                                    match aceita(e5, t5, Tokens::PontoVirgula) {
                                        Err(k) => Err(k),
                                        Ok(e6) => if resto(e6) < resto(e) {
                                            field_list_laco(e6)
                                        } else {
                                            Err(Falha::FimInesperado)
                                        },
                                    }
                                },
                            },
                        }
                    } else {
                        Err(Falha::FimInesperado)
                    },
                },
            }
        },
    }
}

// label_declaration_part ::= label number { , number } ;
/// The labels of a block.
pub open spec fn label_declaration_part_g(e: Leitura) -> Passo {
    match espera(e, Tokens::Label) {
        Err(k) => Err(k),
        Ok(e1) => match number_list_g(e1) {
            Err(k) => Err(k),
            Ok(e2) => espera(e2, Tokens::PontoVirgula),
        },
    }
}

// const_definition ::= identifier = const
/// A constant's definition.
pub open spec fn const_definition_g(e: Leitura) -> Passo {
    match identifier_g(e) {
        Err(k) => Err(k),
        Ok(e1) => match espera(e1, Tokens::Igual) {
            Err(k) => Err(k),
            Ok(e2) => const_g(e2),
        },
    }
}

// const_declaration_part ::= const const_definition { ; const_definition } ;
/// The constants of a block.
pub open spec fn const_declaration_part_g(e: Leitura) -> Passo {
    match espera(e, Tokens::Const) {
        Err(k) => Err(k),
        Ok(e1) => match const_definition_g(e1) {
            Err(k) => Err(k),
            Ok(e2) => const_declaration_laco(e2),
        },
    }
}

/// A `;`, then another definition of a constant when an identifier follows.
pub open spec fn const_declaration_laco(e: Leitura) -> Passo
    decreases resto(e),
{
    match espera(e, Tokens::PontoVirgula) {
        Err(k) => Err(k),
        Ok(e1) => match prox(e1) {
            None => Err(Falha::FimInesperado),
            Some((e2, t)) => if t.tipo != Tokens::Identificador {
                Ok(e2)
            } else {
                match const_definition_g(e2) {
                    Err(k) => Err(k),
                    Ok(e3) => if resto(e3) < resto(e) {
                        const_declaration_laco(e3)
                    } else {
                        Err(Falha::FimInesperado)
                    },
                }
            },
        },
    }
}

// type_definition ::= identifier = type
/// A type's definition.
pub open spec fn type_definition_g(e: Leitura) -> Passo {
    match identifier_g(e) {
        Err(k) => Err(k),
        Ok(e1) => match espera(e1, Tokens::Igual) {
            Err(k) => Err(k),
            Ok(e2) => type_g(e2),
        },
    }
}

// type_declaration_part ::= type type_definition { ; type_definition } ;
/// The types of a block.
pub open spec fn type_declaration_part_g(e: Leitura) -> Passo {
    match espera(e, Tokens::Type) {
        Err(k) => Err(k),
        Ok(e1) => match type_definition_g(e1) {
            Err(k) => Err(k),
            Ok(e2) => type_declaration_laco(e2),
        },
    }
}

/// A `;`, then another definition of a type when an identifier follows.
pub open spec fn type_declaration_laco(e: Leitura) -> Passo
    decreases resto(e),
{
    match espera(e, Tokens::PontoVirgula) {
        Err(k) => Err(k),
        Ok(e1) => match prox(e1) {
            None => Err(Falha::FimInesperado),
            Some((e2, t)) => if t.tipo != Tokens::Identificador {
                Ok(e2)
            } else {
                match type_definition_g(e2) {
                    Err(k) => Err(k),
                    Ok(e3) => if resto(e3) < resto(e) {
                        type_declaration_laco(e3)
                    } else {
                        Err(Falha::FimInesperado)
                    },
                }
            },
        },
    }
}

/// An identifier declared as the next variable, at the position after the
/// variables declared.
pub open spec fn declara_variavel_g(e: Leitura) -> Passo {
    match prox(e) {
        None => Err(Falha::FimInesperado),
        Some((e1, t)) => match identifier_g(e1) {
            Err(k) => Err(k),
            Ok(e2) => Ok(
                Leitura {
                    tabela: e2.tabela,
                    linha: e2.linha,
                    simbolos: e2.simbolos,
                    variaveis: e2.variaveis.push((t.tok, e2.variaveis.len() as i32)),
                },
            ),
        },
    }
}

// identifier_list_var ::= identifier { , identifier }
/// A list of variables declared.
pub open spec fn identifier_list_var_g(e: Leitura) -> Passo {
    match declara_variavel_g(e) {
        Err(k) => Err(k),
        Ok(e1) => identifier_list_var_laco(e1),
    }
}

/// The `, identifier` pairs of a list of variables declared.
pub open spec fn identifier_list_var_laco(e: Leitura) -> Passo
    decreases resto(e),
{
    match prox(e) {
        None => Err(Falha::FimInesperado),
        Some((e1, t)) => if t.tipo != Tokens::Virgula {
            Ok(e1)
        } else {
            match aceita(e1, t, Tokens::Virgula) {
                Err(k) => Err(k),
                Ok(e2) => match declara_variavel_g(e2) {
                    Err(k) => Err(k),
                    Ok(e3) => if resto(e3) < resto(e) {
                        identifier_list_var_laco(e3)
                    } else {
                        Err(Falha::FimInesperado)
                    },
                },
            }
        },
    }
}

// var_declaration ::= identifier_list_var : type
/// A declaration of variables: their list, `:` and one of the basic types.
pub open spec fn var_declaration_g(e: Leitura) -> Passo {
    match identifier_list_var_g(e) {
        Err(k) => Err(k),
        Ok(e1) => match espera(e1, Tokens::DoisPontos) {
            Err(k) => Err(k),
            Ok(e2) => match prox(e2) {
                None => Err(Falha::FimInesperado),
                Some((e3, t)) => if t.tipo == Tokens::Integer || t.tipo == Tokens::Real || t.tipo == Tokens::Char
                    || t.tipo == Tokens::Boolean {
                    aceita(e3, t, t.tipo)
                } else {
                    Err(Falha::TipoBasicoEsperado(t.tok))
                },
            },
        },
    }
}

// var_declaration_part ::= var var_declaration { ; var_declaration} ;
/// The variables of a block.
pub open spec fn var_declaration_part_g(e: Leitura) -> Passo {
    match espera(e, Tokens::Var) {
        Err(k) => Err(k),
        Ok(e1) => match var_declaration_g(e1) {
            Err(k) => Err(k),
            Ok(e2) => var_declaration_laco(e2),
        },
    }
}

/// A `;`, then another declaration of variables when an identifier follows.
pub open spec fn var_declaration_laco(e: Leitura) -> Passo
    decreases resto(e),
{
    match espera(e, Tokens::PontoVirgula) {
        Err(k) => Err(k),
        Ok(e1) => match prox(e1) {
            None => Err(Falha::FimInesperado),
            Some((e2, t)) => if t.tipo != Tokens::Identificador {
                Ok(e2)
            } else {
                match var_declaration_g(e2) {
                    Err(k) => Err(k),
                    Ok(e3) => if resto(e3) < resto(e) {
                        var_declaration_laco(e3)
                    } else {
                        Err(Falha::FimInesperado)
                    },
                }
            },
        },
    }
}

// param_section ::= [ var ] identifier_list : identifier | function identifier_list : identifier | procedure identifier_list
/// A section of formal parameters.
pub open spec fn param_section_g(e: Leitura) -> Passo {
    match prox(e) {
        None => Err(Falha::FimInesperado),
        Some((e1, t)) => if t.tipo == Tokens::Function {
            match aceita(e1, t, Tokens::Function) {
                Err(k) => Err(k),
                Ok(e2) => match identifier_list_g(e2) {
                    Err(k) => Err(k),
                    Ok(e3) => match espera(e3, Tokens::DoisPontos) {
                        Err(k) => Err(k),
                        Ok(e4) => tipo_basico_ou_identificador_g(e4),
                    },
                },
            }
        } else if t.tipo == Tokens::Procedure {
            match aceita(e1, t, Tokens::Procedure) {
                Err(k) => Err(k),
                Ok(e2) => identifier_list_g(e2),
            }
        } else {
            match (if t.tipo == Tokens::Var { aceita(e1, t, Tokens::Var) } else { Ok(e1) }) {
                Err(k) => Err(k),
                Ok(e2) => match identifier_list_g(e2) {
                    Err(k) => Err(k),
                    Ok(e3) => match espera(e3, Tokens::DoisPontos) {
                        Err(k) => Err(k),
                        Ok(e4) => tipo_basico_ou_identificador_g(e4),
                    },
                },
            }
        },
    }
}

// formal_parameters ::= ( param_section { ; param_section } )
/// The formal parameters of a subroutine, when a bracket comes.
pub open spec fn formal_parameters_g(e: Leitura) -> Passo {
    match prox(e) {
        None => Err(Falha::FimInesperado),
        Some((e1, t)) => if t.tipo != Tokens::AbreParenteses {
            Ok(e1)
        } else {
            match aceita(e1, t, Tokens::AbreParenteses) {
                Err(k) => Err(k),
                Ok(e2) => match param_section_g(e2) {
                    Err(k) => Err(k),
                    Ok(e3) => formal_parameters_laco(e3),
                },
            }
        },
    }
}

/// The `; param_section` pairs of the formal parameters, and the closing
/// bracket.
pub open spec fn formal_parameters_laco(e: Leitura) -> Passo
    decreases resto(e),
{
    match prox(e) {
        None => Err(Falha::FimInesperado),
        Some((e1, t)) => if t.tipo != Tokens::PontoVirgula {
            aceita(e1, t, Tokens::FechaParenteses)
        } else {
            match aceita(e1, t, Tokens::PontoVirgula) {
                Err(k) => Err(k),
                Ok(e2) => match param_section_g(e2) {
                    Err(k) => Err(k),
                    Ok(e3) => if resto(e3) < resto(e) {
                        formal_parameters_laco(e3)
                    } else {
                        Err(Falha::FimInesperado)
                    },
                },
            }
        },
    }
}

// assign_statement ::= identifier [ infipo ] := expr
/// An assignment.
pub open spec fn assign_statement_g(e: Leitura) -> Passo {
    match identifier_g(e) {
        Err(k) => Err(k),
        Ok(e1) => match prox(e1) {
            None => Err(Falha::FimInesperado),
            Some((e2, t)) => match (if t.tipo == Tokens::AbreColchete || t.tipo == Tokens::Ponto {
                match infipo_g(e2) {
                    Err(k) => Err(k),
                    Ok(e3) => espera(e3, Tokens::Atribuicao),
                }
            } else {
                aceita(e2, t, Tokens::Atribuicao)
            }) {
                Err(k) => Err(k),
                Ok(e4) => expr_g(e4),
            },
        },
    }
}

// procedure_call ::= identifier [ ( expr_list ) ]
/// A call of a procedure.
pub open spec fn procedure_call_g(e: Leitura) -> Passo {
    match identifier_g(e) {
        Err(k) => Err(k),
        Ok(e1) => match prox(e1) {
            None => Err(Falha::FimInesperado),
            Some((e2, t)) => if t.tipo == Tokens::AbreParenteses {
                match aceita(e2, t, Tokens::AbreParenteses) {
                    Err(k) => Err(k),
                    Ok(e3) => match expr_list_g(e3) {
                        Err(k) => Err(k),
                        Ok(e4) => espera(e4, Tokens::FechaParenteses),
                    },
                }
            } else {
                Ok(e2)
            },
        },
    }
}

// goto_statement ::= goto number
/// A `goto`.
pub open spec fn goto_statement_g(e: Leitura) -> Passo {
    match espera(e, Tokens::Goto) {
        Err(k) => Err(k),
        Ok(e1) => number_g(e1),
    }
}

// internal_functions ::= read ( identifier_list ) | write ( identifier_list )
/// A `read` or a `write` of a list of identifiers; nothing else.
pub open spec fn internal_functions_g(e: Leitura) -> Passo {
    match prox(e) {
        None => Err(Falha::FimInesperado),
        Some((e1, t)) => if t.tipo == Tokens::Read || t.tipo == Tokens::Write {
            match aceita(e1, t, t.tipo) {
                Err(k) => Err(k),
                Ok(e2) => match espera(e2, Tokens::AbreParenteses) {
                    Err(k) => Err(k),
                    Ok(e3) => match identifier_list_g(e3) {
                        Err(k) => Err(k),
                        Ok(e4) => espera(e4, Tokens::FechaParenteses),
                    },
                },
            }
        } else {
            Ok(e1)
        },
    }
}

// statement ::= assign_statement | procedure_call | if_statement | case_statement | while_statement | repeat_statement | for_statement | with_statement | goto_statement | compound_statement | Vazio
/// A statement, chosen by its first token; an identifier starts an
/// assignment when the token after it on its line is `[`, `.` or `:=`, and
/// a call otherwise; any other token starts a `read`, a `write`, or nothing.
pub open spec fn statement_g(e: Leitura) -> Passo
    decreases resto(e), 3nat,
{
    match prox(e) {
        None => Err(Falha::FimInesperado),
        Some((e1, t)) => if t.tipo == Tokens::Identificador {
            let s = segundo(e1);
            if s == Tokens::AbreColchete || s == Tokens::Ponto || s == Tokens::Atribuicao {
                assign_statement_g(e1)
            } else {
                procedure_call_g(e1)
            }
        } else if t.tipo == Tokens::If {
            if_statement_g(e1)
        } else if t.tipo == Tokens::Case {
            case_statement_g(e1)
        } else if t.tipo == Tokens::While {
            while_statement_g(e1)
        } else if t.tipo == Tokens::Repeat {
            repeat_statement_g(e1)
        } else if t.tipo == Tokens::For {
            for_statement_g(e1)
        } else if t.tipo == Tokens::With {
            with_statement_g(e1)
        } else if t.tipo == Tokens::Goto {
            goto_statement_g(e1)
        } else if t.tipo == Tokens::Begin {
            compound_statement_g(e1)
        } else {
            internal_functions_g(e1)
        },
    }
}

// labeled_statement ::= [ number :] statement
/// A statement, after a label (a whole number and `:`) when a number comes;
/// a number followed on its line by a dot or a scale factor is refused.
pub open spec fn labeled_statement_g(e: Leitura) -> Passo
    decreases resto(e), 4nat,
{
    match prox(e) {
        None => Err(Falha::FimInesperado),
        Some((e1, t)) => if t.tipo == Tokens::Numero {
            if !(segundo(e1) == Tokens::Ponto || segundo(e1) == Tokens::FatorEscala) {
                match aceita(e1, t, Tokens::Numero) {
                    Err(k) => Err(k),
                    Ok(e2) => match espera(e2, Tokens::DoisPontos) {
                        Err(k) => Err(k),
                        Ok(e3) => {
                            proof {
                                lemma_aceita(e1, t, Tokens::Numero);
                                lemma_espera(e2, Tokens::DoisPontos);
                            }
                            statement_g(e3)
                        },
                    },
                }
            } else {
                Err(Falha::NumeroInteiroEsperado(t.tok))
            }
        } else {
            statement_g(e1)
        },
    }
}

// compound_statement ::= begin labeled_statement { ; labeled_statement } end
/// A compound statement.
pub open spec fn compound_statement_g(e: Leitura) -> Passo
    decreases resto(e), 1nat,
{
    match espera(e, Tokens::Begin) {
        Err(k) => Err(k),
        Ok(e1) => {
            proof {
                lemma_espera(e, Tokens::Begin);
            }
            match labeled_statement_g(e1) {
                Err(k) => Err(k),
                Ok(e2) => if resto(e2) < resto(e) {
                    compound_statement_laco(e2)
                } else {
                    Err(Falha::FimInesperado)
                },
            }
        },
    }
}

/// The `; labeled_statement` pairs of a compound statement, and its `end`.
pub open spec fn compound_statement_laco(e: Leitura) -> Passo
    decreases resto(e), 0nat,
{
    match prox(e) {
        None => Err(Falha::FimInesperado),
        Some((e1, t)) => if t.tipo != Tokens::PontoVirgula {
            aceita(e1, t, Tokens::End)
        } else {
            match aceita(e1, t, Tokens::PontoVirgula) {
                Err(k) => Err(k),
                Ok(e2) => {
                    proof {
                        lemma_aceita(e1, t, Tokens::PontoVirgula);
                    }
                    match labeled_statement_g(e2) {
                        Err(k) => Err(k),
                        Ok(e3) => if resto(e3) < resto(e) {
                            compound_statement_laco(e3)
                        } else {
                            Err(Falha::FimInesperado)
                        },
                    }
                },
            }
        },
    }
}

// if_statement ::= if expr then statement [ else statement ]
/// An `if`.
pub open spec fn if_statement_g(e: Leitura) -> Passo
    decreases resto(e), 1nat,
{
    match espera(e, Tokens::If) {
        Err(k) => Err(k),
        Ok(e1) => match expr_g(e1) {
            Err(k) => Err(k),
            Ok(e2) => match espera(e2, Tokens::Then) {
                Err(k) => Err(k),
                Ok(e3) => if resto(e3) < resto(e) {
                    match statement_g(e3) {
                        Err(k) => Err(k),
                        Ok(e4) => match prox(e4) {
                            None => Err(Falha::FimInesperado),
                            Some((e5, t)) => if t.tipo == Tokens::Else {
                                match aceita(e5, t, Tokens::Else) {
                                    Err(k) => Err(k),
                                    Ok(e6) => if resto(e6) < resto(e) {
                                        statement_g(e6)
                                    } else {
                                        Err(Falha::FimInesperado)
                                    },
                                }
                            } else {
                                Ok(e5)
                            },
                        },
                    }
                } else {
                    Err(Falha::FimInesperado)
                },
            },
        },
    }
}

// while_statement ::= while expr do statement
/// A `while`.
pub open spec fn while_statement_g(e: Leitura) -> Passo
    decreases resto(e), 1nat,
{
    match espera(e, Tokens::While) {
        Err(k) => Err(k),
        Ok(e1) => match expr_g(e1) {
            Err(k) => Err(k),
            Ok(e2) => match espera(e2, Tokens::Do) {
                Err(k) => Err(k),
                Ok(e3) => if resto(e3) < resto(e) {
                    statement_g(e3)
                } else {
                    Err(Falha::FimInesperado)
                },
            },
        },
    }
}

// repeat_statement ::= repeat statement { ; statement } until expr
/// A `repeat`.
pub open spec fn repeat_statement_g(e: Leitura) -> Passo
    decreases resto(e), 1nat,
{
    match espera(e, Tokens::Repeat) {
        Err(k) => Err(k),
        Ok(e1) => {
            proof {
                lemma_espera(e, Tokens::Repeat);
            }
            match statement_g(e1) {
                Err(k) => Err(k),
                Ok(e2) => if resto(e2) < resto(e) {
                    repeat_statement_laco(e2)
                } else {
                    Err(Falha::FimInesperado)
                },
            }
        },
    }
}

/// The `; statement` pairs of a `repeat`, then `until` and an expression.
pub open spec fn repeat_statement_laco(e: Leitura) -> Passo
    decreases resto(e), 0nat,
{
    match prox(e) {
        None => Err(Falha::FimInesperado),
        Some((e1, t)) => if t.tipo != Tokens::PontoVirgula {
            match aceita(e1, t, Tokens::Until) {
                Err(k) => Err(k),
                Ok(e2) => expr_g(e2),
            }
        } else {
            match aceita(e1, t, Tokens::PontoVirgula) {
                Err(k) => Err(k),
                Ok(e2) => {
                    proof {
                        lemma_aceita(e1, t, Tokens::PontoVirgula);
                    }
                    match statement_g(e2) {
                        Err(k) => Err(k),
                        Ok(e3) => if resto(e3) < resto(e) {
                            repeat_statement_laco(e3)
                        } else {
                            Err(Falha::FimInesperado)
                        },
                    }
                },
            }
        },
    }
}

// for_statement ::= for identifier infipo := expr (to | downto) expr do statement
/// A `for`: the variable, selectors, `:=` and an expression, then `to` or
/// `downto` (any other token is refused), an expression, `do` and a
/// statement.
pub open spec fn for_statement_g(e: Leitura) -> Passo
    decreases resto(e), 1nat,
{
    match espera(e, Tokens::For) {
        Err(k) => Err(k),
        Ok(e1) => match identifier_g(e1) {
            Err(k) => Err(k),
            Ok(e2) => match infipo_g(e2) {
                Err(k) => Err(k),
                Ok(e3) => match espera(e3, Tokens::Atribuicao) {
                    Err(k) => Err(k),
                    Ok(e4) => match expr_g(e4) {
                        Err(k) => Err(k),
                        Ok(e5) => match prox(e5) {
                            None => Err(Falha::FimInesperado),
                            Some((e6, t)) => match (if t.tipo == Tokens::To || t.tipo == Tokens::Downto {
                                aceita(e6, t, t.tipo)
                            } else {
                                Err(Falha::DirecaoEsperada(t.tok))
                            }) {
                                Err(k) => Err(k),
                                Ok(e7) => match expr_g(e7) {
                                    Err(k) => Err(k),
                                    Ok(e8) => match espera(e8, Tokens::Do) {
                                        Err(k) => Err(k),
                                        Ok(e9) => if resto(e9) < resto(e) {
                                            statement_g(e9)
                                        } else {
                                            Err(Falha::FimInesperado)
                                        },
                                    },
                                },
                            },
                        },
                    },
                },
            },
        },
    }
}

// with_statement ::= with identifier infipo { , identifier infipo } do statement
/// A `with`.
pub open spec fn with_statement_g(e: Leitura) -> Passo
    decreases resto(e), 1nat,
{
    match espera(e, Tokens::With) {
        Err(k) => Err(k),
        Ok(e1) => match identifier_g(e1) {
            Err(k) => Err(k),
            Ok(e2) => match infipo_g(e2) {
                Err(k) => Err(k),
                Ok(e3) => if resto(e3) < resto(e) {
                    with_statement_laco(e3)
                } else {
                    Err(Falha::FimInesperado)
                },
            },
        },
    }
}

/// The `, identifier infipo` groups of a `with`, then `do` and a statement.
pub open spec fn with_statement_laco(e: Leitura) -> Passo
    decreases resto(e), 0nat,
{
    match prox(e) {
        None => Err(Falha::FimInesperado),
        Some((e1, t)) => if t.tipo != Tokens::Virgula {
            match aceita(e1, t, Tokens::Do) {
                Err(k) => Err(k),
                Ok(e2) => {
                    proof {
                        lemma_aceita(e1, t, Tokens::Do);
                    }
                    statement_g(e2)
                },
            }
        } else {
            match aceita(e1, t, Tokens::Virgula) {
                Err(k) => Err(k),
                Ok(e2) => match identifier_g(e2) {
                    Err(k) => Err(k),
                    Ok(e3) => match infipo_g(e3) {
                        Err(k) => Err(k),
                        Ok(e4) => if resto(e4) < resto(e) {
                            with_statement_laco(e4)
                        } else {
                            Err(Falha::FimInesperado)
                        },
                    },
                },
            }
        },
    }
}

// case_statement ::= case expr of case { ; case } end
/// A `case`.
pub open spec fn case_statement_g(e: Leitura) -> Passo
    decreases resto(e), 1nat,
{
    match espera(e, Tokens::Case) {
        Err(k) => Err(k),
        Ok(e1) => match expr_g(e1) {
            Err(k) => Err(k),
            Ok(e2) => match espera(e2, Tokens::Of) {
                Err(k) => Err(k),
                Ok(e3) => if resto(e3) < resto(e) {
                    match case_g(e3) {
                        Err(k) => Err(k),
                        Ok(e4) => if resto(e4) < resto(e) {
                            case_statement_laco(e4)
                        } else {
                            Err(Falha::FimInesperado)
                        },
                    }
                } else {
                    Err(Falha::FimInesperado)
                },
            },
        },
    }
}

/// The `; case` pairs of a `case`, and its `end`.
pub open spec fn case_statement_laco(e: Leitura) -> Passo
    decreases resto(e), 0nat,
{
    match prox(e) {
        None => Err(Falha::FimInesperado),
        Some((e1, t)) => if t.tipo != Tokens::PontoVirgula {
            aceita(e1, t, Tokens::End)
        } else {
            match aceita(e1, t, Tokens::PontoVirgula) {
                Err(k) => Err(k),
                Ok(e2) => {
                    proof {
                        lemma_aceita(e1, t, Tokens::PontoVirgula);
                    }
                    match case_g(e2) {
                        Err(k) => Err(k),
                        Ok(e3) => if resto(e3) < resto(e) {
                            case_statement_laco(e3)
                        } else {
                            Err(Falha::FimInesperado)
                        },
                    }
                },
            }
        },
    }
}

// case ::= const {, const } : statement
/// One case: constants separated by commas, `:` and a statement.
pub open spec fn case_g(e: Leitura) -> Passo
    decreases resto(e), 1nat,
{
    match const_g(e) {
        Err(k) => Err(k),
        Ok(e1) => match case_constantes(e1) {
            Err(k) => Err(k),
            Ok(e2) => match espera(e2, Tokens::DoisPontos) {
                Err(k) => Err(k),
                Ok(e3) => if resto(e3) < resto(e) {
                    statement_g(e3)
                } else {
                    Err(Falha::FimInesperado)
                },
            },
        },
    }
}

/// The `, const` pairs of a case.
pub open spec fn case_constantes(e: Leitura) -> Passo
    decreases resto(e),
{
    match prox(e) {
        None => Err(Falha::FimInesperado),
        Some((e1, t)) => if t.tipo != Tokens::Virgula {
            Ok(e1)
        } else {
            match aceita(e1, t, Tokens::Virgula) {
                Err(k) => Err(k),
                Ok(e2) => match const_g(e2) {
                    Err(k) => Err(k),
                    Ok(e3) => if resto(e3) < resto(e) {
                        case_constantes(e3)
                    } else {
                        Err(Falha::FimInesperado)
                    },
                },
            }
        },
    }
}

/// A part of a block that comes when the next token is of kind `k`, read by
/// `parte`; nothing otherwise.
pub open spec fn se_vier(e: Leitura, t: TokenVista, k: Tokens, parte: Passo) -> Passo {
    if t.tipo == k {
        parte
    } else {
        Ok(e)
    }
}

/// The parts of declarations of a block that come: labels, constants,
/// types and variables, in this order, each when its first token comes.
pub open spec fn declaracoes_g(e: Leitura) -> Passo {
    match prox(e) {
        None => Err(Falha::FimInesperado),
        Some((e1, t1)) => match se_vier(e1, t1, Tokens::Label, label_declaration_part_g(e1)) {
            Err(k) => Err(k),
            Ok(e2) => match prox(e2) {
                None => Err(Falha::FimInesperado),
                Some((e3, t3)) => match se_vier(e3, t3, Tokens::Const, const_declaration_part_g(e3)) {
                    Err(k) => Err(k),
                    Ok(e4) => match prox(e4) {
                        None => Err(Falha::FimInesperado),
                        Some((e5, t5)) => match se_vier(e5, t5, Tokens::Type, type_declaration_part_g(e5)) {
                            Err(k) => Err(k),
                            Ok(e6) => match prox(e6) {
                                None => Err(Falha::FimInesperado),
                                Some((e7, t7)) => se_vier(e7, t7, Tokens::Var, var_declaration_part_g(e7)),
                            },
                        },
                    },
                },
            },
        },
    }
}

// block ::= [label_declaration_part] [const_declaration_part] [type_declaration_part] [var_declaration_part] [subroutine_declaration_part] compound_statement
/// A block: the parts of declarations that come (see `declaracoes_g`), the
/// subroutines when `procedure` or `function` comes, then a compound
/// statement.
pub open spec fn block_g(e: Leitura) -> Passo
    decreases resto(e), 3nat,
{
    match declaracoes_g(e) {
        Err(k) => Err(k),
        Ok(e8) => match prox(e8) {
            None => Err(Falha::FimInesperado),
            Some((e9, t9)) => if resto(e9) > resto(e) {
                Err(Falha::FimInesperado)
            } else {
                match (if t9.tipo == Tokens::Procedure || t9.tipo == Tokens::Function {
                    subroutine_declaration_part_g(e9)
                } else {
                    Ok(e9)
                }) {
                    Err(k) => Err(k),
                    Ok(e10) => compound_statement_g(e10),
                }
            },
        },
    }
}

// subroutine_declaration_part ::= { procedure_declaration ; | function_declaration ; }
/// The subroutines of a block.
pub open spec fn subroutine_declaration_part_g(e: Leitura) -> Passo
    decreases resto(e), 2nat,
{
    match prox(e) {
        None => Err(Falha::FimInesperado),
        Some((e1, t)) => subroutine_declaration_laco(e1),
    }
}

/// Subroutines, each a procedure when it starts with `procedure` and a
/// function otherwise, followed by `;`, as long as `procedure` or
/// `function` follows.
pub open spec fn subroutine_declaration_laco(e: Leitura) -> Passo
    decreases resto(e), 1nat,
{
    match prox(e) {
        None => Err(Falha::FimInesperado),
        Some((e1, t)) => match (if t.tipo == Tokens::Procedure {
            procedure_declaration_g(e1)
        } else {
            function_declaration_g(e1)
        }) {
            Err(k) => Err(k),
            Ok(e2) => match espera(e2, Tokens::PontoVirgula) {
                Err(k) => Err(k),
                Ok(e3) => match prox(e3) {
                    None => Err(Falha::FimInesperado),
                    Some((e4, t4)) => if t4.tipo != Tokens::Procedure && t4.tipo != Tokens::Function {
                        Ok(e4)
                    } else if resto(e4) < resto(e) {
                        subroutine_declaration_laco(e4)
                    } else {
                        Err(Falha::FimInesperado)
                    },
                },
            },
        },
    }
}

// procedure_declaration ::= procedure identifier [ formal_parameters ] ; block
/// A procedure.
pub open spec fn procedure_declaration_g(e: Leitura) -> Passo
    decreases resto(e), 0nat,
{
    match espera(e, Tokens::Procedure) {
        Err(k) => Err(k),
        Ok(e1) => match identifier_g(e1) {
            Err(k) => Err(k),
            Ok(e2) => match formal_parameters_g(e2) {
                Err(k) => Err(k),
                Ok(e3) => match espera(e3, Tokens::PontoVirgula) {
                    Err(k) => Err(k),
                    Ok(e4) => if resto(e4) < resto(e) {
                        block_g(e4)
                    } else {
                        Err(Falha::FimInesperado)
                    },
                },
            },
        },
    }
}

// function_declaration ::= function identifier [ formal_parameters ] : identifier ; block
/// A function.
pub open spec fn function_declaration_g(e: Leitura) -> Passo
    decreases resto(e), 0nat,
{
    match espera(e, Tokens::Function) {
        Err(k) => Err(k),
        Ok(e1) => match identifier_g(e1) {
            Err(k) => Err(k),
            Ok(e2) => match formal_parameters_g(e2) {
                Err(k) => Err(k),
                Ok(e3) => match espera(e3, Tokens::DoisPontos) {
                    Err(k) => Err(k),
                    Ok(e4) => match tipo_basico_ou_identificador_g(e4) {
                        Err(k) => Err(k),
                        Ok(e5) => match espera(e5, Tokens::PontoVirgula) {
                            Err(k) => Err(k),
                            Ok(e6) => if resto(e6) < resto(e) {
                                block_g(e6)
                            } else {
                                Err(Falha::FimInesperado)
                            },
                        },
                    },
                },
            },
        },
    }
}

// program ::= program identifier [ ( identifier_list ) ] ; block .
/// A whole program: `program`, its name, an optional list of identifiers in
/// brackets, `;`, a block and the final `.`.
pub open spec fn program_g(e: Leitura) -> Passo {
    match espera(e, Tokens::Program) {
        Err(k) => Err(k),
        Ok(e1) => match identifier_g(e1) {
            Err(k) => Err(k),
            Ok(e2) => match prox(e2) {
                None => Err(Falha::FimInesperado),
                Some((e3, t)) => match (if t.tipo == Tokens::AbreParenteses {
                    match aceita(e3, t, Tokens::AbreParenteses) {
                        Err(k) => Err(k),
                        Ok(e4) => match identifier_list_g(e4) {
                            Err(k) => Err(k),
                            Ok(e5) => match espera(e5, Tokens::FechaParenteses) {
                                Err(k) => Err(k),
                                Ok(e6) => match prox(e6) {
                                    None => Err(Falha::FimInesperado),
                                    Some((e7, t7)) => aceita(e7, t7, Tokens::PontoVirgula),
                                },
                            },
                        },
                    }
                } else {
                    aceita(e3, t, Tokens::PontoVirgula)
                }) {
                    Err(k) => Err(k),
                    Ok(e8) => match block_g(e8) {
                        Err(k) => Err(k),
                        Ok(e9) => espera(e9, Tokens::Ponto),
                    },
                },
            },
        },
    }
}


/// A multiplying operator of the grammar: `*`, `/`, `div`, `mod` or `and`.
pub open spec fn operador_multiplicativo(k: Tokens) -> bool {
    k == Tokens::Multiplicacao || k == Tokens::Divisao || k == Tokens::Div || k == Tokens::Mod || k == Tokens::And
}

/// A term made of two numbers joined by any multiplying operator of the
/// grammar (`*`, `/`, `div`, `mod`, `and`), with a `;` after it on the same
/// line, is accepted: its three tokens leave the line, in order, and go to
/// the symbols, and the `;` is the next token.
pub proof fn lei_termo_multiplicativo(
    e: Leitura,
    a: TokenVista,
    o: TokenVista,
    b: TokenVista,
    z: TokenVista,
    resto_linha: Seq<TokenVista>,
)
    requires
        0 <= e.linha < e.tabela.len(),
        e.tabela[e.linha] == seq![a, o, b, z] + resto_linha,
        a.tipo == Tokens::Numero,
        b.tipo == Tokens::Numero,
        operador_multiplicativo(o.tipo),
        z.tipo == Tokens::PontoVirgula,
    ensures
        term_g(e) == Ok::<Leitura, Falha>(
            Leitura {
                tabela: e.tabela.update(e.linha, seq![z] + resto_linha),
                linha: e.linha,
                simbolos: e.simbolos + seq![par(a), par(o), par(b)],
                variaveis: e.variaveis,
            },
        ),
{
    let l = e.linha;
    let t = e.tabela;
    let l0 = seq![a, o, b, z] + resto_linha;
    let l1 = seq![o, b, z] + resto_linha;
    let l2 = seq![b, z] + resto_linha;
    let l3 = seq![z] + resto_linha;
    assert(l0.drop_first() =~= l1);
    assert(l1.drop_first() =~= l2);
    assert(l2.drop_first() =~= l3);
    let e1 = Leitura { tabela: t.update(l, l1), linha: l, simbolos: e.simbolos.push(par(a)), variaveis: e.variaveis };
    let e2 = Leitura { tabela: t.update(l, l2), linha: l, simbolos: e1.simbolos.push(par(o)), variaveis: e.variaveis };
    let e3 = Leitura { tabela: t.update(l, l3), linha: l, simbolos: e2.simbolos.push(par(b)), variaveis: e.variaveis };
    assert(e.na_linha(l) == e);
    assert(prox(e) == Some((e, a)));
    assert(sem_primeiro(t, l) =~= t.update(l, l1));
    assert(aceita(e, a, Tokens::Numero) == Ok::<Leitura, Falha>(e1));
    assert(e1.tabela[l] == l1);
    assert(e1.na_linha(l) == e1);
    assert(prox(e1) == Some((e1, o)));
    assert(number_g(e) == Ok::<Leitura, Falha>(e1));
    assert(factor_g(e) == Ok::<Leitura, Falha>(e1));
    lemma_aceita(e, a, Tokens::Numero);
    assert(sem_primeiro(e1.tabela, l) =~= t.update(l, l2));
    assert(mulop_g(e1) == Ok::<Leitura, Falha>(e2));
    lemma_aceita(e1, o, o.tipo);
    assert(e2.tabela[l] == l2);
    assert(e2.na_linha(l) == e2);
    assert(prox(e2) == Some((e2, b)));
    assert(sem_primeiro(e2.tabela, l) =~= t.update(l, l3));
    assert(aceita(e2, b, Tokens::Numero) == Ok::<Leitura, Falha>(e3));
    assert(e3.tabela[l] == l3);
    assert(e3.na_linha(l) == e3);
    assert(prox(e3) == Some((e3, z)));
    assert(number_g(e2) == Ok::<Leitura, Falha>(e3));
    assert(factor_g(e2) == Ok::<Leitura, Falha>(e3));
    lemma_aceita(e2, b, Tokens::Numero);
    assert(term_laco(e3) == Ok::<Leitura, Falha>(e3));
    assert(term_laco(e1) == Ok::<Leitura, Falha>(e3));
    assert(e.simbolos + seq![par(a), par(o), par(b)] =~= e3.simbolos);
}

} // verus!
